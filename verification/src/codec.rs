use vstd::prelude::*;
use vstd::string::StrSliceExecFns;

verus! {

/// Why a MAC string was rejected: it did not contain exactly six valid
/// hexadecimal groups.
#[derive(Clone, Copy, Debug, PartialEq, Eq, Structural)]
pub enum ParseError {
    InvalidAddress,
}

/// A validated hardware (MAC) address: exactly six bytes, one per
/// hexadecimal group of the string it was parsed from.
pub struct HardwareAddress {
    pub octets: Vec<u8>,
}

impl View for HardwareAddress {
    type V = Seq<u8>;

    open spec fn view(&self) -> Seq<u8> {
        self.octets@
    }
}

impl HardwareAddress {
    /// The address invariant: exactly six octets.
    pub open spec fn wf(&self) -> bool {
        self@.len() == 6
    }
}

/// The characters a MAC string may be delimited with; both are accepted,
/// even mixed.
pub open spec fn is_sep(c: char) -> bool {
    c == ':' || c == '-'
}

/// Hexadecimal digits, either case.
pub open spec fn is_hex_digit(c: char) -> bool {
    ||| ('0' as u32) <= (c as u32) <= ('9' as u32)
    ||| ('A' as u32) <= (c as u32) <= ('F' as u32)
    ||| ('a' as u32) <= (c as u32) <= ('f' as u32)
}

/// The numeric value of a hexadecimal digit (0 for anything else).
pub open spec fn hex_digit_value(c: char) -> nat {
    if ('0' as u32) <= (c as u32) <= ('9' as u32) {
        ((c as u32) - ('0' as u32)) as nat
    } else if ('A' as u32) <= (c as u32) <= ('F' as u32) {
        ((c as u32) - ('A' as u32) + 10) as nat
    } else if ('a' as u32) <= (c as u32) <= ('f' as u32) {
        ((c as u32) - ('a' as u32) + 10) as nat
    } else {
        0
    }
}

/// The base-16 value of a run of digits, most significant first.
pub open spec fn group_value(g: Seq<char>) -> nat
    decreases g.len(),
{
    if g.len() == 0 {
        0
    } else {
        group_value(g.drop_last()) * 16 + hex_digit_value(g.last())
    }
}

/// A group that decodes to one byte: a nonempty run of hexadecimal digits
/// whose value fits in eight bits. Any other group — empty, holding a
/// stray character, or too large — is dropped by the parser rather than
/// reported.
pub open spec fn is_valid_group(g: Seq<char>) -> bool {
    &&& g.len() >= 1
    &&& forall|i: int| 0 <= i < g.len() ==> is_hex_digit(#[trigger] g[i])
    &&& group_value(g) < 256
}

/// Splitting a string on separators, front to back; `cur` carries the
/// characters of the group being accumulated. Consecutive separators and
/// separators at either end yield empty groups, exactly as splitting does.
pub open spec fn split_rec(s: Seq<char>, cur: Seq<char>) -> Seq<Seq<char>>
    decreases s.len(),
{
    if s.len() == 0 {
        seq![cur]
    } else if is_sep(s[0]) {
        seq![cur] + split_rec(s.drop_first(), Seq::<char>::empty())
    } else {
        split_rec(s.drop_first(), cur.push(s[0]))
    }
}

/// The groups a MAC string splits into on `:` and `-`, in order, empty
/// groups included.
pub open spec fn hex_groups(s: Seq<char>) -> Seq<Seq<char>> {
    split_rec(s, Seq::<char>::empty())
}

/// The bytes a sequence of groups decodes to: valid groups contribute
/// their value, in order; the rest contribute nothing.
pub open spec fn group_bytes(gs: Seq<Seq<char>>) -> Seq<u8>
    decreases gs.len(),
{
    if gs.len() == 0 {
        Seq::<u8>::empty()
    } else {
        (if is_valid_group(gs[0]) {
            seq![group_value(gs[0]) as u8]
        } else {
            Seq::<u8>::empty()
        }) + group_bytes(gs.drop_first())
    }
}

/// What a MAC string decodes to: split on separators, keep the valid
/// groups, decode each to its byte.
pub open spec fn decoded_bytes(s: Seq<char>) -> Seq<u8> {
    group_bytes(hex_groups(s))
}

/// When every group of a string is a valid hexadecimal byte, nothing is
/// dropped: the decoded bytes are exactly the groups' values, in order.
pub proof fn lemma_group_bytes_all_valid(gs: Seq<Seq<char>>)
    requires
        forall|i: int| 0 <= i < gs.len() ==> is_valid_group(#[trigger] gs[i]),
    ensures
        group_bytes(gs).len() == gs.len(),
        forall|i: int| 0 <= i < gs.len() ==> #[trigger] group_bytes(gs)[i] == group_value(
            gs[i],
        ) as u8,
    decreases gs.len(),
{
    if gs.len() > 0 {
        let rest = gs.drop_first();
        assert(forall|i: int| 0 <= i < rest.len() ==> is_valid_group(#[trigger] rest[i]));
        lemma_group_bytes_all_valid(rest);
        assert(group_bytes(gs) == seq![group_value(gs[0]) as u8] + group_bytes(rest));
        assert forall|i: int| 0 <= i < gs.len() implies #[trigger] group_bytes(gs)[i]
            == group_value(gs[i]) as u8 by {
            if i > 0 {
                assert(group_bytes(gs)[i] == group_bytes(rest)[i - 1]);
                assert(rest[i - 1] == gs[i]);
            }
        }
    }
}

/// A six-group MAC string whose groups are all valid hexadecimal bytes
/// decodes to exactly those six values, in order — so `parse` accepts it
/// and returns the groups' bytes unchanged.
pub proof fn lemma_six_valid_groups_decode_in_order(s: Seq<char>)
    requires
        hex_groups(s).len() == 6,
        forall|i: int| 0 <= i < 6 ==> is_valid_group(#[trigger] hex_groups(s)[i]),
    ensures
        decoded_bytes(s).len() == 6,
        forall|i: int| 0 <= i < 6 ==> #[trigger] decoded_bytes(s)[i] == group_value(
            hex_groups(s)[i],
        ) as u8,
{
    lemma_group_bytes_all_valid(hex_groups(s));
}

/// The numeric value of one hexadecimal digit, or nothing for any other
/// character.
fn hex_digit_val(c: char) -> (r: Option<u8>)
    ensures
        r is Some <==> is_hex_digit(c),
        r is Some ==> r->0 < 16 && r->0 as nat == hex_digit_value(c),
{
    let v = c as u32;
    if ('0' as u32) <= v && v <= ('9' as u32) {
        Some((v - ('0' as u32)) as u8)
    } else if ('A' as u32) <= v && v <= ('F' as u32) {
        Some((v - ('A' as u32) + 10) as u8)
    } else if ('a' as u32) <= v && v <= ('f' as u32) {
        Some((v - ('a' as u32) + 10) as u8)
    } else {
        None
    }
}

/// Parse a colon- or hyphen-delimited MAC string. Groups that are not
/// valid hexadecimal bytes are silently dropped; the parse succeeds
/// exactly when six bytes remain, and those six, in order, form the
/// address.
pub fn parse(mac: &str) -> (r: Result<HardwareAddress, ParseError>)
    ensures
        decoded_bytes(mac@).len() == 6 ==> r is Ok && r->Ok_0.wf() && r->Ok_0@ == decoded_bytes(
            mac@,
        ),
        decoded_bytes(mac@).len() != 6 ==> r == Err::<HardwareAddress, ParseError>(
            ParseError::InvalidAddress,
        ),
{
    let ghost s: Seq<char> = mac@;
    let n = mac.unicode_len();
    let mut bytes: Vec<u8> = Vec::new();
    let mut i: usize = 0;
    let ghost mut cur: Seq<char> = Seq::<char>::empty();
    let mut cur_ok: bool = true;
    let mut cur_nonempty: bool = false;
    let mut cur_val: u8 = 0;
    proof {
        assert(s.skip(0) =~= s);
        assert(Seq::<u8>::empty() + group_bytes(split_rec(s, cur)) =~= group_bytes(
            split_rec(s, cur),
        ));
    }
    while i < n
        invariant
            n as nat == s.len(),
            s == mac@,
            i <= n,
            bytes@ + group_bytes(split_rec(s.skip(i as int), cur)) == decoded_bytes(s),
            cur_ok <==> ((forall|j: int| 0 <= j < cur.len() ==> is_hex_digit(#[trigger] cur[j]))
                && group_value(cur) < 256),
            cur_ok ==> cur_val as nat == group_value(cur),
            cur_nonempty <==> cur.len() > 0,
        decreases n - i,
    {
        let c = mac.get_char(i);
        proof {
            let sk = s.skip(i as int);
            assert(sk.len() > 0 && sk[0] == s[i as int]);
            assert(sk.drop_first() =~= s.skip(i as int + 1));
        }
        if c == ':' || c == '-' {
            proof {
                let rest = split_rec(s.skip(i as int + 1), Seq::<char>::empty());
                assert(split_rec(s.skip(i as int), cur) == seq![cur] + rest);
                assert((seq![cur] + rest)[0] == cur);
                assert((seq![cur] + rest).drop_first() =~= rest);
                assert(group_bytes(seq![cur] + rest) == (if is_valid_group(cur) {
                    seq![group_value(cur) as u8]
                } else {
                    Seq::<u8>::empty()
                }) + group_bytes(rest));
            }
            if cur_ok && cur_nonempty {
                let ghost bytes_before = bytes@;
                bytes.push(cur_val);
                proof {
                    assert(bytes@ =~= bytes_before + seq![group_value(cur) as u8]);
                }
            } else {
                proof {
                    assert(bytes@ + Seq::<u8>::empty() =~= bytes@);
                }
            }
            cur_ok = true;
            cur_nonempty = false;
            cur_val = 0;
            proof {
                cur = Seq::<char>::empty();
            }
        } else {
            proof {
                assert(split_rec(s.skip(i as int), cur) == split_rec(
                    s.skip(i as int + 1),
                    cur.push(c),
                ));
                assert((cur.push(c)).drop_last() =~= cur);
                assert((cur.push(c)).last() == c);
                assert(group_value(cur.push(c)) == group_value(cur) * 16 + hex_digit_value(c));
            }
            let d = hex_digit_val(c);
            let ghost old_cur = cur;
            let ghost old_ok = cur_ok;
            proof {
                cur = cur.push(c);
            }
            match d {
                Some(dv) => {
                    if cur_ok && cur_val < 16 {
                        cur_val = cur_val * 16 + dv;
                    } else {
                        proof {
                            if old_ok {
                                // the value outgrew a byte and can only grow further
                                assert(group_value(cur) >= 256);
                            } else {
                                // the group was already spoiled: either a stray
                                // character, which stays, or a value already too
                                // large, which only grows
                                if forall|j: int|
                                    0 <= j < old_cur.len() ==> is_hex_digit(#[trigger] old_cur[j]) {
                                    assert(group_value(old_cur) >= 256);
                                    assert(group_value(cur) >= group_value(old_cur));
                                } else {
                                    let j = choose|j: int|
                                        0 <= j < old_cur.len() && !is_hex_digit(old_cur[j]);
                                    assert(cur[j] == old_cur[j]);
                                    assert(!is_hex_digit(cur[j]));
                                }
                            }
                        }
                        cur_ok = false;
                    }
                },
                None => {
                    proof {
                        assert(cur.last() == c && !is_hex_digit(c));
                    }
                    cur_ok = false;
                },
            }
            cur_nonempty = true;
        }
        i = i + 1;
    }
    proof {
        assert(s.skip(n as int) =~= Seq::<char>::empty());
        assert(split_rec(Seq::<char>::empty(), cur) == seq![cur]);
        assert(seq![cur][0] == cur);
        assert(seq![cur].drop_first() =~= Seq::<Seq<char>>::empty());
        assert(group_bytes(seq![cur]) == (if is_valid_group(cur) {
            seq![group_value(cur) as u8]
        } else {
            Seq::<u8>::empty()
        }) + group_bytes(Seq::<Seq<char>>::empty()));
    }
    if cur_ok && cur_nonempty {
        let ghost bytes_before = bytes@;
        bytes.push(cur_val);
        proof {
            assert(bytes@ =~= bytes_before + (seq![group_value(cur) as u8]
                + Seq::<u8>::empty()));
        }
    } else {
        proof {
            assert(bytes@ + (Seq::<u8>::empty() + Seq::<u8>::empty()) =~= bytes@);
        }
    }
    if bytes.len() == 6 {
        Ok(HardwareAddress { octets: bytes })
    } else {
        Err(ParseError::InvalidAddress)
    }
}

} // verus!
