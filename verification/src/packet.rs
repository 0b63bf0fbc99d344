use vstd::prelude::*;
use crate::codec::{decoded_bytes, parse, HardwareAddress, ParseError};

verus! {

/// Length of a magic packet: six synchronization bytes followed by sixteen
/// copies of the six-byte hardware address.
pub const MAGIC_PACKET_LEN: usize = 102;

/// The conventional Wake-on-LAN destination port (the discard port); the
/// transport sends the packet to `<target ip>:9`.
pub const WAKE_ON_LAN_PORT: u16 = 9;

/// `addr` laid end to end `n` times.
pub open spec fn repeated(addr: Seq<u8>, n: nat) -> Seq<u8>
    decreases n,
{
    if n == 0 {
        Seq::<u8>::empty()
    } else {
        repeated(addr, (n - 1) as nat) + addr
    }
}

/// The bytes of the magic packet for `addr`: six `0xFF` synchronization
/// bytes, then the address sixteen times, nothing else.
pub open spec fn magic_packet_bytes(addr: Seq<u8>) -> Seq<u8> {
    Seq::new(6, |i: int| 0xffu8) + repeated(addr, 16)
}

/// A six-byte sequence repeated `n` times is `6 * n` bytes long.
pub proof fn lemma_repeated_six_len(addr: Seq<u8>, n: nat)
    requires
        addr.len() == 6,
    ensures
        repeated(addr, n).len() == 6 * n,
    decreases n,
{
    if n > 0 {
        lemma_repeated_six_len(addr, (n - 1) as nat);
    }
}

/// Within `n` repetitions of a six-byte sequence, byte `6k + j` is byte `j`
/// of the sequence.
pub proof fn lemma_repeated_six_index(addr: Seq<u8>, n: nat, k: nat, j: nat)
    requires
        addr.len() == 6,
        k < n,
        j < 6,
    ensures
        repeated(addr, n)[6 * (k as int) + (j as int)] == addr[j as int],
    decreases n,
{
    lemma_repeated_six_len(addr, (n - 1) as nat);
    if k + 1 < n {
        lemma_repeated_six_index(addr, (n - 1) as nat, k, j);
    }
}

/// The first six bytes of a magic packet, and only they, are the `0xFF`
/// synchronization prefix; the packet is 102 bytes in all.
pub proof fn lemma_magic_packet_sync(addr: Seq<u8>, i: int)
    requires
        addr.len() == 6,
        0 <= i < 6,
    ensures
        magic_packet_bytes(addr).len() == 102,
        magic_packet_bytes(addr)[i] == 0xff,
{
    lemma_repeated_six_len(addr, 16);
}

/// Bytes `6 + 6k` through `11 + 6k` of a magic packet, for every `k` below
/// sixteen, are the hardware address itself.
pub proof fn lemma_magic_packet_repeats(addr: Seq<u8>, k: int, j: int)
    requires
        addr.len() == 6,
        0 <= k < 16,
        0 <= j < 6,
    ensures
        magic_packet_bytes(addr)[6 + 6 * k + j] == addr[j],
{
    lemma_repeated_six_len(addr, 16);
    lemma_repeated_six_index(addr, 16, k as nat, j as nat);
}

/// Packet construction is a pure function of the address: two packets built
/// from the same address are byte-identical.
pub proof fn lemma_build_deterministic(addr: Seq<u8>, p1: Seq<u8>, p2: Seq<u8>)
    requires
        p1 == magic_packet_bytes(addr),
        p2 == magic_packet_bytes(addr),
    ensures
        p1 == p2,
{
}

/// Assemble the magic packet for a validated hardware address. Cannot
/// fail: parsing is the only place a malformed address is caught, and it
/// hands over exactly six bytes.
pub fn build(addr: &HardwareAddress) -> (p: Vec<u8>)
    requires
        addr.wf(),
    ensures
        p@ == magic_packet_bytes(addr@),
        p@.len() == MAGIC_PACKET_LEN,
{
    let mut p: Vec<u8> = Vec::new();
    let mut i: usize = 0;
    while i < 6
        invariant
            i <= 6,
            p@.len() == i,
            forall|t: int| 0 <= t < i ==> p@[t] == 0xff,
        decreases 6 - i,
    {
        p.push(0xff);
        i = i + 1;
    }
    let mut k: usize = 0;
    while k < 16
        invariant
            addr.wf(),
            k <= 16,
            p@.len() == 6 + 6 * (k as int),
            forall|t: int| 0 <= t < 6 ==> p@[t] == 0xff,
            p@.skip(6) == repeated(addr@, k as nat),
        decreases 16 - k,
    {
        let ghost p_before = p@;
        let mut j: usize = 0;
        while j < 6
            invariant
                addr.wf(),
                j <= 6,
                p@ == p_before + addr@.subrange(0, j as int),
            decreases 6 - j,
        {
            let b = addr.octets[j];
            p.push(b);
            proof {
                assert(p@ =~= p_before + addr@.subrange(0, j as int + 1));
            }
            j = j + 1;
        }
        proof {
            assert(p@.skip(6) =~= p_before.skip(6) + addr@);
            assert(addr@.subrange(0, 6) =~= addr@);
        }
        k = k + 1;
    }
    proof {
        lemma_repeated_six_len(addr@, 16);
        assert(p@ =~= magic_packet_bytes(addr@)) by {
            assert(p@.len() == 102);
            assert(magic_packet_bytes(addr@).len() == 102);
            assert forall|t: int| 0 <= t < 102 implies p@[t] == magic_packet_bytes(addr@)[t] by {
                if t >= 6 {
                    assert(p@.skip(6)[t - 6] == p@[t]);
                }
            }
        }
    }
    p
}

/// The whole computation behind one send: parse the configured MAC string
/// and, when it holds exactly six valid hexadecimal groups, assemble the
/// magic packet for the decoded address; reject it otherwise. The caller
/// only has the datagram left to hand to the network.
pub fn wake_payload(mac: &str) -> (r: Result<Vec<u8>, ParseError>)
    ensures
        decoded_bytes(mac@).len() == 6 ==> r is Ok && r->Ok_0@ == magic_packet_bytes(
            decoded_bytes(mac@),
        ) && r->Ok_0@.len() == MAGIC_PACKET_LEN,
        decoded_bytes(mac@).len() != 6 ==> r == Err::<Vec<u8>, ParseError>(
            ParseError::InvalidAddress,
        ),
{
    match parse(mac) {
        Ok(addr) => Ok(build(&addr)),
        Err(e) => Err(e),
    }
}

} // verus!
