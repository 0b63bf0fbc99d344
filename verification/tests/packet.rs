use magic_packet::codec::{parse, ParseError};
use magic_packet::packet::{build, wake_payload, MAGIC_PACKET_LEN, WAKE_ON_LAN_PORT};

#[test]
fn packet_is_102_bytes_with_sync_prefix_and_sixteen_repeats() {
    let addr = parse("AA:BB:CC:DD:EE:FF").unwrap();
    let packet = build(&addr);
    assert_eq!(packet.len(), MAGIC_PACKET_LEN);
    assert_eq!(packet.len(), 102);
    for i in 0..6 {
        assert_eq!(packet[i], 0xFF);
    }
    for k in 0..16 {
        assert_eq!(&packet[6 + 6 * k..12 + 6 * k], &[0xAA, 0xBB, 0xCC, 0xDD, 0xEE, 0xFF]);
    }
}

#[test]
fn packet_starts_with_expected_bytes() {
    let addr = parse("AA:BB:CC:DD:EE:FF").unwrap();
    let packet = build(&addr);
    let expected_start = [
        0xFF, 0xFF, 0xFF, 0xFF, 0xFF, 0xFF, 0xAA, 0xBB, 0xCC, 0xDD, 0xEE, 0xFF, 0xAA, 0xBB, 0xCC,
        0xDD, 0xEE, 0xFF,
    ];
    assert_eq!(&packet[..18], &expected_start);
}

#[test]
fn build_is_idempotent() {
    let addr = parse("01-23-45-67-89-AB").unwrap();
    let first = build(&addr);
    let second = build(&addr);
    assert_eq!(first, second);
}

#[test]
fn hyphen_input_builds_identical_packet() {
    let colon = wake_payload("AA:BB:CC:DD:EE:FF").unwrap();
    let hyphen = wake_payload("AA-BB-CC-DD-EE-FF").unwrap();
    assert_eq!(colon, hyphen);
}

#[test]
fn wake_payload_of_valid_address() {
    let payload = wake_payload("00:11:22:33:44:55").unwrap();
    assert_eq!(payload.len(), 102);
    assert_eq!(&payload[..6], &[0xFF; 6]);
    for k in 0..16 {
        assert_eq!(&payload[6 + 6 * k..12 + 6 * k], &[0x00, 0x11, 0x22, 0x33, 0x44, 0x55]);
    }
}

#[test]
fn wake_payload_of_unconfigured_mac_fails() {
    assert_eq!(wake_payload(""), Err(ParseError::InvalidAddress));
}

#[test]
fn wake_on_lan_port_is_the_discard_port() {
    assert_eq!(WAKE_ON_LAN_PORT, 9);
}
