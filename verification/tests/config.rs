use magic_packet::codec::ParseError;
use magic_packet::config::AppConfig;
use magic_packet::packet::wake_payload;

#[test]
fn default_config_is_empty() {
    let cfg = AppConfig::default();
    assert_eq!(cfg.mac, "");
    assert_eq!(cfg.ip, "");
}

#[test]
fn send_before_first_configuration_fails_deterministically() {
    // A never-configured MAC parses to zero valid groups, so no packet is
    // ever built for it.
    let cfg = AppConfig::default();
    assert_eq!(wake_payload(&cfg.mac), Err(ParseError::InvalidAddress));
}
