use valytics::config::{parse_u16, Config, DEFAULT_PORT};

#[test]
fn parse_u16_as_std() {
    for s in ["3001", "+80", "0080", "65535", "65536", "", "+", "-1", "-0", " 80", "80 ", "8a", "99999999999", "0", "+0", "٣"] {
        assert_eq!(parse_u16(s), s.parse::<u16>().ok(), "input {:?}", s);
    }
    assert_eq!(parse_u16("8080"), Some(8080));
    assert_eq!(parse_u16("65536"), None);
}

#[test]
fn port_defaults_when_unset() {
    let c = Config::from_settings(None, None, None);
    assert_eq!(c.port, 3001);
    assert_eq!(DEFAULT_PORT, 3001);
    assert_eq!(c.fmp_api_key, None);
    assert_eq!(c.redis_url, None);
}

#[test]
fn port_from_setting() {
    assert_eq!(Config::from_settings(None, None, Some("8080".to_string())).port, 8080);
    assert_eq!(Config::from_settings(None, None, Some("not-a-port".to_string())).port, 3001);
    assert_eq!(Config::from_settings(None, None, Some("70000".to_string())).port, 3001);
}

#[test]
fn keys_are_kept() {
    let c = Config::from_settings(
        Some("demo-key".to_string()),
        Some("redis://localhost:6379".to_string()),
        Some("3002".to_string()),
    );
    assert_eq!(c.fmp_api_key.as_deref(), Some("demo-key"));
    assert_eq!(c.redis_url.as_deref(), Some("redis://localhost:6379"));
    assert_eq!(c.port, 3002);
}
