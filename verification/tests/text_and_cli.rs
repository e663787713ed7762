use mcp_srv_korad_kd3005p::cli::parse_lulu_address;
use mcp_srv_korad_kd3005p::cli::Args;
use mcp_srv_korad_kd3005p::text::join;
use mcp_srv_korad_kd3005p::text::parse_u16;
use mcp_srv_korad_kd3005p::text::trimmed_chars;
use mcp_srv_korad_kd3005p::text::usize_to_string;
use mcp_srv_korad_kd3005p::types::OnOffValue;

#[test]
fn lulu_address_with_host_and_port() {
    assert_eq!(parse_lulu_address("broker.local:1884"), ("broker.local".to_string(), 1884));
}

#[test]
fn lulu_address_without_host_uses_default_host() {
    assert_eq!(parse_lulu_address(":2000"), ("127.0.0.1".to_string(), 2000));
}

#[test]
fn lulu_address_without_port_uses_default_port() {
    assert_eq!(parse_lulu_address("broker:"), ("broker".to_string(), 1883));
}

#[test]
fn lulu_address_with_bad_port_uses_default_port() {
    assert_eq!(parse_lulu_address("broker:http"), ("broker".to_string(), 1883));
    assert_eq!(parse_lulu_address("broker:65536"), ("broker".to_string(), 1883));
    assert_eq!(parse_lulu_address("broker:-1"), ("broker".to_string(), 1883));
}

#[test]
fn lulu_address_without_colon_is_all_host() {
    assert_eq!(parse_lulu_address("broker"), ("broker".to_string(), 1883));
    assert_eq!(parse_lulu_address(""), ("127.0.0.1".to_string(), 1883));
}

#[test]
fn lulu_address_splits_at_last_colon() {
    assert_eq!(parse_lulu_address("::1:8883"), ("::1".to_string(), 8883));
    assert_eq!(parse_lulu_address(":"), ("127.0.0.1".to_string(), 1883));
}

#[test]
fn lulu_address_round_trip() {
    for port in [0u16, 7, 1883, 65535] {
        let address = format!("mqtt.example:{}", port);
        assert_eq!(parse_lulu_address(&address), ("mqtt.example".to_string(), port));
    }
}

#[test]
fn parse_u16_follows_std() {
    for s in ["0", "65535", "65536", "+42", "+", "", "-3", "007", "12a", "99999999999", "٣"] {
        assert_eq!(parse_u16(s), s.parse::<u16>().ok(), "input {:?}", s);
    }
}

#[test]
fn usize_rendering() {
    assert_eq!(usize_to_string(0), "0");
    assert_eq!(usize_to_string(9), "9");
    assert_eq!(usize_to_string(10), "10");
    assert_eq!(usize_to_string(1234567), "1234567");
    assert_eq!(usize_to_string(usize::MAX), usize::MAX.to_string());
}

#[test]
fn join_with_separator() {
    let parts = vec!["a".to_string(), "bc".to_string(), "d".to_string()];
    assert_eq!(join(&parts, ", "), "a, bc, d");
    assert_eq!(join(&vec!["x".to_string()], ", "), "x");
    assert_eq!(join(&Vec::new(), ", "), "");
}

#[test]
fn trimming_follows_std() {
    for s in ["  KORAD  \r\n", "\u{3000}x\u{85}", "", "   ", "a b"] {
        let expected: Vec<char> = s.trim().chars().collect();
        assert_eq!(trimmed_chars(s), expected);
    }
}

#[test]
fn on_off_parsing_ignores_case() {
    assert_eq!(OnOffValue::from_str_lossy("on"), Some(OnOffValue::On));
    assert_eq!(OnOffValue::from_str_lossy("ON"), Some(OnOffValue::On));
    assert_eq!(OnOffValue::from_str_lossy("oN"), Some(OnOffValue::On));
    assert_eq!(OnOffValue::from_str_lossy("off"), Some(OnOffValue::Off));
    assert_eq!(OnOffValue::from_str_lossy("OfF"), Some(OnOffValue::Off));
    assert_eq!(OnOffValue::from_str_lossy(" on"), None);
    assert_eq!(OnOffValue::from_str_lossy("onn"), None);
    assert_eq!(OnOffValue::from_str_lossy(""), None);
}

#[test]
fn on_off_text_round_trip() {
    for v in [OnOffValue::On, OnOffValue::Off] {
        assert_eq!(OnOffValue::from_str_lossy(v.as_str()), Some(v));
    }
    assert_eq!(OnOffValue::On.to_string(), "on");
    assert_eq!(OnOffValue::Off.to_string(), "off");
    assert_eq!(OnOffValue::from_enabled(true), OnOffValue::On);
    assert_eq!(OnOffValue::from_enabled(false), OnOffValue::Off);
}

#[test]
fn args_hold_the_broker() {
    let args = Args { lulu: Some("127.0.0.1:1883".to_string()) };
    assert_eq!(args.lulu.as_deref(), Some("127.0.0.1:1883"));
}
