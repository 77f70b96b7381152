use vk_gateway::config::{keep_origins, parse_cors_origins, parse_port, parse_seconds};

#[test]
fn cors_origins_are_trimmed_and_filtered() {
    assert_eq!(
        parse_cors_origins(" https://a.example , ,https://b.example,"),
        Some(vec!["https://a.example".to_string(), "https://b.example".to_string()])
    );
    assert_eq!(parse_cors_origins("\thttp://x\n"), Some(vec!["http://x".to_string()]));
    assert_eq!(parse_cors_origins(""), None);
    assert_eq!(parse_cors_origins(" , ,"), None);
}

#[test]
fn keep_origins_drops_empty_pieces() {
    assert_eq!(keep_origins(vec![String::new(), "a".to_string(), String::new()]), Some(vec!["a".to_string()]));
    assert_eq!(keep_origins(vec![String::new()]), None);
    assert_eq!(keep_origins(vec![]), None);
}

#[test]
fn port_numbers() {
    assert_eq!(parse_port("3000"), Some(3000));
    assert_eq!(parse_port("+80"), Some(80));
    assert_eq!(parse_port("0"), Some(0));
    assert_eq!(parse_port("65535"), Some(65535));
    assert_eq!(parse_port("65536"), None);
    assert_eq!(parse_port("99999999999999999999999"), None);
    assert_eq!(parse_port(""), None);
    assert_eq!(parse_port("+"), None);
    assert_eq!(parse_port("-1"), None);
    assert_eq!(parse_port("80a"), None);
    assert_eq!(parse_port(" 80"), None);
}

#[test]
fn second_counts() {
    assert_eq!(parse_seconds("30"), Some(30));
    assert_eq!(parse_seconds("18446744073709551615"), Some(u64::MAX));
    assert_eq!(parse_seconds("18446744073709551616"), None);
    assert_eq!(parse_seconds("x"), None);
}

#[test]
fn cors_origins_trim_unicode_white_space() {
    assert_eq!(parse_cors_origins("\u{3000}https://a\u{a0}, \u{2003}"), Some(vec!["https://a".to_string()]));
    assert_eq!(parse_cors_origins("\u{85},\u{200b}x"), Some(vec!["\u{200b}x".to_string()]));
}
