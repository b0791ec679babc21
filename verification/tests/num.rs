use app_bootstrap::num::{parse_decimal, Decimal};

fn dec(neg: bool, mantissa: u64, scale: u32) -> Decimal {
    Decimal { neg, mantissa, scale }
}

#[test]
fn parses_plain_decimals() {
    assert_eq!(parse_decimal(b"1.5"), Some(dec(false, 15, 1)));
    assert_eq!(parse_decimal(b"3.14"), Some(dec(false, 314, 2)));
    assert_eq!(parse_decimal(b"0.5"), Some(dec(false, 5, 1)));
    assert_eq!(parse_decimal(b"42"), Some(dec(false, 42, 0)));
}

#[test]
fn parses_negative_decimals() {
    assert_eq!(parse_decimal(b"-1.5"), Some(dec(true, 15, 1)));
    assert_eq!(parse_decimal(b"-7"), Some(dec(true, 7, 0)));
}

#[test]
fn rejects_malformed_decimals() {
    assert_eq!(parse_decimal(b""), None);
    assert_eq!(parse_decimal(b"-"), None);
    assert_eq!(parse_decimal(b"."), None);
    assert_eq!(parse_decimal(b"1."), None);
    assert_eq!(parse_decimal(b".5"), None);
    assert_eq!(parse_decimal(b"1.2.3"), None);
    assert_eq!(parse_decimal(b"1a"), None);
    assert_eq!(parse_decimal(b"not_a_number"), None);
}

#[test]
fn rejects_decimals_with_too_many_digits() {
    assert_eq!(parse_decimal(b"123456789012345678"), Some(dec(false, 123456789012345678, 0)));
    assert_eq!(parse_decimal(b"1234567890123456789"), None);
    assert_eq!(
        parse_decimal(b"1234567890.12345678"),
        Some(dec(false, 123456789012345678, 8))
    );
    assert_eq!(parse_decimal(b"1234567890.123456789"), None);
}

#[test]
fn renders_canonical_text() {
    assert_eq!(dec(false, 314, 2).render(), b"3.14".to_vec());
    assert_eq!(dec(false, 15, 1).render(), b"1.5".to_vec());
    assert_eq!(dec(false, 10, 1).render(), b"1.0".to_vec());
    assert_eq!(dec(false, 42, 0).render(), b"42.0".to_vec());
    assert_eq!(dec(true, 55, 1).render(), b"-5.5".to_vec());
    assert_eq!(dec(false, 5, 1).render(), b"0.5".to_vec());
}

#[test]
fn parse_then_render_round_trips() {
    for text in ["1.5", "3.14", "0.5", "-2.75", "10.01"] {
        let parsed = parse_decimal(text.as_bytes()).unwrap();
        assert_eq!(parsed.render(), text.as_bytes().to_vec());
    }
}
