use infino_sink::event::Number;
use infino_sink::json::{
    append_bytes, check_number_literal, parse_decimal, write_decimal, write_escaped, write_quoted,
};

fn escaped(s: &[u8]) -> Vec<u8> {
    let mut out = Vec::new();
    write_escaped(&mut out, s);
    out
}

#[test]
fn plain_text_is_unchanged() {
    assert_eq!(escaped(b"hello world"), b"hello world".to_vec());
    assert_eq!(escaped(b""), Vec::<u8>::new());
    assert_eq!(escaped("grüße".as_bytes()), "grüße".as_bytes().to_vec());
}

#[test]
fn quotes_and_backslashes_are_escaped() {
    assert_eq!(escaped(b"a\"b"), b"a\\\"b".to_vec());
    assert_eq!(escaped(b"a\\b"), b"a\\\\b".to_vec());
}

#[test]
fn control_bytes_become_unicode_escapes() {
    assert_eq!(escaped(b"a\nb"), b"a\\u000ab".to_vec());
    assert_eq!(escaped(b"\t"), b"\\u0009".to_vec());
    assert_eq!(escaped(&[0x1f]), b"\\u001f".to_vec());
    assert_eq!(escaped(&[0x00]), b"\\u0000".to_vec());
    assert_eq!(escaped(&[0x20]), b" ".to_vec());
}

#[test]
fn escaped_text_has_no_control_byte() {
    let all: Vec<u8> = (0u8..=255).collect();
    assert!(escaped(&all).iter().all(|b| *b >= 0x20));
}

#[test]
fn quoted_appends_to_what_is_there() {
    let mut out = b"x=".to_vec();
    write_quoted(&mut out, b"a\"b");
    assert_eq!(out, b"x=\"a\\\"b\"".to_vec());
    append_bytes(&mut out, b"!!");
    assert_eq!(out, b"x=\"a\\\"b\"!!".to_vec());
}

#[test]
fn decimal_rendering() {
    for (n, text) in [
        (0u64, "0"),
        (7, "7"),
        (10, "10"),
        (1700000000, "1700000000"),
        (u64::MAX, "18446744073709551615"),
    ] {
        let mut out = Vec::new();
        write_decimal(&mut out, n);
        assert_eq!(out, text.as_bytes().to_vec());
        assert_eq!(parse_decimal(text.as_bytes()), Some(n));
    }
}

#[test]
fn parse_decimal_refuses_what_is_not_plain() {
    assert_eq!(parse_decimal(b""), None);
    assert_eq!(parse_decimal(b"01"), None);
    assert_eq!(parse_decimal(b"-1"), None);
    assert_eq!(parse_decimal(b"+1"), None);
    assert_eq!(parse_decimal(b"1.0"), None);
    assert_eq!(parse_decimal(b"12a"), None);
    assert_eq!(parse_decimal(b" 1"), None);
    assert_eq!(parse_decimal(b"18446744073709551616"), None);
    assert_eq!(parse_decimal(b"99999999999999999999999"), None);
    assert_eq!(parse_decimal(b"0"), Some(0));
}

#[test]
fn number_literals() {
    for ok in ["0", "-0", "7", "42.0", "-12.5", "1e10", "1E+3", "2.5e-7", "10", "0.001"] {
        assert!(check_number_literal(ok.as_bytes()), "{}", ok);
        assert_eq!(Number::parse(ok).unwrap().as_bytes(), &ok.as_bytes().to_vec());
    }
    for bad in [
        "", "-", "+1", "01", "1.", ".5", "1e", "1e+", "NaN", "inf", "-inf", "1 ", " 1", "1.2.3",
        "0x10", "1e1.5", "--1",
    ] {
        assert!(!check_number_literal(bad.as_bytes()), "{}", bad);
        assert!(Number::parse(bad).is_none(), "{}", bad);
    }
}

#[test]
fn number_from_integer() {
    assert_eq!(Number::from_u64(0).as_bytes(), &b"0".to_vec());
    assert_eq!(Number::from_u64(42).as_bytes(), &b"42".to_vec());
    assert_eq!(Number::from_u64(42), Number::parse("42").unwrap());
    assert_eq!(Number::from_u64(42).clone(), Number::from_u64(42));
}
