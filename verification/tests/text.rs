use decimal_bridge::decimal::NativeDecimal;
use decimal_bridge::parse::{parse_decimal_text, ParseError};

fn digit_values(text: &str) -> Vec<u8> {
    text.bytes().map(|b| b - b'0').collect()
}

fn parse(text: &[u8]) -> Result<NativeDecimal, ParseError> {
    parse_decimal_text(&text.to_vec())
}

#[test]
fn parses_zero_and_one() {
    assert_eq!(parse(b"0").unwrap(), NativeDecimal::zero());
    assert_eq!(parse(b"1").unwrap(), NativeDecimal::from_i64(1));
}

#[test]
fn parses_plain_and_signed_integers() {
    assert_eq!(parse(b"42").unwrap(), NativeDecimal::from_i64(42));
    assert_eq!(parse(b"+42").unwrap(), NativeDecimal::from_i64(42));
    assert_eq!(parse(b"-42").unwrap(), NativeDecimal::from_i64(-42));
}

#[test]
fn parses_fractions_keeping_trailing_zeros() {
    let n = parse(b"12.340").unwrap();
    assert!(!n.is_negative());
    assert_eq!(n.digit_values().clone(), digit_values("12340"));
    assert_eq!(n.scale(), 3);
}

#[test]
fn parses_leading_zeros_away() {
    let n = parse(b"007").unwrap();
    assert_eq!(n, NativeDecimal::from_i64(7));
    let m = parse(b"0.05").unwrap();
    assert_eq!(m.digit_values().clone(), digit_values("5"));
    assert_eq!(m.scale(), 2);
}

#[test]
fn negative_zero_is_zero() {
    let n = parse(b"-0").unwrap();
    assert!(!n.is_negative());
    assert_eq!(n, NativeDecimal::zero());
    let m = parse(b"-0.00").unwrap();
    assert!(!m.is_negative());
    assert_eq!(m.scale(), 2);
}

#[test]
fn parses_exponents() {
    let n = parse(b"5e2").unwrap();
    assert_eq!(n.digit_values().clone(), digit_values("5"));
    assert_eq!(n.scale(), -2);
    assert_eq!(parse(b"5E+2").unwrap(), n);
    let m = parse(b"1.20e1").unwrap();
    assert_eq!(m.digit_values().clone(), digit_values("120"));
    assert_eq!(m.scale(), 1);
    let k = parse(b"7E-3").unwrap();
    assert_eq!(k.scale(), 3);
}

#[test]
fn rejects_text_outside_the_grammar() {
    for text in [
        &b""[..],
        b"abc",
        b"1.",
        b".5",
        b"1e",
        b"+",
        b"-",
        b"12a",
        b"1.2.3",
        b"1e2e3",
        b"1 ",
        b"NaN",
        b"Infinity",
        b"-Infinity",
    ] {
        assert_eq!(parse(text), Err(ParseError::InvalidSyntax), "{:?}", text);
    }
}

#[test]
fn rejects_scales_outside_the_native_range() {
    assert_eq!(
        parse(b"1e99999999999999999999999999"),
        Err(ParseError::ScaleOutOfRange)
    );
    assert_eq!(
        parse(b"1e-99999999999999999999999999"),
        Err(ParseError::ScaleOutOfRange)
    );
    assert_eq!(parse(b"1e9223372036854775809"), Err(ParseError::ScaleOutOfRange));
}

#[test]
fn accepts_extreme_scales_inside_the_native_range() {
    let n = parse(b"1e9223372036854775807").unwrap();
    assert_eq!(n.scale(), -i64::MAX);
    let m = parse(b"1e-9223372036854775800").unwrap();
    assert_eq!(m.scale(), 9223372036854775800);
}

#[test]
fn renders_each_canonical_shape() {
    let cases: Vec<(bool, &str, i64, &[u8])> = vec![
        (false, "5", -2, b"5E+2"),
        (false, "500", 0, b"500"),
        (false, "100", 2, b"1.00"),
        (false, "5", 9, b"5E-9"),
        (true, "123", 1, b"-12.3"),
        (false, "0", 2, b"0E-2"),
        (true, "123456789", 9, b"-123456789E-9"),
    ];
    for (negative, digits, scale, expected) in cases {
        let n = NativeDecimal::new(negative, digit_values(digits), scale).unwrap();
        assert_eq!(n.to_canonical_text(), expected.to_vec());
    }
}

#[test]
fn canonical_text_parses_back_to_the_same_value() {
    let cases: Vec<(bool, &str, i64)> = vec![
        (false, "5", -2),
        (true, "5", -2),
        (false, "500", 0),
        (false, "100", 2),
        (false, "5", 9),
        (true, "123", 1),
        (false, "0", 2),
        (false, "0", -3),
        (false, "123456789012345678901234567890123456789", 27),
    ];
    for (negative, digits, scale) in cases {
        let n = NativeDecimal::new(negative, digit_values(digits), scale).unwrap();
        let text = n.to_canonical_text();
        let back = parse_decimal_text(&text).unwrap();
        assert_eq!(back, n);
    }
}

#[test]
fn constructor_normalizes_and_validates() {
    // Leading zeros are dropped.
    let n = NativeDecimal::new(false, digit_values("00012"), 0).unwrap();
    assert_eq!(n, NativeDecimal::from_i64(12));
    // A negative zero is made non-negative.
    let z = NativeDecimal::new(true, digit_values("000"), 0).unwrap();
    assert_eq!(z, NativeDecimal::zero());
    // No digits at all mean zero.
    let e = NativeDecimal::new(false, Vec::new(), 0).unwrap();
    assert_eq!(e, NativeDecimal::zero());
    // An entry that is no digit value is rejected.
    assert!(NativeDecimal::new(false, vec![12u8], 0).is_none());
}

#[test]
fn equality_compares_sign_digits_and_scale() {
    let a = NativeDecimal::new(false, digit_values("100"), 2).unwrap();
    let b = NativeDecimal::new(false, digit_values("100"), 2).unwrap();
    let c = NativeDecimal::new(false, digit_values("1"), 0).unwrap();
    let d = NativeDecimal::new(true, digit_values("100"), 2).unwrap();
    assert_eq!(a, b);
    // 1.00 and 1 differ as representations: no renormalization happens.
    assert_ne!(a, c);
    assert_ne!(a, d);
}

#[test]
fn from_i64_covers_the_whole_range() {
    let max = NativeDecimal::from_i64(i64::MAX);
    assert_eq!(max.digit_values().clone(), digit_values("9223372036854775807"));
    assert_eq!(max.scale(), 0);
    assert!(!max.is_negative());
    let min = NativeDecimal::from_i64(i64::MIN);
    assert_eq!(min.digit_values().clone(), digit_values("9223372036854775808"));
    assert!(min.is_negative());
    assert_eq!(NativeDecimal::from_i64(0), NativeDecimal::zero());
}
