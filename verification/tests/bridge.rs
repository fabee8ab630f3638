use decimal_bridge::bridge::{
    construct_foreign, from_foreign, is_exact_machine_integer, render_canonical_string,
    to_foreign, ConversionError, ForeignDecimal,
};
use decimal_bridge::decimal::NativeDecimal;
use decimal_bridge::handle::{
    get_decimal_cls, ConstructorHandle, DecimalClassCache, ForeignRuntimeError,
};

fn handle() -> ConstructorHandle {
    ConstructorHandle { id: 1 }
}

fn digit_values(text: &str) -> Vec<u8> {
    text.bytes().map(|b| b - b'0').collect()
}

#[test]
fn test_nan() {
    let py_dec = ForeignDecimal::Nan;
    let roundtripped: Result<NativeDecimal, ConversionError> = from_foreign(&py_dec);
    assert!(roundtripped.is_err());
}

#[test]
fn test_infinity() {
    let py_dec = ForeignDecimal::Infinity { negative: false };
    let roundtripped: Result<NativeDecimal, ConversionError> = from_foreign(&py_dec);
    assert!(roundtripped.is_err());
}

#[test]
fn negative_infinity_is_rejected() {
    let py_dec = ForeignDecimal::Infinity { negative: true };
    assert!(from_foreign(&py_dec).is_err());
}

#[test]
fn rejection_carries_the_marker_text() {
    match from_foreign(&ForeignDecimal::Nan) {
        Err(ConversionError::InvalidDecimal { message }) => {
            assert_eq!(message, b"NaN".to_vec());
        }
        Ok(_) => panic!("NaN must not convert"),
    }
    match from_foreign(&ForeignDecimal::Infinity { negative: true }) {
        Err(ConversionError::InvalidDecimal { message }) => {
            assert_eq!(message, b"-Infinity".to_vec());
        }
        Ok(_) => panic!("-Infinity must not convert"),
    }
}

#[test]
fn convert_zero() {
    let rs_orig = NativeDecimal::zero();
    let big_dec = to_foreign(&handle(), &rs_orig);
    assert_eq!(render_canonical_string(&big_dec), b"0".to_vec());
    let py_result = from_foreign(&big_dec).unwrap();
    assert_eq!(rs_orig, py_result);
}

#[test]
fn convert_one() {
    let rs_orig = NativeDecimal::from_i64(1);
    let big_dec = to_foreign(&handle(), &rs_orig);
    assert_eq!(render_canonical_string(&big_dec), b"1".to_vec());
    let py_result = from_foreign(&big_dec).unwrap();
    assert_eq!(rs_orig, py_result);
}

#[test]
fn integer_fast_path_matches_from_i64() {
    for &i in &[0i64, 1, -1, 42, -42, 1_000_000, i64::MAX, i64::MIN] {
        let native = NativeDecimal::from_i64(i);
        let foreign = to_foreign(&handle(), &native);
        assert_eq!(is_exact_machine_integer(&foreign), Some(i));
        let back = from_foreign(&foreign).unwrap();
        assert_eq!(back, native);
    }
}

#[test]
fn fast_path_probe_declines_non_integers() {
    // Scale two: the value 1.00 is not taken as the machine integer one.
    let one_hundredths = ForeignDecimal::finite(false, digit_values("100"), 2).unwrap();
    assert_eq!(is_exact_machine_integer(&one_hundredths), None);
    // Just past the machine range on both sides.
    let above = ForeignDecimal::finite(false, digit_values("9223372036854775808"), 0).unwrap();
    assert_eq!(is_exact_machine_integer(&above), None);
    let min = ForeignDecimal::finite(true, digit_values("9223372036854775808"), 0).unwrap();
    assert_eq!(is_exact_machine_integer(&min), Some(i64::MIN));
    let below = ForeignDecimal::finite(true, digit_values("9223372036854775809"), 0).unwrap();
    assert_eq!(is_exact_machine_integer(&below), None);
    assert_eq!(is_exact_machine_integer(&ForeignDecimal::Nan), None);
}

#[test]
fn non_integer_values_still_convert() {
    let v = ForeignDecimal::finite(false, digit_values("100"), 2).unwrap();
    let n = from_foreign(&v).unwrap();
    assert!(!n.is_negative());
    assert_eq!(n.digit_values().clone(), digit_values("100"));
    assert_eq!(n.scale(), 2);
    assert_eq!(n.to_canonical_text(), b"1.00".to_vec());
}

#[test]
fn test_roundtrip() {
    // A 32-byte magnitude (the largest, 2^256 - 1) with a nonzero scale,
    // for both signs.
    let magnitude = "115792089237316195423570985008687907853269984665640564039457584007913129639935";
    for &negative in &[false, true] {
        for &scale in &[0i64, 5, 27] {
            let num = NativeDecimal::new(negative, digit_values(magnitude), scale).unwrap();
            let big_dec = to_foreign(&handle(), &num);
            let roundtripped = from_foreign(&big_dec).unwrap();
            assert_eq!(num, roundtripped);
        }
    }
}

#[test]
fn foreign_roundtrip_keeps_digits_sign_and_scale() {
    let cases: Vec<ForeignDecimal> = vec![
        ForeignDecimal::finite(false, digit_values("123"), 1).unwrap(),
        ForeignDecimal::finite(true, digit_values("123"), 1).unwrap(),
        ForeignDecimal::finite(false, digit_values("100"), 2).unwrap(),
        ForeignDecimal::finite(false, digit_values("5"), -2).unwrap(),
        ForeignDecimal::finite(true, digit_values("5"), 9).unwrap(),
        ForeignDecimal::finite(false, digit_values("0"), 3).unwrap(),
    ];
    for v in cases {
        let native = from_foreign(&v).unwrap();
        let back = to_foreign(&handle(), &native);
        assert_eq!(back, v);
    }
}

#[test]
fn arbitrary_precision_text_roundtrips() {
    let text = b"123456789012345678901234567890.123456789".to_vec();
    let big_dec = construct_foreign(&handle(), &text);
    // Far outside the machine-integer range: this is the textual slow path.
    assert_eq!(is_exact_machine_integer(&big_dec), None);
    let native = from_foreign(&big_dec).unwrap();
    assert_eq!(native.to_canonical_text(), text);
    assert_eq!(native.scale(), 9);
    assert_eq!(native.digit_values().len(), 39);
}

#[test]
fn constructor_handle_is_resolved_once() {
    let mut cache = DecimalClassCache::empty();
    assert_eq!(
        get_decimal_cls(&mut cache, None),
        Err(ForeignRuntimeError::ConstructorUnavailable)
    );
    assert_eq!(
        get_decimal_cls(&mut cache, Some(ConstructorHandle { id: 3 })),
        Ok(ConstructorHandle { id: 3 })
    );
    // The first successful resolution wins; later attempts change nothing.
    assert_eq!(
        get_decimal_cls(&mut cache, Some(ConstructorHandle { id: 9 })),
        Ok(ConstructorHandle { id: 3 })
    );
    assert_eq!(get_decimal_cls(&mut cache, None), Ok(ConstructorHandle { id: 3 }));
}

#[test]
fn nonfinite_markers_render_exactly() {
    assert_eq!(render_canonical_string(&ForeignDecimal::Nan), b"NaN".to_vec());
    assert_eq!(
        render_canonical_string(&ForeignDecimal::Infinity { negative: false }),
        b"Infinity".to_vec()
    );
    assert_eq!(
        render_canonical_string(&ForeignDecimal::Infinity { negative: true }),
        b"-Infinity".to_vec()
    );
}
