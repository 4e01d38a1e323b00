use ohlcv_pipeline::num::{is_float_literal, parse_i64};

#[test]
fn parse_i64_accepts_plain_and_signed() {
    assert_eq!(parse_i64("0"), Some(0));
    assert_eq!(parse_i64("500"), Some(500));
    assert_eq!(parse_i64("+5"), Some(5));
    assert_eq!(parse_i64("-17"), Some(-17));
    assert_eq!(parse_i64("1000000"), Some(1_000_000));
    assert_eq!(parse_i64("007"), Some(7));
}

#[test]
fn parse_i64_bounds() {
    assert_eq!(parse_i64("9223372036854775807"), Some(i64::MAX));
    assert_eq!(parse_i64("-9223372036854775808"), Some(i64::MIN));
    assert_eq!(parse_i64("9223372036854775808"), None);
    assert_eq!(parse_i64("-9223372036854775809"), None);
    assert_eq!(parse_i64("99999999999999999999999999"), None);
}

#[test]
fn parse_i64_rejects_malformed() {
    assert_eq!(parse_i64(""), None);
    assert_eq!(parse_i64("+"), None);
    assert_eq!(parse_i64("-"), None);
    assert_eq!(parse_i64(" 1"), None);
    assert_eq!(parse_i64("1 "), None);
    assert_eq!(parse_i64("1.5"), None);
    assert_eq!(parse_i64("12a"), None);
    assert_eq!(parse_i64("0x10"), None);
}

#[test]
fn parse_i64_agrees_with_std_parser() {
    let cases = [
        "0", "500", "+5", "-17", "007", "9223372036854775807", "-9223372036854775808",
        "9223372036854775808", "", "+", "-", " 1", "1 ", "1.5", "12a", "--3", "+-1",
    ];
    for s in cases {
        assert_eq!(parse_i64(s).is_some(), s.parse::<i64>().is_ok(), "case {:?}", s);
        if let Some(v) = parse_i64(s) {
            assert_eq!(v, s.parse::<i64>().unwrap(), "case {:?}", s);
        }
    }
}

#[test]
fn float_literal_accepts_decimal_forms() {
    for s in ["10.0", "150", ".5", "5.", "1e5", "2.5E-10", "+3.25", "-0.0", "5.e3", "151.25"] {
        assert!(is_float_literal(s), "case {:?}", s);
    }
}

#[test]
fn float_literal_accepts_special_words() {
    for s in ["inf", "-inf", "Infinity", "infinity", "NaN", "nan", "+nan", "-INF"] {
        assert!(is_float_literal(s), "case {:?}", s);
    }
}

#[test]
fn float_literal_rejects_malformed() {
    for s in ["", "+", "-", ".", "1e", "1e+", "--1", "1.2.3", " 1", "1 ", "abc", "0x1", "infi", "nana"] {
        assert!(!is_float_literal(s), "case {:?}", s);
    }
}

#[test]
fn float_literal_agrees_with_std_parser() {
    let cases = [
        "10.0", "150", ".5", "5.", "1e5", "2.5E-10", "+3.25", "-0.0", "5.e3", ".5e2", "1.e2",
        "inf", "-inf", "Infinity", "NaN", "+nan", "", "+", "-", ".", "e5", "1e", "1e+", "--1",
        "1.2.3", " 1", "1 ", "abc", "0x1", "infi", "infinityy", "nana", "1e999", "-1E-999",
    ];
    for s in cases {
        assert_eq!(is_float_literal(s), s.parse::<f64>().is_ok(), "case {:?}", s);
    }
}
