use boa_string::number::classify;
use boa_string::{JsString, NumericLiteral};

fn literal(text: &str) -> NumericLiteral {
    JsString::from(text).to_numeric_literal()
}

fn integer(text: &str) -> Option<u32> {
    match literal(text) {
        NumericLiteral::Integer(value) => Some(value),
        _ => None,
    }
}

fn decimal(text: &str) -> Option<String> {
    match literal(text) {
        NumericLiteral::Decimal(text) => Some(text),
        _ => None,
    }
}

fn is_nan(text: &str) -> bool {
    matches!(literal(text), NumericLiteral::NotANumber)
}

#[test]
fn white_space_is_zero() {
    assert!(matches!(literal(""), NumericLiteral::Zero));
    assert!(matches!(literal(" \n\u{FEFF}\u{3000}"), NumericLiteral::Zero));
    assert!(matches!(classify("\t"), NumericLiteral::Zero));
}

#[test]
fn infinities() {
    assert!(matches!(literal("Infinity"), NumericLiteral::Infinity));
    assert!(matches!(literal(" +Infinity "), NumericLiteral::Infinity));
    assert!(matches!(literal("-Infinity"), NumericLiteral::NegativeInfinity));
    assert!(is_nan("infinity"));
    assert!(is_nan("INFINITY"));
    assert!(is_nan("inf"));
    assert!(is_nan("Infinityx"));
    assert!(is_nan("-inf"));
    assert!(is_nan("+inf"));
    assert!(is_nan("-infinity"));
    assert!(is_nan(" +INFINITY "));
    assert!(is_nan("-Infinityx"));
    assert!(is_nan("+i"));
}

#[test]
fn integers_by_base() {
    assert_eq!(integer("0b101"), Some(5));
    assert_eq!(integer("0B101"), Some(5));
    assert_eq!(integer("0o17"), Some(15));
    assert_eq!(integer("0O17"), Some(15));
    assert_eq!(integer("0x1f"), Some(31));
    assert_eq!(integer("0XAbC"), Some(0xABC));
    assert_eq!(integer(" 0x00000000000001\n"), Some(1));
    assert_eq!(integer("0xFFFFFFFF"), Some(u32::MAX));
}

#[test]
fn malformed_integers() {
    assert!(is_nan("0x"));
    assert!(is_nan("0b"));
    assert!(is_nan("0b102"));
    assert!(is_nan("0o8"));
    assert!(is_nan("0xG"));
    assert!(is_nan("0x+5"));
    assert!(is_nan("0b+1"));
    assert!(is_nan("0o+7"));
    assert!(is_nan("0x-1"));
    assert!(is_nan("0x+"));
    assert!(is_nan("0x 1"));
    assert!(is_nan("0x+100000000"));
    assert!(is_nan("0x1\u{1F600}"));
}

#[test]
fn integers_too_large_for_a_word() {
    match literal("0x10000000F") {
        NumericLiteral::Digits { base, digits } => {
            assert_eq!(base, 16);
            assert_eq!(digits, [1, 0, 0, 0, 0, 0, 0, 0, 15]);
        }
        other => panic!("{other:?}"),
    }
    match literal("0o7777777777777") {
        NumericLiteral::Digits { base, digits } => {
            assert_eq!(base, 8);
            assert_eq!(digits, [7; 13]);
        }
        other => panic!("{other:?}"),
    }
}

#[test]
fn decimal_texts() {
    assert_eq!(decimal("12.5"), Some("12.5".to_string()));
    assert_eq!(decimal(" \t-1e3\n"), Some("-1e3".to_string()));
    assert_eq!(decimal("0"), Some("0".to_string()));
    assert_eq!(decimal("00x1"), Some("00x1".to_string()));
    assert_eq!(decimal("-"), Some("-".to_string()));
    assert_eq!(decimal("--i"), Some("--i".to_string()));
    assert_eq!(decimal("-0x1"), Some("-0x1".to_string()));
    assert_eq!(decimal("caf\u{E9}"), Some("caf\u{E9}".to_string()));
}

#[test]
fn surrogates_spell_no_number() {
    let string = JsString::from(&[0x31, 0xD800]);
    assert!(matches!(
        string.to_numeric_literal(),
        NumericLiteral::NotANumber
    ));
}

#[test]
fn trimming_changes_no_number() {
    for text in ["  0x10\n", " 1.5", "Infinity ", "\u{2003}", " x y "] {
        let string = JsString::from(text);
        let trimmed = JsString::from(string.trim());
        assert_eq!(
            format!("{:?}", string.to_numeric_literal()),
            format!("{:?}", trimmed.to_numeric_literal())
        );
    }
}
