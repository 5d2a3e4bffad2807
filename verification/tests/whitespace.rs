use boa_string::whitespace::{
    is_trimmable_unit, is_trimmable_whitespace, is_trimmable_whitespace_latin1,
};
use boa_string::{JsStr, JsString};

const SPACES: [u16; 25] = [
    0x0009, 0x000A, 0x000B, 0x000C, 0x000D, 0x0020, 0x00A0, 0x1680, 0x2000, 0x2001, 0x2002, 0x2003,
    0x2004, 0x2005, 0x2006, 0x2007, 0x2008, 0x2009, 0x200A, 0x2028, 0x2029, 0x202F, 0x205F, 0x3000,
    0xFEFF,
];

#[test]
fn trimmable_units() {
    for unit in 0..=u16::MAX {
        assert_eq!(is_trimmable_unit(unit), SPACES.contains(&unit));
    }
}

#[test]
fn trimmable_characters() {
    for value in 0..=0x11_0000 {
        if let Some(c) = char::from_u32(value) {
            let expected = value < 0x10000 && SPACES.contains(&(value as u16));
            assert_eq!(is_trimmable_whitespace(c), expected);
        }
    }
    // Not the same as the Unicode property.
    assert!(!is_trimmable_whitespace('\u{85}'));
    assert!(is_trimmable_whitespace('\u{FEFF}'));
}

#[test]
fn latin1_agrees_with_characters() {
    for byte in 0..=u8::MAX {
        assert_eq!(
            is_trimmable_whitespace_latin1(byte),
            is_trimmable_whitespace(char::from(byte))
        );
    }
}

#[test]
fn trimming_latin1() {
    let string = JsString::from(JsStr::latin1(b" \t\xA0ab c\r\n "));
    assert!(string.as_str().is_latin1());
    assert!(string.trim() == *"ab c");
    assert!(string.trim_start() == *"ab c\r\n ");
    assert!(string.trim_end() == *" \t\u{A0}ab c");
    assert!(string.trim().is_latin1());
}

#[test]
fn trimming_utf16() {
    let string = JsString::from("\u{FEFF}\u{3000}\u{4E2D} \u{1F600}\u{2028}\u{85}\u{2029}");
    assert!(string.trim() == *"\u{4E2D} \u{1F600}\u{2028}\u{85}");
    assert!(string.trim_start() == *"\u{4E2D} \u{1F600}\u{2028}\u{85}\u{2029}");
    assert!(string.trim_end() == *"\u{FEFF}\u{3000}\u{4E2D} \u{1F600}\u{2028}\u{85}");
    assert!(!string.trim().is_latin1());
}

#[test]
fn nothing_but_spaces() {
    let string = JsString::from(&SPACES);
    assert!(string.trim().is_empty());
    assert!(string.trim_start().is_empty());
    assert!(string.trim_end().is_empty());
    assert!(JsString::default().trim().is_empty());
}

#[test]
fn trimming_twice() {
    let string = JsString::from("  a b\u{2003} ");
    assert!(string.trim().trim() == string.trim());
    assert!(string.trim_start().trim_end() == string.trim_end().trim_start());
    assert!(string.trim() == string.trim_end().trim_start());
}

#[test]
fn trimming_keeps_surrogates() {
    let string = JsString::from(&[0x20, 0xD800, 0x20]);
    assert_eq!(string.trim().to_vec(), [0xD800]);
}
