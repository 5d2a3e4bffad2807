use std::cmp::Ordering;

use boa_string::{JsStr, JsString};

#[test]
fn equality_ignores_the_encoding() {
    let narrow = JsString::from("hi");
    let wide = JsString::from(&[0x68, 0x69]);
    assert_ne!(narrow.as_str().is_latin1(), wide.as_str().is_latin1());
    assert!(narrow == wide);
    assert!(wide == narrow);
    assert!(narrow.as_str() == wide.as_str());
    assert!(narrow == wide.as_str());
    assert!(narrow.as_str() == wide);
    assert!(narrow != JsString::from("ho"));
    assert!(narrow != JsString::from("hii"));
}

#[test]
fn equality_with_slices() {
    let string = JsString::from("hi");
    let units = [0x68u16, 0x69];
    assert!(string == units);
    assert!(units == string);
    assert!(string == units[..]);
    assert!(units[..] == string);
    assert!(string != units[..1]);
    assert!(string != [0x68u16, 0x6A]);
}

#[test]
fn equality_with_text() {
    let string = JsString::from("caf\u{E9} \u{1F600}");
    assert!(string == "caf\u{E9} \u{1F600}");
    assert!(string == *"caf\u{E9} \u{1F600}");
    assert!(*"caf\u{E9} \u{1F600}" == string);
    assert!(string != "cafe \u{1F600}");
    assert!(string.as_str() == *"caf\u{E9} \u{1F600}");
    // No text has an unpaired surrogate.
    assert!(JsString::from(&[0xD800]) != "\\uD800");
    assert!(JsString::from(&[0xD800]) != "\u{FFFD}");
}

#[test]
fn dictionary_order() {
    let words = ["", "a", "a\u{0}", "aa", "ab", "b", "\u{E9}", "\u{1F600}", "\u{FFFF}"];
    for (i, a) in words.iter().enumerate() {
        for (j, b) in words.iter().enumerate() {
            let (x, y) = (JsString::from(*a), JsString::from(*b));
            assert_eq!(x.cmp(&y), i.cmp(&j));
            assert_eq!(x.partial_cmp(&y), Some(i.cmp(&j)));
            assert_eq!(x.as_str().cmp(&y.as_str()), i.cmp(&j));
            assert_eq!(x.as_str().partial_cmp(&y.as_str()), Some(i.cmp(&j)));
            assert_eq!(x < y, i < j);
            assert_eq!(x == y, i == j);
        }
    }
}

#[test]
fn order_is_by_code_units() {
    // By code points it would be the other way round.
    let supplementary = JsString::from("\u{10000}");
    let private = JsString::from("\u{E000}");
    assert_eq!(supplementary.cmp(&private), Ordering::Less);
    assert_eq!(private.cmp(&supplementary), Ordering::Greater);
}

#[test]
fn order_ignores_the_encoding() {
    let narrow = JsStr::latin1(&[0x61, 0xE9]);
    let wide = JsStr::utf16(&[0x61, 0xE9]);
    assert_eq!(narrow.cmp(&wide), Ordering::Equal);
    assert_eq!(narrow.cmp(&JsStr::utf16(&[0x61, 0x100])), Ordering::Less);
    assert_eq!(wide.cmp(&JsStr::latin1(&[0x61])), Ordering::Greater);
}
