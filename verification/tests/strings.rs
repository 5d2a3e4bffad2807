use std::str::FromStr;

use boa_string::js_string::concat_size;
use boa_string::{FromUtf16Error, JsStr, JsStrVariant, JsString, StaticJsStrings};

#[test]
fn text_round_trip() {
    for text in ["", "length", "hello", "caf\u{E9}", "\u{4E2D}\u{1F600}", "a\u{0}b"] {
        let string = JsString::from(text);
        assert_eq!(string.to_std_string(), Ok(text.to_string()));
        assert_eq!(string.to_std_string_escaped(), text);
        assert_eq!(string.len(), text.encode_utf16().count());
        assert_eq!(string.to_vec(), text.encode_utf16().collect::<Vec<_>>());
        assert!(string == text);
    }
}

#[test]
fn conversions_agree() {
    let units = [0x68u16, 0x69];
    let expected = JsString::from("hi");
    assert!(JsString::from(&units) == expected);
    assert!(JsString::from(&units[..]) == expected);
    assert!(JsString::from("hi".to_string()) == expected);
    assert!(JsString::from_str("hi").unwrap() == expected);
    assert!(JsString::from(JsStr::latin1(&[0x68, 0x69])) == expected);
    assert!(JsString::from(JsStr::utf16(&units)) == expected);
    assert!(JsStr::from(&expected) == expected);
}

#[test]
fn encodings_of_new_strings() {
    assert!(JsString::from("hi").as_str().is_latin1());
    assert!(!JsString::from("caf\u{E9}").as_str().is_latin1());
    assert!(!JsString::from(&[0x68, 0x69]).as_str().is_latin1());
    assert!(JsString::from(JsStr::latin1(&[0xE9])).as_str().is_latin1());
    // A static string is Latin1 whatever it was made from.
    let name: Vec<u16> = "name".encode_utf16().collect();
    assert!(JsString::from(&name[..]).as_str().is_latin1());
}

#[test]
fn latin1_bytes_are_code_units() {
    let string = JsString::from(JsStr::latin1(&[0x63, 0xE9, 0xFF]));
    assert_eq!(string.to_vec(), [0x63, 0xE9, 0xFF]);
    assert_eq!(string.to_std_string(), Ok("c\u{E9}\u{FF}".to_string()));
    assert_eq!(string.to_std_string_escaped(), "c\u{E9}\u{FF}");
}

#[test]
fn default_is_empty_and_static() {
    let string = JsString::default();
    assert!(string.is_empty());
    assert!(string.is_static());
    assert_eq!(string.len(), 0);
    assert!(string == "");
}

#[test]
fn interning() {
    assert!(JsString::from("length").is_static());
    assert!(JsString::from("length".to_string()).is_static());
    assert!(JsString::from(JsStr::latin1("length".as_bytes())).is_static());
    let units: Vec<u16> = "length".encode_utf16().collect();
    assert!(JsString::from(&units[..]).is_static());
    let joined = JsString::concat(JsStr::latin1(b"len"), JsStr::utf16(&units[3..]));
    assert!(joined.is_static());
    assert!(!JsString::from("lengths").is_static());
    assert!(!JsString::from("caf\u{E9}").is_static());
}

#[test]
fn static_table() {
    let empty = StaticJsStrings::get(StaticJsStrings::EMPTY).unwrap();
    assert!(empty.is_empty());
    assert!(StaticJsStrings::get(StaticJsStrings::COUNT).is_none());
    assert_eq!(StaticJsStrings::text(StaticJsStrings::COUNT), None);
    for index in 0..StaticJsStrings::COUNT {
        let string = StaticJsStrings::get(index).unwrap();
        assert!(string == *StaticJsStrings::text(index).unwrap());
        let interned = StaticJsStrings::get_string(&string).unwrap();
        assert!(interned.is_static());
        assert!(interned == string);
    }
    assert!(StaticJsStrings::get_string(&JsStr::latin1(b"no such string")).is_none());
}

#[test]
fn reference_counts() {
    let string = JsString::from("counted");
    assert_eq!(string.refcount(), Some(1));
    let second = string.clone();
    let third = second.clone();
    assert_eq!(string.refcount(), Some(3));
    drop(second);
    assert_eq!(third.refcount(), Some(2));
    drop(string);
    assert_eq!(third.refcount(), Some(1));
    assert!(third == "counted");

    let interned = JsString::from("undefined");
    let copy = interned.clone();
    assert_eq!(interned.refcount(), None);
    assert_eq!(copy.refcount(), None);
    assert!(copy == interned);
}

#[test]
fn clones_keep_the_encoding() {
    for string in [
        JsString::from("hi"),
        JsString::from(&[0x68, 0x69]),
        JsString::from("name"),
    ] {
        let copy = string.clone();
        assert!(copy == string);
        assert_eq!(copy.is_static(), string.is_static());
        assert_eq!(copy.as_str().is_latin1(), string.as_str().is_latin1());
    }
}

#[test]
fn concatenation() {
    let wide = [0x4E2Du16];
    let narrow = JsStr::latin1(b"ab");
    let joined = JsString::concat(narrow, JsStr::latin1(&[0xE9]));
    assert!(joined.as_str().is_latin1());
    assert_eq!(joined.to_vec(), [0x61, 0x62, 0xE9]);
    let joined = JsString::concat(narrow, JsStr::utf16(&wide));
    assert!(!joined.as_str().is_latin1());
    assert_eq!(joined.to_vec(), [0x61, 0x62, 0x4E2D]);
    let all = JsString::concat_array(&[narrow, JsStr::utf16(&wide), JsStr::latin1(&[0xFF])]);
    assert_eq!(all.to_vec(), [0x61, 0x62, 0x4E2D, 0xFF]);
    assert!(JsString::concat_array(&[]).is_static());
    assert!(JsString::concat(narrow, JsStr::latin1(b"")) == JsString::from("ab"));
}

#[test]
fn size_of_a_concatenation() {
    let narrow = JsStr::latin1(b"ab");
    let wide = JsStr::utf16(&[0x61, 0x62, 0x63]);
    assert_eq!(concat_size(&[]), Some((0, true)));
    assert_eq!(concat_size(&[narrow, narrow]), Some((4, true)));
    assert_eq!(concat_size(&[narrow, wide, narrow]), Some((7, false)));
}

#[test]
fn concatenation_is_associative() {
    let (x, y, z) = (
        JsString::from("a"),
        JsString::from("\u{4E2D}"),
        JsString::from(&[0xD800]),
    );
    let left = JsString::concat(
        JsString::concat(x.as_str(), y.as_str()).as_str(),
        z.as_str(),
    );
    let right = JsString::concat(
        x.as_str(),
        JsString::concat(y.as_str(), z.as_str()).as_str(),
    );
    assert!(left == right);
    assert!(left == JsString::from_strings(&[x, y, z]));
}

#[test]
fn concatenating_owned_strings() {
    let parts = [JsString::from("len"), JsString::from("gth")];
    let joined = JsString::from_strings(&parts);
    assert!(joined == "length");
    assert!(joined.is_static());
    let parts = [JsString::from("a"), JsString::from("\u{4E2D}")];
    assert_eq!(JsString::from_strings(&parts).to_vec(), [0x61, 0x4E2D]);
}

#[test]
fn searching() {
    let string = JsString::from("abcabc");
    let part = JsString::from("bc");
    assert_eq!(string.index_of(part.as_str(), 0), Some(1));
    assert_eq!(string.index_of(part.as_str(), 1), Some(1));
    assert_eq!(string.index_of(part.as_str(), 2), Some(4));
    assert_eq!(string.index_of(part.as_str(), 5), None);
    assert_eq!(string.index_of(part.as_str(), 100), None);
    assert_eq!(string.index_of(JsStr::latin1(b"abcabcd"), 0), None);
    // The encodings of the two strings need not agree.
    assert_eq!(string.index_of(JsStr::utf16(&[0x63]), 3), Some(5));
    assert_eq!(string.index_of(JsStr::utf16(&[0x4E2D]), 0), None);
}

#[test]
fn searching_for_the_empty_string() {
    let string = JsString::from("abc");
    let empty = JsStr::latin1(b"");
    assert_eq!(string.index_of(empty, 0), Some(0));
    assert_eq!(string.index_of(empty, 3), Some(3));
    assert_eq!(string.index_of(empty, 4), None);
    assert_eq!(JsString::default().index_of(empty, 0), Some(0));
}

#[test]
fn containing_a_byte() {
    let string = JsString::from(&[0x61, 0x4E2D, 0xE9]);
    assert!(string.contains(0x61));
    assert!(string.contains(0xE9));
    assert!(!string.contains(0x2D));
    assert!(!string.contains(0x4E));
    assert!(JsString::from("abc").contains(b'c'));
    assert!(!JsString::from("abc").contains(b'd'));
}

#[test]
fn indexing() {
    for string in [JsString::from("abcd"), JsString::from(&[0x61, 0x62, 0x63, 0x64])] {
        assert_eq!(string.get(0usize), Some(0x61));
        assert_eq!(string.get(3usize), Some(0x64));
        assert_eq!(string.get(4usize), None);
        assert!(string.get(1..3).unwrap() == *"bc");
        assert!(string.get(0..4).unwrap() == string);
        assert!(string.get(4..4).unwrap().is_empty());
        assert!(string.get(3..5).is_none());
        #[allow(clippy::reversed_empty_ranges)]
        let reversed = string.get(3..2);
        assert!(reversed.is_none());
        assert_eq!(string.get_expect(2usize), 0x63);
        assert!(string.get_unchecked(1..2) == *"b");
        assert_eq!(
            string.get_expect(0..2).is_latin1(),
            string.as_str().is_latin1()
        );
    }
}

#[test]
fn iterating() {
    let string = JsString::from(&[0x61, 0x4E2D]);
    let mut iter = string.iter();
    assert_eq!(iter.len(), 2);
    assert_eq!(iter.next(), Some(0x61));
    let mut copy = iter.clone();
    assert_eq!(iter.next(), Some(0x4E2D));
    assert_eq!(iter.next(), None);
    assert_eq!(iter.next(), None);
    assert_eq!(iter.len(), 0);
    assert_eq!(copy.next(), Some(0x4E2D));
}

#[test]
fn windows_overlap() {
    let string = JsString::from("abc");
    let mut windows = string.windows(2);
    assert!(windows.next().unwrap() == *"ab");
    let mut copy = windows.clone();
    assert!(windows.next().unwrap() == *"bc");
    assert!(windows.next().is_none());
    assert!(copy.next().unwrap() == *"bc");
    assert!(string.windows(4).next().is_none());
    assert!(string.windows(3).next().unwrap() == string);
}

#[test]
fn borrowed_variants() {
    let string = JsString::from("hi");
    assert!(matches!(string.as_str().variant(), JsStrVariant::Latin1(b"hi")));
    let string = JsString::from(&[0x68, 0x4E2D]);
    assert!(matches!(
        string.as_str().variant(),
        JsStrVariant::Utf16(&[0x68, 0x4E2D])
    ));
}

#[test]
fn unpaired_surrogates_have_no_text() {
    assert_eq!(JsString::from(&[0xD800]).to_std_string(), Err(FromUtf16Error));
    assert_eq!(
        JsString::from(&[0x61, 0xDC00, 0xD800]).to_std_string(),
        Err(FromUtf16Error)
    );
    assert_eq!(
        JsString::from(&[0xD83D, 0xDE00]).to_std_string(),
        Ok("\u{1F600}".to_string())
    );
}
