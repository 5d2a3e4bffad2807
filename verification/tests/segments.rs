use boa_string::JsString;

#[test]
fn escaping_surrogates() {
    let string = JsString::from(&[0x61, 0xD83D, 0xDE00, 0xD83D, 0xDE, 0xDEAF]);
    assert_eq!(
        string.to_std_string_escaped(),
        "a\u{1F600}\\uD83D\u{DE}\\uDEAF"
    );
    assert_eq!(JsString::from(&[0xD800]).to_std_string_escaped(), "\\uD800");
    assert_eq!(JsString::from(&[0xDFFF]).to_std_string_escaped(), "\\uDFFF");
}

#[test]
fn dividing_into_segments() {
    let string = JsString::from(&[0x61, 0x62, 0xD800, 0xD800, 0xD83D, 0xDE00, 0xDC00, 0x63]);
    assert_eq!(
        string.to_std_string_with_surrogates(),
        [
            Ok("ab".to_string()),
            Err(0xD800),
            Err(0xD800),
            Ok("\u{1F600}".to_string()),
            Err(0xDC00),
            Ok("c".to_string()),
        ]
    );
}

#[test]
fn segments_of_well_formed_strings() {
    assert_eq!(
        JsString::from("caf\u{E9} \u{1F600}").to_std_string_with_surrogates(),
        [Ok("caf\u{E9} \u{1F600}".to_string())]
    );
    assert!(JsString::default().to_std_string_with_surrogates().is_empty());
}

#[test]
fn mapping_segments() {
    let string = JsString::from(&[0x61, 0xD800, 0x62, 0x63]);
    let mapped = string.map_valid_segments(|text| text.to_uppercase());
    assert_eq!(mapped.to_vec(), [0x41, 0xD800, 0x42, 0x43]);
    let same = string.map_valid_segments(|text| text);
    assert!(same == string);
    let longer = string.map_valid_segments(|text| format!("<{text}>"));
    assert_eq!(
        longer.to_vec(),
        [0x3C, 0x61, 0x3E, 0xD800, 0x3C, 0x62, 0x63, 0x3E]
    );
    let gone = string.map_valid_segments(|_| String::new());
    assert_eq!(gone.to_vec(), [0xD800]);
}

#[test]
fn mapping_calls_once_for_each_segment() {
    let string = JsString::from(&[0xD800, 0x61, 0xD800, 0x62]);
    let mut seen = Vec::new();
    let _ = string.map_valid_segments(|text| {
        seen.push(text.clone());
        text
    });
    assert_eq!(seen, ["a", "b"]);
}

#[test]
fn mapping_can_give_a_static_string() {
    let mapped = JsString::from("LENGTH").map_valid_segments(|text| text.to_lowercase());
    assert!(mapped.is_static());
    let mapped = JsString::from("ab").map_valid_segments(|text| text);
    assert!(!mapped.is_static());
    assert!(!mapped.as_str().is_latin1());
}
