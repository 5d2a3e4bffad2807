use boa_string::utf16::{encode_str, push_char, read_code_point};
use boa_string::{CodePoint, JsString};

#[test]
fn code_unit_counts() {
    assert_eq!(CodePoint::Unicode('a').code_unit_count(), 1);
    assert_eq!(CodePoint::Unicode('\u{FFFF}').code_unit_count(), 1);
    assert_eq!(CodePoint::Unicode('\u{10000}').code_unit_count(), 2);
    assert_eq!(CodePoint::UnpairedSurrogate(0xDC00).code_unit_count(), 1);
}

#[test]
fn values_and_chars() {
    assert_eq!(CodePoint::Unicode('\u{1F600}').as_u32(), 0x1F600);
    assert_eq!(CodePoint::UnpairedSurrogate(0xD83D).as_u32(), 0xD83D);
    assert_eq!(CodePoint::Unicode('z').as_char(), Some('z'));
    assert_eq!(CodePoint::UnpairedSurrogate(0xD83D).as_char(), None);
}

#[test]
fn encoding_into_a_buffer() {
    let mut buffer = [7u16, 8, 9];
    assert_eq!(
        CodePoint::Unicode('\u{1F600}').encode_utf16(&mut buffer),
        &[0xD83D, 0xDE00]
    );
    assert_eq!(buffer, [0xD83D, 0xDE00, 9]);
    assert_eq!(CodePoint::Unicode('a').encode_utf16(&mut buffer), &[0x61]);
    assert_eq!(buffer, [0x61, 0xDE00, 9]);
    let encoded = CodePoint::UnpairedSurrogate(0xDFFF).encode_utf16(&mut buffer);
    encoded[0] = 5;
    assert_eq!(buffer, [5, 0xDE00, 9]);
}

#[test]
fn reading_code_points() {
    assert_eq!(read_code_point(0x61, None), CodePoint::Unicode('a'));
    assert_eq!(
        read_code_point(0xD83D, Some(0xDE00)),
        CodePoint::Unicode('\u{1F600}')
    );
    assert_eq!(
        read_code_point(0xD83D, Some(0x61)),
        CodePoint::UnpairedSurrogate(0xD83D)
    );
    assert_eq!(
        read_code_point(0xDE00, Some(0xDE00)),
        CodePoint::UnpairedSurrogate(0xDE00)
    );
    assert_eq!(
        read_code_point(0xDBFF, Some(0xDFFF)),
        CodePoint::Unicode('\u{10FFFF}')
    );
    assert_eq!(read_code_point(0xE000, None), CodePoint::Unicode('\u{E000}'));
    assert_eq!(read_code_point(0xD7FF, None), CodePoint::Unicode('\u{D7FF}'));
}

#[test]
fn encoding_text() {
    let text = "a\u{E9}\u{4E2D}\u{1F600}\u{10000}\u{10FFFF}";
    let expected: Vec<u16> = text.encode_utf16().collect();
    assert_eq!(encode_str(text), expected);
    let mut units = vec![1u16];
    push_char(&mut units, '\u{1F600}');
    push_char(&mut units, 'b');
    assert_eq!(units, [1, 0xD83D, 0xDE00, 0x62]);
}

#[test]
fn code_points_of_a_string() {
    let units = [0x61u16, 0xD83D, 0xDE00, 0xD83D, 0x62, 0xDE00];
    let string = JsString::from(&units);
    let points = string.code_points();
    assert_eq!(
        points,
        [
            CodePoint::Unicode('a'),
            CodePoint::Unicode('\u{1F600}'),
            CodePoint::UnpairedSurrogate(0xD83D),
            CodePoint::Unicode('b'),
            CodePoint::UnpairedSurrogate(0xDE00),
        ]
    );
    // The units of the code points make up the string, and each is found at its position.
    let mut again = Vec::new();
    for point in points {
        assert_eq!(string.code_point_at(again.len()), point);
        let mut buffer = [0u16; 2];
        again.extend_from_slice(point.encode_utf16(&mut buffer));
    }
    assert_eq!(again, units);
}

#[test]
fn code_points_of_latin1() {
    let string = JsString::from("ab");
    assert!(string.as_str().is_latin1());
    assert_eq!(
        string.code_points(),
        [CodePoint::Unicode('a'), CodePoint::Unicode('b')]
    );
    assert!(JsString::default().code_points().is_empty());
}

#[test]
fn code_point_in_the_middle_of_a_pair() {
    let string = JsString::from("\u{1F600}");
    assert_eq!(string.code_point_at(0), CodePoint::Unicode('\u{1F600}'));
    assert_eq!(string.code_point_at(1), CodePoint::UnpairedSurrogate(0xDE00));
}

#[test]
fn joining_two_strings_can_form_a_pair() {
    let lead = JsString::from(&[0xD83D]);
    let trail = JsString::from(&[0xDE00]);
    let joined = JsString::concat(lead.as_str(), trail.as_str());
    assert_eq!(joined.code_points(), [CodePoint::Unicode('\u{1F600}')]);
    let other = JsString::concat(trail.as_str(), lead.as_str());
    assert_eq!(
        other.code_points(),
        [
            CodePoint::UnpairedSurrogate(0xDE00),
            CodePoint::UnpairedSurrogate(0xD83D),
        ]
    );
}

#[test]
fn unpaired_leads_are_not_followed_by_unpaired_trails() {
    let units = [0xDC00u16, 0xD800, 0xD800, 0xDC00, 0xDC00, 0xD800, 0x61, 0xDC00];
    let points = JsString::from(&units).code_points();
    assert_eq!(
        points,
        [
            CodePoint::UnpairedSurrogate(0xDC00),
            CodePoint::UnpairedSurrogate(0xD800),
            CodePoint::Unicode('\u{10000}'),
            CodePoint::UnpairedSurrogate(0xDC00),
            CodePoint::UnpairedSurrogate(0xD800),
            CodePoint::Unicode('a'),
            CodePoint::UnpairedSurrogate(0xDC00),
        ]
    );
}
