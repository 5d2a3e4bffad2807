//! What the operations on strings are for, said of their inputs and results in numbers, positions
//! and elements.

use vstd::prelude::*;
use vstd::std_specs::cmp::{PartialEqSpec, PartialOrdSpec};

use crate::builder;
use crate::code_point::CodePoint;
use crate::common::{self, StaticJsStrings};
use crate::compare;
use crate::convert;
use crate::js_str::{self, JsSliceIndex, JsStr, JsStrVariant};
use crate::js_string::{self, JsString};
use crate::layout;
use crate::number;
use crate::order;
use crate::private::JsStringData;
use crate::segments;
use crate::utf16;
use crate::whitespace;

verus! {

// Text and UTF-16

/// A character of the basic plane is encoded by the unit with its value, and any other by a lead
/// and a trail that make up its value: ten bits each, above 0x10000.
pub proof fn lemma_encoding_of_a_char(c: char)
    ensures
        ({
            let units = utf16::encode_text(seq![c]);
            if (c as int) < 0x10000 {
                &&& units.len() == 1
                &&& units[0] as int == c as int
            } else {
                &&& units.len() == 2
                &&& 0xD800 <= units[0] <= 0xDBFF
                &&& 0xDC00 <= units[1] <= 0xDFFF
                &&& c as int == 0x10000 + (units[0] - 0xD800) * 0x400 + (units[1] - 0xDC00)
            }
        }),
        utf16::encode_char(c) == utf16::encode_text(seq![c]),
        CodePoint::Unicode(c).units() == utf16::encode_text(seq![c]),
{
    let point = utf16::scalar(c);
    assert(utf16::scalars(seq![c]) =~= seq![point]);
    utf16::lemma_encode_one(point);
    let value = c as int;
    if value >= 0x10000 {
        let offset = value - 0x10000;
        assert(offset == (offset / 0x400) * 0x400 + offset % 0x400);
        assert(0 <= offset / 0x400 < 0x400);
    }
}

/// An unpaired surrogate is encoded by itself.
pub proof fn lemma_encoding_of_a_surrogate(surr: u16)
    ensures
        CodePoint::UnpairedSurrogate(surr).units() == seq![surr],
        utf16::encode(seq![CodePoint::UnpairedSurrogate(surr)]) == seq![surr],
{
    utf16::lemma_encode_one(CodePoint::UnpairedSurrogate(surr));
}

/// Each character of a text is encoded by itself, between what stands before and after it.
pub proof fn lemma_encoding_of_a_text(before: Seq<char>, c: char, after: Seq<char>)
    ensures
        utf16::encode_text(Seq::empty()) == Seq::<u16>::empty(),
        utf16::encode_text(before + seq![c] + after) == utf16::encode_text(before)
            + utf16::encode_text(seq![c]) + utf16::encode_text(after),
{
    assert(utf16::scalars(Seq::empty()) =~= Seq::empty());
    utf16::lemma_encode_text_concat(before, seq![c]);
    utf16::lemma_encode_text_concat(before + seq![c], after);
}

/// Of two supplementary characters the one with the smaller value has the smaller lead, or the
/// same lead and the smaller trail.
pub proof fn lemma_pairs_are_ordered(a: char, b: char)
    requires
        0x10000 <= a as int,
        (a as int) < b as int,
    ensures
        ({
            let x = utf16::encode_text(seq![a]);
            let y = utf16::encode_text(seq![b]);
            x[0] < y[0] || x[0] == y[0] && x[1] < y[1]
        }),
{
    lemma_encoding_of_a_char(a);
    lemma_encoding_of_a_char(b);
}

/// What is read at a position: a unit outside of 0xD800 to 0xDFFF is the character with its value;
/// a lead with a trail behind it is the character whose value they make up; any other unit is an
/// unpaired surrogate.
pub proof fn lemma_code_point_at(units: Seq<u16>, i: int)
    requires
        0 <= i < units.len(),
    ensures
        ({
            let point = utf16::first_code_point(units.skip(i));
            let paired = i + 1 < units.len() && 0xD800 <= units[i] <= 0xDBFF && 0xDC00 <= units[i
                + 1] <= 0xDFFF;
            &&& !(0xD800 <= units[i] <= 0xDFFF) ==> (point matches CodePoint::Unicode(c) && c as int
                == units[i])
            &&& paired ==> (point matches CodePoint::Unicode(c) && c as int == 0x10000 + (units[i]
                - 0xD800) * 0x400 + (units[i + 1] - 0xDC00))
            &&& 0xD800 <= units[i] <= 0xDFFF && !paired ==> point == CodePoint::UnpairedSurrogate(
                units[i],
            )
        }),
{
    let rest = units.skip(i);
    assert(rest[0] == units[i]);
    if i + 1 < units.len() {
        assert(rest[1] == units[i + 1]);
    }
}

/// The code points of a string are the one that it starts with, then those of what follows the one
/// or two units of that.
pub proof fn lemma_code_points_step(units: Seq<u16>)
    ensures
        utf16::decode(Seq::empty()) == Seq::<CodePoint>::empty(),
        units.len() > 0 ==> ({
            let paired = units.len() > 1 && 0xD800 <= units[0] <= 0xDBFF && 0xDC00 <= units[1]
                <= 0xDFFF;
            &&& utf16::decode(units).len() > 0
            &&& utf16::decode(units)[0] == utf16::first_code_point(units)
            &&& utf16::decode(units).skip(1) == utf16::decode(
                units.skip(
                    if paired {
                        2
                    } else {
                        1
                    },
                ),
            )
        }),
{
    if units.len() > 0 {
        assert(utf16::decode(units).skip(1) =~= utf16::decode(
            units.skip(utf16::first_width(units)),
        ));
    }
}

/// The code points of a string are the only ones that are encoded by its units and leave no
/// surrogate unpaired that could be paired.
pub proof fn lemma_code_points_unique(points: Seq<CodePoint>)
    requires
        forall|i: int|
            0 <= i < points.len() ==> (#[trigger] points[i] matches CodePoint::UnpairedSurrogate(
                surr,
            ) ==> 0xD800 <= surr <= 0xDFFF),
        forall|i: int, j: int|
            0 <= i && j == i + 1 && j < points.len() ==> !((
            #[trigger] points[i] matches CodePoint::UnpairedSurrogate(lead) && lead <= 0xDBFF) && (
            #[trigger] points[j] matches CodePoint::UnpairedSurrogate(trail) && trail >= 0xDC00)),
    ensures
        utf16::decode(utf16::encode(points)) == points,
    decreases points.len(),
{
    if points.len() == 0 {
        assert(points =~= Seq::empty());
    } else {
        let first = points[0];
        let rest = points.skip(1);
        assert forall|i: int| 0 <= i < rest.len() implies (
        #[trigger] rest[i] matches CodePoint::UnpairedSurrogate(surr) ==> 0xD800 <= surr
            <= 0xDFFF) by {
            assert(rest[i] == points[i + 1]);
        }
        assert forall|i: int, j: int|
            0 <= i && j == i + 1 && j < rest.len() implies !((
        #[trigger] rest[i] matches CodePoint::UnpairedSurrogate(lead) && lead <= 0xDBFF) && (
        #[trigger] rest[j] matches CodePoint::UnpairedSurrogate(trail) && trail >= 0xDC00)) by {
            assert(rest[i] == points[i + 1]);
            assert(rest[j] == points[j + 1]);
        }
        lemma_code_points_unique(rest);
        utf16::lemma_encode_one(first);
        utf16::lemma_encode_concat(seq![first], rest);
        assert(seq![first] + rest =~= points);
        let head = first.units();
        let tail = utf16::encode(rest);
        match first {
            CodePoint::Unicode(c) => {
                lemma_encoding_of_a_char(c);
                utf16::lemma_decode_encode_text(seq![c]);
                assert(utf16::scalars(seq![c]) =~= seq![first]);
                assert(!(0xD800 <= head.last() <= 0xDBFF));
            },
            CodePoint::UnpairedSurrogate(surr) => {
                assert(utf16::decode(seq![surr].skip(1)) =~= Seq::empty());
                assert(utf16::decode(head) =~= seq![first]);
                if rest.len() > 0 {
                    let second = rest[0];
                    assert(second == points[1]);
                    assert(rest.take(1) =~= seq![second]);
                    utf16::lemma_encode_one(second);
                    utf16::lemma_encode_concat(rest.take(1), rest.skip(1));
                    assert(rest.take(1) + rest.skip(1) =~= rest);
                    if let CodePoint::Unicode(c) = second {
                        lemma_encoding_of_a_char(c);
                    }
                    assert(tail[0] == second.units()[0]);
                } else {
                    assert(rest =~= Seq::empty());
                }
            },
        }
        utf16::lemma_decode_concat(head, tail);
        assert(utf16::decode(head + tail) =~= points);
    }
}

/// A string can be read as text exactly when each lead has a trail behind it and each trail a lead
/// before it.
pub proof fn lemma_well_formed_by_position(units: Seq<u16>)
    ensures
        utf16::well_formed(units) <==> forall|i: int|
            0 <= i < units.len() ==> {
                &&& 0xD800 <= #[trigger] units[i] <= 0xDBFF ==> i + 1 < units.len() && 0xDC00
                    <= units[i + 1] <= 0xDFFF
                &&& 0xDC00 <= units[i] <= 0xDFFF ==> 0 < i && 0xD800 <= units[i - 1] <= 0xDBFF
            },
    decreases units.len(),
{
    if units.len() > 0 {
        let width = utf16::first_width(units);
        let rest = units.skip(width);
        utf16::lemma_first_units(units);
        lemma_well_formed_by_position(rest);
        let points = utf16::decode(units);
        assert(points =~= seq![utf16::first_code_point(units)] + utf16::decode(rest));
        utf16::lemma_text_of_concat(seq![utf16::first_code_point(units)], utf16::decode(rest));
        assert(forall|i: int| 0 <= i < rest.len() ==> #[trigger] rest[i] == units[i + width]);
        assert(forall|i: int| width <= i < units.len() ==> #[trigger] units[i] == rest[i - width]);
        let first = seq![utf16::first_code_point(units)];
        assert(first[0] == utf16::first_code_point(units));
        if utf16::well_formed(units) {
            assert(first[0] is Unicode);
        }
    }
}

/// The text of code points has the character of each, in order; a text's code points are its
/// characters, in order.
pub proof fn lemma_text_by_position(points: Seq<CodePoint>, text: Seq<char>, i: int)
    ensures
        utf16::text_of(points).len() == points.len(),
        0 <= i < points.len() ==> (points[i] matches CodePoint::Unicode(c) ==> utf16::text_of(
            points,
        )[i] == c),
        utf16::scalars(text).len() == text.len(),
        0 <= i < text.len() ==> utf16::scalars(text)[i] == CodePoint::Unicode(text[i]),
{
}

/// The bytes of a Latin1 string are code units of the same value.
pub proof fn lemma_latin1_by_position(bytes: Seq<u8>, i: int)
    ensures
        js_str::latin1_units(bytes).len() == bytes.len(),
        0 <= i < bytes.len() ==> js_str::latin1_units(bytes)[i] == bytes[i],
{
}

/// A borrowed string stands for its slice, unit by unit.
pub proof fn lemma_variant_by_position(bytes: &[u8], units: &[u16], i: int)
    ensures
        JsStrVariant::Utf16(units).units() == units@,
        JsStrVariant::Latin1(bytes).units().len() == bytes@.len(),
        0 <= i < bytes@.len() ==> JsStrVariant::Latin1(bytes).units()[i] == bytes@[i],
{
}

// Segments and the escaped form

/// The escape of an unpaired surrogate is a backslash, the letter u, and four upper case digits of
/// base 16 that denote the surrogate; a character stands for itself.
#[verifier::spinoff_prover]
pub proof fn lemma_escape_of_a_point(surr: u16, c: char)
    ensures
        segments::escape(seq![CodePoint::Unicode(c)]) == seq![c],
        ({
            let text = segments::escape(seq![CodePoint::UnpairedSurrogate(surr)]);
            let digit = |i: int|
                if '0' <= text[i] <= '9' {
                    text[i] as int - '0' as int
                } else {
                    text[i] as int - 'A' as int + 10
                };
            &&& text.len() == 6
            &&& text[0] == '\\'
            &&& text[1] == 'u'
            &&& forall|i: int|
                2 <= i < 6 ==> '0' <= #[trigger] text[i] <= '9' || 'A' <= text[i] <= 'F'
            &&& surr == digit(2) * 0x1000 + digit(3) * 0x100 + digit(4) * 0x10 + digit(5)
        }),
        segments::escape_point(CodePoint::Unicode(c)) == seq![c],
        segments::escape_point(CodePoint::UnpairedSurrogate(surr)) == segments::escape(
            seq![CodePoint::UnpairedSurrogate(surr)],
        ),
{
    let point = CodePoint::UnpairedSurrogate(surr);
    lemma_escape_one(CodePoint::Unicode(c));
    lemma_escape_one(point);
    let text = segments::escape(seq![point]);
    let value = surr as int;
    let first = value / 0x1000;
    let second = value / 0x100 % 0x10;
    let third = value / 0x10 % 0x10;
    let fourth = value % 0x10;
    assert(surr / 0x1000 < 0x10 && surr == surr / 0x1000 * 0x1000 + surr / 0x100 % 0x10 * 0x100
        + surr / 0x10 % 0x10 * 0x10 + surr % 0x10) by (bit_vector);
    lemma_hex_digit(first);
    lemma_hex_digit(second);
    lemma_hex_digit(third);
    lemma_hex_digit(fourth);
    assert(text.len() == 6);
    assert(text[2] == segments::hex_digit(first) && text[3] == segments::hex_digit(second));
    assert(text[4] == segments::hex_digit(third) && text[5] == segments::hex_digit(fourth));
    assert forall|i: int| 2 <= i < 6 implies '0' <= #[trigger] text[i] <= '9' || 'A' <= text[i]
        <= 'F' by {
        assert(i == 2 || i == 3 || i == 4 || i == 5);
    }
}

proof fn lemma_hex_digit(value: int)
    requires
        0 <= value < 0x10,
    ensures
        ({
            let digit = segments::hex_digit(value);
            if '0' <= digit <= '9' {
                value == digit as int - '0' as int
            } else {
                'A' <= digit <= 'F' && value == digit as int - 'A' as int + 10
            }
        }),
{
}

proof fn lemma_escape_one(point: CodePoint)
    ensures
        segments::escape(seq![point]) == segments::escape_point(point),
{
    let pieces = seq![point].map_values(|p: CodePoint| segments::escape_point(p));
    assert(pieces =~= seq![segments::escape_point(point)]);
    pieces.lemma_flatten_one_element();
}

/// Different surrogates have different escapes.
pub proof fn lemma_escapes_differ(a: u16, b: u16)
    requires
        a != b,
    ensures
        segments::escape(seq![CodePoint::UnpairedSurrogate(a)]) != segments::escape(
            seq![CodePoint::UnpairedSurrogate(b)],
        ),
{
    lemma_escape_of_a_point(a, 'a');
    lemma_escape_of_a_point(b, 'b');
}

/// The escaped form of a string is that of each of its code points in turn.
pub proof fn lemma_escape_concat(a: Seq<CodePoint>, b: Seq<CodePoint>)
    ensures
        segments::escape(Seq::empty()) == Seq::<char>::empty(),
        segments::escape(a + b) == segments::escape(a) + segments::escape(b),
{
    let escaped = |point: CodePoint| segments::escape_point(point);
    vstd::seq_lib::lemma_flatten_concat(a.map_values(escaped), b.map_values(escaped));
    assert((a + b).map_values(escaped) =~= a.map_values(escaped) + b.map_values(escaped));
    assert(Seq::<CodePoint>::empty().map_values(escaped) =~= Seq::empty());
    assert(segments::escape(Seq::empty()) =~= Seq::empty());
}

/// In the escaped form of a string an unpaired surrogate is replaced by its escape where it stands.
pub proof fn lemma_escape_of_a_string(before: Seq<u16>, surr: u16, after: Seq<u16>)
    requires
        0xD800 <= surr <= 0xDFFF,
        before.len() > 0 && 0xD800 <= before.last() <= 0xDBFF ==> surr <= 0xDBFF,
        after.len() > 0 && 0xDC00 <= after[0] <= 0xDFFF ==> surr >= 0xDC00,
    ensures
        segments::escape(utf16::decode(before + seq![surr] + after)) == segments::escape(
            utf16::decode(before),
        ) + segments::escape(seq![CodePoint::UnpairedSurrogate(surr)]) + segments::escape(
            utf16::decode(after),
        ),
{
    let point = CodePoint::UnpairedSurrogate(surr);
    assert(utf16::decode(seq![surr].skip(1)) =~= Seq::empty());
    assert(utf16::decode(seq![surr]) =~= seq![point]);
    utf16::lemma_decode_concat(before, seq![surr]);
    utf16::lemma_decode_concat(before + seq![surr], after);
    lemma_escape_concat(utf16::decode(before), seq![point]);
    lemma_escape_concat(utf16::decode(before) + seq![point], utf16::decode(after));
}

/// The code points of the segments, in order, are those of the string: the characters of each
/// stretch of text, and each surrogate.
pub proof fn lemma_segments_keep_points(points: Seq<CodePoint>)
    ensures
        segments::segments(points).map_values(
            |part: segments::Segment|
                match part {
                    segments::Segment::Text(text) => utf16::scalars(text),
                    segments::Segment::Surrogate(surr) => seq![
                        CodePoint::UnpairedSurrogate(surr),
                    ],
                },
        ).flatten() == points,
    decreases points.len(),
{
    let inner = |part: segments::Segment|
        match part {
            segments::Segment::Text(text) => utf16::scalars(text),
            segments::Segment::Surrogate(surr) => seq![CodePoint::UnpairedSurrogate(surr)],
        };
    let parts = segments::segments(points);
    let pieces = parts.map_values(inner);
    if points.len() == 0 {
        assert(pieces =~= Seq::empty());
        assert(pieces.flatten() =~= points);
    } else {
        let n: int = if points[0] is Unicode {
            segments::text_run(points) as int
        } else {
            1
        };
        segments::lemma_text_run(points);
        lemma_segments_keep_points(points.skip(n));
        assert(pieces.drop_first() =~= segments::segments(points.skip(n)).map_values(inner));
        let head = points.take(n);
        if points[0] is Unicode {
            assert(utf16::scalars(utf16::text_of(head)) =~= head) by {
                assert forall|i: int| 0 <= i < n implies utf16::scalars(utf16::text_of(head))[i]
                    == #[trigger] head[i] by {
                    assert(head[i] is Unicode);
                }
            }
        } else {
            assert(head =~= seq![points[0]]);
        }
        assert(pieces.first() =~= head);
        assert(head + points.skip(n) =~= points);
    }
}

/// What a part of a string may be mapped to: a surrogate to itself, a stretch of text to the
/// encoding of what the function returns on it.
pub proof fn lemma_maps_to<F: FnMut(String) -> String>(f: F, image: Seq<u16>)
    ensures
        forall|surr: u16| #[trigger]
            js_string::maps_to(f, segments::Segment::Surrogate(surr), image) <==> image
                == seq![surr],
        forall|text: Seq<char>| #[trigger]
            js_string::maps_to(f, segments::Segment::Text(text), image) ==> exists|
                input: String,
                output: String,
            |
                input@ == text && #[trigger] f.ensures((input,), output) && image
                    == utf16::encode_text(output@),
        forall|part: segments::Segment|
            #![trigger part.units()]
            part.units() == match part {
                segments::Segment::Text(text) => utf16::encode_text(text),
                segments::Segment::Surrogate(surr) => seq![surr],
            },
{
}

// White space

/// The trimmable values: the five controls from tabulation to carriage return, the space and the
/// no-break space, the line and paragraph separators, the other space separators, and the
/// zero width no-break space.
pub proof fn lemma_trimmable_values(value: int)
    ensures
        whitespace::is_space(value) <==> {
            ||| 0x09 <= value <= 0x0D
            ||| value == 0x20 || value == 0xA0
            ||| value == 0x2028 || value == 0x2029
            ||| value == 0x1680 || 0x2000 <= value <= 0x200A
            ||| value == 0x202F || value == 0x205F || value == 0x3000
            ||| value == 0xFEFF
        },
{
}

/// Trimming the start cuts off the trimmable units in front and keeps everything from the first
/// other unit on, whatever stands at the end.
pub proof fn lemma_trim_start_keeps_the_end(front: Seq<u16>, rest: Seq<u16>)
    requires
        forall|i: int| 0 <= i < front.len() ==> whitespace::is_space(#[trigger] front[i] as int),
        rest.len() > 0 ==> !whitespace::is_space(rest[0] as int),
    ensures
        whitespace::trim_start(front + rest) == rest,
{
    let units = front + rest;
    let n = front.len() as int;
    assert(units.take(n) =~= front);
    assert(units.skip(n) =~= rest);
    assert(whitespace::all_space(front, whitespace::unit_space()));
    whitespace::lemma_trim_start_at(units, whitespace::unit_space(), n);
}

/// Trimming the end cuts off the trimmable units at the back and keeps everything up to the last
/// other unit, whatever stands in front.
pub proof fn lemma_trim_end_keeps_the_start(rest: Seq<u16>, back: Seq<u16>)
    requires
        forall|i: int| 0 <= i < back.len() ==> whitespace::is_space(#[trigger] back[i] as int),
        rest.len() > 0 ==> !whitespace::is_space(rest.last() as int),
    ensures
        whitespace::trim_end(rest + back) == rest,
{
    let units = rest + back;
    let n = rest.len() as int;
    assert(units.skip(n) =~= back);
    assert(units.take(n) =~= rest);
    assert(whitespace::all_space(back, whitespace::unit_space()));
    whitespace::lemma_trim_end_at(units, whitespace::unit_space(), n);
}

/// Trimming cuts off the trimmable units at both ends and keeps everything between the first and
/// the last other unit.
pub proof fn lemma_trim_keeps_the_middle(front: Seq<u16>, middle: Seq<u16>, back: Seq<u16>)
    requires
        forall|i: int| 0 <= i < front.len() ==> whitespace::is_space(#[trigger] front[i] as int),
        forall|i: int| 0 <= i < back.len() ==> whitespace::is_space(#[trigger] back[i] as int),
        middle.len() > 0 ==> !whitespace::is_space(middle[0] as int) && !whitespace::is_space(
            middle.last() as int,
        ),
    ensures
        whitespace::trim(front + middle + back) == middle,
{
    if middle.len() > 0 {
        assert(front + middle + back =~= front + (middle + back));
        lemma_trim_start_keeps_the_end(front, middle + back);
        lemma_trim_end_keeps_the_start(middle, back);
    } else {
        let all = front + middle + back;
        assert forall|i: int| 0 <= i < all.len() implies whitespace::is_space(
            #[trigger] all[i] as int,
        ) by {
            if i < front.len() {
                assert(all[i] == front[i]);
            } else {
                assert(all[i] == back[i - front.len()]);
            }
        }
        assert(all + Seq::empty() =~= all);
        lemma_trim_start_keeps_the_end(all, Seq::empty());
        assert(middle + Seq::<u16>::empty() =~= Seq::empty());
        lemma_trim_end_keeps_the_start(middle, Seq::empty());
    }
}

/// Every string is divided in this way: where trimming cuts.
pub proof fn lemma_trim_cuts_exist(units: Seq<u16>)
    ensures
        exists|n: int|
            {
                &&& 0 <= n <= units.len()
                &&& whitespace::trim_start(units) == #[trigger] units.skip(n)
                &&& forall|i: int| 0 <= i < n ==> whitespace::is_space(#[trigger] units[i] as int)
                &&& n < units.len() ==> !whitespace::is_space(units[n] as int)
            },
        exists|n: int|
            {
                &&& 0 <= n <= units.len()
                &&& whitespace::trim_end(units) == #[trigger] units.take(n)
                &&& forall|i: int|
                    n <= i < units.len() ==> whitespace::is_space(#[trigger] units[i] as int)
                &&& n > 0 ==> !whitespace::is_space(units[n - 1] as int)
            },
{
    let space = whitespace::unit_space();
    let start = whitespace::lemma_trim_start_cuts(units, space);
    assert forall|i: int| 0 <= i < start implies whitespace::is_space(
        #[trigger] units[i] as int,
    ) by {
        assert(space(units.take(start)[i]));
    }
    assert(whitespace::trim_start(units) == units.skip(start));
    let end = whitespace::lemma_trim_end_cuts(units, space);
    assert forall|i: int| end <= i < units.len() implies whitespace::is_space(
        #[trigger] units[i] as int,
    ) by {
        assert(space(units.skip(end)[i - end]));
    }
    assert(whitespace::trim_end(units) == units.take(end));
}

// Windows, occurrences and the order

/// The windows of a string are its stretches of the given length, one for each position at which
/// one starts.
pub proof fn lemma_windows_by_position(units: Seq<u16>, size: int, i: int, j: int)
    requires
        0 <= size,
    ensures
        order::windows(units, size).len() == if size <= units.len() {
            units.len() - size + 1
        } else {
            0
        },
        0 <= i <= units.len() - size ==> order::windows(units, size)[i].len() == size,
        0 <= i <= units.len() - size && 0 <= j < size ==> order::windows(units, size)[i][j]
            == units[i + j],
{
}

/// A part occurs at a position exactly when it is found there unit by unit.
pub proof fn lemma_occurs_by_position(units: Seq<u16>, part: Seq<u16>, position: int)
    ensures
        order::occurs_at(units, part, position) <==> {
            &&& 0 <= position <= units.len() - part.len()
            &&& forall|j: int| 0 <= j < part.len() ==> #[trigger] part[j] == units[position + j]
        },
{
    if 0 <= position <= units.len() - part.len() {
        let found = units.subrange(position, position + part.len());
        if found == part {
            assert forall|j: int| 0 <= j < part.len() implies #[trigger] part[j] == units[position
                + j] by {
                assert(found[j] == units[position + j]);
            }
        }
        if forall|j: int| 0 <= j < part.len() ==> #[trigger] part[j] == units[position + j] {
            assert(found =~= part);
        }
    }
}

/// Where two strings first differ, the one with the smaller unit comes first, whatever follows.
pub proof fn lemma_smaller_unit_comes_first(
    prefix: Seq<u16>,
    x: u16,
    y: u16,
    s: Seq<u16>,
    t: Seq<u16>,
)
    requires
        x < y,
    ensures
        order::precedes(prefix + seq![x] + s, prefix + seq![y] + t),
        !order::precedes(prefix + seq![y] + t, prefix + seq![x] + s),
{
    let a = prefix + seq![x] + s;
    let b = prefix + seq![y] + t;
    let n = prefix.len() as int;
    assert(a.take(n) =~= prefix);
    assert(b.take(n) =~= prefix);
    assert(a[n] == x && b[n] == y);
    assert(order::less_at(a, b, n));
    order::lemma_precedes_total(a, b);
}

/// A string comes before any longer one that starts with it.
pub proof fn lemma_prefix_comes_first(prefix: Seq<u16>, y: u16, t: Seq<u16>)
    ensures
        order::precedes(prefix, prefix + seq![y] + t),
        !order::precedes(prefix + seq![y] + t, prefix),
{
    let b = prefix + seq![y] + t;
    let n = prefix.len() as int;
    assert(prefix.take(n) =~= prefix);
    assert(b.take(n) =~= prefix);
    assert(order::less_at(prefix, b, n));
    order::lemma_precedes_total(prefix, b);
}

/// Strings are equal exactly when they have the same code units, however each is stored, and equal
/// to a text exactly when they have the units of its encoding.
pub proof fn lemma_equality(
    a: JsString,
    b: JsString,
    x: JsStr<'_>,
    y: JsStr<'_>,
    units: &[u16],
    text: &str,
)
    ensures
        a.eq_spec(&b) <==> a@ == b@,
        x.eq_spec(&y) <==> x@ == y@,
        a.eq_spec(&x) <==> a@ == x@,
        x.eq_spec(&a) <==> x@ == a@,
        a.eq_spec(units) <==> a@ == units@,
        units.eq_spec(&a) <==> units@ == a@,
        a.eq_spec(text) <==> a@ == utf16::encode_text(text@),
        x.eq_spec(text) <==> x@ == utf16::encode_text(text@),
        text.eq_spec(&a) <==> a@ == utf16::encode_text(text@),
        a.partial_cmp_spec(&b) == Some(compare::order_of(a@, b@)),
        x.partial_cmp_spec(&y) == Some(compare::order_of(x@, y@)),
{
}

// Numbers

/// A text spells what its encoding spells.
pub proof fn lemma_number_of_a_text(text: Seq<char>)
    ensures
        number::text_literal(text) == number::literal(utf16::encode_text(text)),
{
    utf16::lemma_decode_encode_text(text);
}

/// White space around a text makes no difference to the number that it spells.
pub proof fn lemma_number_in_white_space(front: Seq<u16>, text: Seq<char>, back: Seq<u16>)
    requires
        forall|i: int| 0 <= i < front.len() ==> whitespace::is_space(#[trigger] front[i] as int),
        forall|i: int| 0 <= i < back.len() ==> whitespace::is_space(#[trigger] back[i] as int),
        text.len() > 0 ==> !whitespace::is_space(text[0] as int) && !whitespace::is_space(
            text.last() as int,
        ),
    ensures
        number::literal(front + utf16::encode_text(text) + back) == number::literal(
            utf16::encode_text(text),
        ),
{
    let units = utf16::encode_text(text);
    if text.len() > 0 {
        let first = text[0];
        let last = text.last();
        lemma_encoding_of_a_text(Seq::empty(), first, text.skip(1));
        assert(Seq::<char>::empty() + seq![first] + text.skip(1) =~= text);
        assert(units[0] == utf16::encode_text(seq![first])[0]) by {
            lemma_encoding_of_a_char(first);
        }
        lemma_encoding_of_a_text(text.drop_last(), last, Seq::empty());
        assert(text.drop_last() + seq![last] + Seq::<char>::empty() =~= text);
        assert(units.last() == utf16::encode_text(seq![last]).last()) by {
            lemma_encoding_of_a_char(last);
        }
        lemma_encoding_of_a_char(first);
        lemma_encoding_of_a_char(last);
        lemma_trimmable_values(first as int);
        lemma_trimmable_values(last as int);
        lemma_trimmable_values(units[0] as int);
        lemma_trimmable_values(units.last() as int);
    } else {
        assert(text =~= Seq::empty());
        lemma_encoding_of_a_text(Seq::empty(), 'a', Seq::empty());
    }
    lemma_trim_keeps_the_middle(front, units, back);
    number::lemma_literal_of_trimmed(front + units + back);
}

/// What a text without white space at its ends spells.
proof fn lemma_number_of_a_trimmed_text(text: Seq<char>)
    requires
        text.len() > 0,
        !whitespace::is_space(text[0] as int),
        !whitespace::is_space(text.last() as int),
    ensures
        number::literal(utf16::encode_text(text)) == number::trimmed_literal(text),
{
    let space = whitespace::char_space();
    lemma_number_of_a_text(text);
    assert(text.skip(0) =~= text);
    assert(text.take(text.len() as int) =~= text);
    whitespace::lemma_trim_start_at(text, space, 0);
    whitespace::lemma_trim_end_at(text, space, text.len() as int);
}

/// A text that announces no base and does not start like the word "infinity" is left to be read in
/// decimal notation, as it stands.
pub proof fn lemma_decimal_text(text: Seq<char>)
    requires
        text.len() > 0,
        !whitespace::is_space(text[0] as int),
        !whitespace::is_space(text.last() as int),
        !(text.len() > 1 && text[0] == '0' && (text[1] == 'b' || text[1] == 'B' || text[1] == 'o'
            || text[1] == 'O' || text[1] == 'x' || text[1] == 'X')),
        text[0] != 'i' && text[0] != 'I',
        !(text.len() > 1 && (text[0] == '+' || text[0] == '-') && (text[1] == 'i' || text[1]
            == 'I')),
    ensures
        number::literal(utf16::encode_text(text)) == number::Literal::Decimal(text),
{
    reveal_strlit("");
    reveal_strlit("Infinity");
    reveal_strlit("+Infinity");
    reveal_strlit("-Infinity");
    lemma_number_of_a_trimmed_text(text);
}

/// Digits from 0 to 9 are left to be read in decimal notation, with or without a sign.
pub proof fn lemma_decimal_digits(sign: Seq<char>, digits: Seq<char>)
    requires
        sign.len() == 0 || sign == seq!['+'] || sign == seq!['-'],
        digits.len() > 0,
        forall|i: int| 0 <= i < digits.len() ==> '0' <= #[trigger] digits[i] <= '9',
    ensures
        number::literal(utf16::encode_text(sign + digits)) == number::Literal::Decimal(
            sign + digits,
        ),
{
    let text = sign + digits;
    assert(text.last() == digits.last());
    if sign.len() == 0 {
        assert(text[0] == digits[0]);
    } else {
        assert(text[0] == sign[0]);
    }
    if text.len() > 1 {
        assert(text[1] == digits[1 - sign.len()]);
    }
    lemma_trimmable_values(text[0] as int);
    lemma_trimmable_values(text.last() as int);
    lemma_decimal_text(text);
}

/// A text spells no number, before decimal notation is read, only for two reasons: a base is
/// announced and what follows is not one or more digits of that base; or it starts like the word
/// "infinity" and is none of the three spellings of an infinity.
pub proof fn lemma_no_number(text: Seq<char>)
    requires
        text.len() > 0,
        !whitespace::is_space(text[0] as int),
        !whitespace::is_space(text.last() as int),
    ensures
        ({
            let rank = |c: char|
                if '0' <= c <= '9' {
                    c as int - '0' as int
                } else if 'a' <= c <= 'z' {
                    c as int - 'a' as int + 10
                } else if 'A' <= c <= 'Z' {
                    c as int - 'A' as int + 10
                } else {
                    36
                };
            let malformed = |base: int|
                text.len() == 2 || exists|i: int|
                    2 <= i < text.len() && rank(#[trigger] text[i]) >= base;
            let prefixed = text.len() > 1 && text[0] == '0';
            let word = if text[0] == '+' || text[0] == '-' {
                1int
            } else {
                0
            };
            number::literal(utf16::encode_text(text)) is NotANumber <==> {
                ||| prefixed && (text[1] == 'b' || text[1] == 'B') && malformed(2)
                ||| prefixed && (text[1] == 'o' || text[1] == 'O') && malformed(8)
                ||| prefixed && (text[1] == 'x' || text[1] == 'X') && malformed(16)
                ||| {
                    &&& word < text.len() && (text[word] == 'i' || text[word] == 'I')
                    &&& text != "Infinity"@ && text != "+Infinity"@ && text != "-Infinity"@
                }
            }
        }),
{
    reveal_strlit("");
    reveal_strlit("Infinity");
    reveal_strlit("+Infinity");
    reveal_strlit("-Infinity");
    lemma_number_of_a_trimmed_text(text);
    if let Some(base) = number::announced_base(text) {
        let digits = text.skip(2);
        number::lemma_radix_needs_digits(digits, base);
        assert forall|i: int| 2 <= i < text.len() implies #[trigger] text[i] == digits[i - 2] by {}
        assert forall|i: int|
            0 <= i < digits.len() implies #[trigger] digits[i] == text[i + 2] by {}
    }
}

/// A string with a surrogate that is not paired spells no number.
pub proof fn lemma_no_number_with_surrogates(units: Seq<u16>)
    requires
        !utf16::well_formed(units),
    ensures
        number::literal(units) is NotANumber,
{
}

/// Zero is what a string of nothing but white space spells, and no other, before decimal notation
/// is read.
pub proof fn lemma_zero(units: Seq<u16>)
    ensures
        number::literal(units) is Zero <==> forall|i: int|
            0 <= i < units.len() ==> whitespace::is_space(#[trigger] units[i] as int),
{
    reveal_strlit("");
    reveal_strlit("Infinity");
    let all_space = forall|i: int|
        0 <= i < units.len() ==> whitespace::is_space(#[trigger] units[i] as int);
    if all_space {
        assert(units + utf16::encode_text(Seq::empty()) + Seq::empty() =~= units) by {
            lemma_encoding_of_a_text(Seq::empty(), 'a', Seq::empty());
        }
        lemma_number_in_white_space(units, Seq::empty(), Seq::empty());
        lemma_number_of_a_text(Seq::empty());
        assert(Seq::<char>::empty() =~= ""@);
    } else if number::literal(units) is Zero {
        whitespace::lemma_trimmed_text(units);
        let trimmed = whitespace::trim(units);
        let text = utf16::text_of(utf16::decode(trimmed));
        assert(text =~= ""@);
        assert(utf16::decode(trimmed) =~= Seq::empty());
        utf16::lemma_encode_decode(trimmed);
        assert(trimmed.len() == 0);
        let space = whitespace::unit_space();
        let (start, end) = whitespace::lemma_trim_cuts(units, space);
        assert(start == end);
        assert forall|i: int| 0 <= i < units.len() implies whitespace::is_space(
            #[trigger] units[i] as int,
        ) by {
            if i < start {
                assert(space(units.take(start)[i]));
            } else {
                assert(space(units.skip(end)[i - end]));
            }
        }
    }
}

/// The three spellings of an infinity, and no others, spell one, before decimal notation is read.
pub proof fn lemma_infinity(text: Seq<char>)
    requires
        text.len() > 0,
        !whitespace::is_space(text[0] as int),
        !whitespace::is_space(text.last() as int),
    ensures
        number::literal(utf16::encode_text(text)) is Infinity <==> text == "Infinity"@ || text
            == "+Infinity"@,
        number::literal(utf16::encode_text(text)) is NegativeInfinity <==> text == "-Infinity"@,
{
    lemma_number_of_a_trimmed_text(text);
    number::lemma_infinities(text);
}

/// After `0b`, `0o` or `0x`, in either case, digits of base 2, 8 or 16 spell the integer that they
/// denote in that base, as a number where it fits in 32 bits and by the digits where it does not.
pub proof fn lemma_integer_in_a_base(letter: char, digits: Seq<char>, base: int)
    requires
        base == 2 && (letter == 'b' || letter == 'B') || base == 8 && (letter == 'o' || letter
            == 'O') || base == 16 && (letter == 'x' || letter == 'X'),
        digits.len() > 0,
        forall|i: int|
            0 <= i < digits.len() ==> {
                ||| '0' <= #[trigger] digits[i] <= '9' && digits[i] as int - '0' as int <= base - 1
                ||| base == 16 && ('a' <= digits[i] <= 'f' || 'A' <= digits[i] <= 'F')
            },
    ensures
        ({
            let values = Seq::new(
                digits.len(),
                |i: int|
                    if digits[i] <= '9' {
                        digits[i] as int - '0' as int
                    } else if digits[i] <= 'F' {
                        digits[i] as int - 'A' as int + 10
                    } else {
                        digits[i] as int - 'a' as int + 10
                    },
            );
            let value = number::digits_value(values, base);
            number::literal(utf16::encode_text(seq!['0', letter] + digits)) == if value
                <= 0xFFFF_FFFF {
                number::Literal::Integer(value)
            } else {
                number::Literal::Digits { base, digits: values }
            }
        }),
{
    reveal_strlit("");
    reveal_strlit("Infinity");
    reveal_strlit("+Infinity");
    reveal_strlit("-Infinity");
    let text = seq!['0', letter] + digits;
    assert(text.last() == digits.last());
    lemma_trimmable_values(text[0] as int);
    lemma_trimmable_values(text.last() as int);
    lemma_number_of_a_trimmed_text(text);
    assert(text.skip(2) =~= digits);
    assert(number::announced_base(text) == Some(base));
    assert(number::all_digits(digits, base));
    let values = Seq::new(
        digits.len(),
        |i: int|
            if digits[i] <= '9' {
                digits[i] as int - '0' as int
            } else if digits[i] <= 'F' {
                digits[i] as int - 'A' as int + 10
            } else {
                digits[i] as int - 'a' as int + 10
            },
    );
    assert(number::digit_values(digits) =~= values);
}

/// The value of digits: one more digit makes it the base times as much, and that digit more.
pub proof fn lemma_value_of_digits(digits: Seq<int>, digit: int, base: int)
    ensures
        number::digits_value(Seq::empty(), base) == 0,
        number::digits_value(digits.push(digit), base) == number::digits_value(digits, base) * base
            + digit,
{
    assert(digits.push(digit).drop_last() =~= digits);
}

/// The values of letters and digits: 0 to 9 for the digits, 10 to 35 for the letters in either
/// case, and 36 for anything else.
pub proof fn lemma_values_of_characters(text: Seq<char>, base: int, i: int)
    ensures
        number::digit_values(text).len() == text.len(),
        0 <= i < text.len() ==> number::digit_values(text)[i] == if '0' <= text[i] <= '9' {
            text[i] as int - '0' as int
        } else if 'a' <= text[i] <= 'z' {
            text[i] as int - 'a' as int + 10
        } else if 'A' <= text[i] <= 'Z' {
            text[i] as int - 'A' as int + 10
        } else {
            36
        },
        number::all_digits(text, base) <==> forall|j: int|
            0 <= j < number::digit_values(text).len() ==> #[trigger] number::digit_values(text)[j]
                < base,
{
    if number::all_digits(text, base) {
        assert forall|j: int| 0 <= j < text.len() implies #[trigger] number::digit_values(text)[j]
            < base by {
            assert(number::digit_rank(text[j]) < base);
        }
    }
    if forall|j: int|
        0 <= j < number::digit_values(text).len() ==> #[trigger] number::digit_values(text)[j]
            < base {
        assert forall|j: int| 0 <= j < text.len() implies number::digit_rank(#[trigger] text[j])
            < base by {
            assert(number::digit_values(text)[j] < base);
        }
    }
}

/// What is found of a number stands for itself: its kind, its value, its digits or its text.
pub proof fn lemma_found_by_kind(found: number::NumericLiteral)
    ensures
        found is NotANumber <==> found@ is NotANumber,
        found is Zero <==> found@ is Zero,
        found is Infinity <==> found@ is Infinity,
        found is NegativeInfinity <==> found@ is NegativeInfinity,
        found matches number::NumericLiteral::Integer(value) ==> found@ == number::Literal::Integer(
            value as int,
        ),
        found matches number::NumericLiteral::Decimal(text) ==> found@ == number::Literal::Decimal(
            text@,
        ),
        found matches number::NumericLiteral::Digits { base, digits } ==> {
            &&& found@ matches number::Literal::Digits { base: b, digits: values }
            &&& b == base
            &&& values.len() == digits@.len()
            &&& forall|i: int| 0 <= i < values.len() ==> #[trigger] values[i] == digits@[i]
        },
{
}

// Indices and lists of strings

/// An index selects the unit at its position, and is in bounds below the length.
pub proof fn lemma_index_by_position(index: usize, units: Seq<u16>, latin1: bool, value: u16)
    ensures
        index.in_bounds(units.len()) <==> index < units.len(),
        index < units.len() ==> (index.selects(units, latin1, value) <==> value
            == units[index as int]),
{
}

/// A range selects the units from its start up to its end, in the encoding of the string, and is in
/// bounds where these are in order and not past the length.
pub proof fn lemma_range_by_position(
    range: core::ops::Range<usize>,
    units: Seq<u16>,
    latin1: bool,
    value: JsStr<'_>,
    i: int,
)
    ensures
        range.in_bounds(units.len()) <==> range.start <= range.end && range.end <= units.len(),
        range.start <= range.end && range.end <= units.len() && range.selects(
            units,
            latin1,
            value,
        ) ==> {
            &&& value.in_latin1() == latin1
            &&& value@.len() == range.end - range.start
            &&& 0 <= i < value@.len() ==> value@[i] == units[range.start + i]
        },
{
}

/// What is concatenated are the strings of the list, in order; the encoding is that of all of them,
/// with one byte for each unit in Latin1 and two otherwise.
pub proof fn lemma_lists_by_position(borrowed: Seq<JsStr<'_>>, owned: Seq<JsString>, i: int)
    ensures
        js_string::units_of(borrowed).len() == borrowed.len(),
        0 <= i < borrowed.len() ==> js_string::units_of(borrowed)[i] == borrowed[i]@,
        convert::units_of(owned).len() == owned.len(),
        0 <= i < owned.len() ==> convert::units_of(owned)[i] == owned[i]@,
        js_string::all_latin1(borrowed) <==> forall|j: int|
            0 <= j < borrowed.len() ==> (#[trigger] borrowed[j]).in_latin1(),
        convert::all_latin1(owned) <==> forall|j: int|
            0 <= j < owned.len() ==> (#[trigger] owned[j]).in_latin1(),
        js_string::unit_size(true) == 1,
        js_string::unit_size(false) == 2,
{
}

/// A static string has a unit for each character of its text, with the character's value, and the
/// static strings are those with such units.
pub proof fn lemma_static_by_position(index: usize, units: Seq<u16>, i: int)
    requires
        index < StaticJsStrings::COUNT,
    ensures
        common::is_static_units(common::static_units(index)),
        common::static_units(index).len() == common::static_text(index).len(),
        0 <= i < common::static_text(index).len() ==> common::static_units(index)[i] as int
            == common::static_text(index)[i] as int,
        common::static_units(index) == utf16::encode_text(common::static_text(index)),
        common::is_static_units(units) ==> exists|j: usize|
            j < StaticJsStrings::COUNT && #[trigger] common::static_units(j) == units,
{
    common::lemma_static_text_is_ascii(index);
    convert::lemma_ascii_units(common::static_text(index));
    let text = common::static_text(index);
    if 0 <= i < text.len() {
        assert(text[i] as int <= 0x7F);
    }
}

// Memory

/// A block is the shortest whole number of words with room for two words and the units; it fits
/// when it is no longer than `isize::MAX`; and it has room for as many units as go into what the
/// two words leave.
#[verifier::spinoff_prover]
pub proof fn lemma_block_arithmetic(len: int, unit_size: int)
    requires
        0 <= len,
        unit_size == 1 || unit_size == 2,
    ensures
        ({
            let word = usize::BITS as int / 8;
            let size = layout::block_size(len, unit_size);
            let room = layout::usable_capacity(len, unit_size);
            &&& size % word == 0
            &&& 2 * word + len * unit_size <= size < 3 * word + len * unit_size
            &&& layout::fits(len, unit_size) <==> size <= isize::MAX
            &&& layout::header_size() == 2 * word
            &&& room * unit_size <= size - 2 * word < (room + 1) * unit_size
        }),
{
    layout::lemma_block_size(len, unit_size);
    let word = layout::word_size();
    let size = layout::block_size(len, unit_size);
    let content = layout::header_size() + len * unit_size;
    if word == 4 {
        let words = (content + 3) / 4;
        assert(size == words * 4);
        assert(size % 4 == 0);
    } else {
        let words = (content + 7) / 8;
        assert(size == words * 8);
        assert(size % 8 == 0);
    }
    let room = layout::usable_capacity(len, unit_size);
    if unit_size == 1 {
        assert(room == size - 2 * word);
        assert(room * unit_size == room && (room + 1) * unit_size == room + 1);
    } else {
        assert(room == (size - 2 * word) / 2);
        assert(room * unit_size == room * 2 && (room + 1) * unit_size == room * 2 + 2);
    }
}

/// A builder that grows asks for the largest of what is required, twice what it had, and eight
/// bytes.
pub proof fn lemma_requested_capacity(capacity: int, required: int, size: int)
    requires
        0 <= capacity,
        size == 1 || size == 2,
    ensures
        ({
            let requested = builder::requested_capacity(capacity, required, size);
            &&& requested >= required
            &&& requested >= 2 * capacity
            &&& requested * size >= 8
            &&& requested == required || requested == 2 * capacity || requested * size == 8
        }),
{
}

/// A builder grows exactly when there is too little room, if the larger block fits.
pub proof fn lemma_when_builders_grow(capacity: int, required: int, size: int)
    ensures
        required <= capacity ==> builder::can_hold(capacity, required, size)
            && builder::sufficient_capacity(capacity, required, size) == capacity,
        required > capacity ==> (builder::can_hold(capacity, required, size) <==> layout::fits(
            builder::requested_capacity(capacity, required, size),
            size,
        )),
        required > capacity ==> builder::sufficient_capacity(capacity, required, size)
            == layout::usable_capacity(
            builder::requested_capacity(capacity, required, size),
            size,
        ),
{
}

/// Appending one by one is making room for one more, each time where it is missing.
pub proof fn lemma_pushing_step(capacity: int, len: int, count: nat, size: int)
    ensures
        builder::can_push(capacity, len, 0, size),
        builder::pushed_capacity(capacity, len, 0, size) == capacity,
        ({
            let next = builder::sufficient_capacity(capacity, len + 1, size);
            &&& builder::can_push(capacity, len, count + 1, size) <==> builder::can_hold(
                capacity,
                len + 1,
                size,
            ) && builder::can_push(next, len + 1, count, size)
            &&& builder::pushed_capacity(capacity, len, count + 1, size)
                == builder::pushed_capacity(next, len + 1, count, size)
        }),
{
}

/// Extending where doubling the room is impossible: what was announced, or else each item, gets
/// exactly the room that is required, and what fits no block gets none.
pub proof fn lemma_extending_without_doubling(capacity: int, required: int, size: int)
    requires
        !builder::can_hold(capacity, required, size),
    ensures
        layout::fits(required, size) ==> builder::attainable_capacity(capacity, required, size)
            == layout::usable_capacity(required, size),
        !layout::fits(required, size) ==> builder::attainable_capacity(capacity, required, size)
            == capacity,
{
}

/// Extending step by step: what was announced first, then room for one more item each time.
pub proof fn lemma_extending_step(
    capacity: int,
    len: int,
    lower_bound: int,
    count: nat,
    size: int,
)
    requires
        0 <= len <= capacity,
        0 <= lower_bound,
        size == 1 || size == 2,
    ensures
        ({
            let prepared = builder::attainable_capacity(capacity, len + lower_bound, size);
            let next = builder::attainable_capacity(prepared, len + 1, size);
            &&& builder::extended_capacity(capacity, len, lower_bound, 0, size) == prepared
            &&& builder::extended_capacity(capacity, len, lower_bound, count + 1, size)
                == builder::extended_capacity(next, len + 1, 0, count, size)
        }),
{
    let prepared = builder::attainable_capacity(capacity, len + lower_bound, size);
    let next = builder::attainable_capacity(prepared, len + 1, size);
    builder::lemma_grown_capacity(capacity, len + lower_bound, size);
    layout::lemma_usable_capacity(len + lower_bound, size);
    builder::lemma_grown_capacity(prepared, len + 1, size);
    layout::lemma_usable_capacity(len + 1, size);
    assert(builder::attainable_capacity(next, len + 1, size) == next);
}

/// What appending leaves written: what was before the position, what was added, and what was
/// behind that.
pub proof fn lemma_overwrite_by_position<D>(items: Seq<D>, at: int, added: Seq<D>, i: int)
    requires
        0 <= at <= items.len(),
    ensures
        ({
            let written = builder::overwrite(items, at, added);
            &&& written.len() == if at + added.len() < items.len() {
                items.len() as int
            } else {
                (at + added.len()) as int
            }
            &&& 0 <= i < at ==> written[i] == items[i]
            &&& at <= i < at + added.len() ==> written[i] == added[i - at]
            &&& at + added.len() <= i < items.len() ==> written[i] == items[i]
        }),
{
}

/// What is built has a unit for each element, of the same value.
pub proof fn lemma_built_by_position(bytes: Seq<u8>, units: Seq<u16>, i: int)
    ensures
        builder::units_of(bytes).len() == bytes.len(),
        0 <= i < bytes.len() ==> builder::units_of(bytes)[i] == bytes[i],
        builder::units_of(units).len() == units.len(),
        0 <= i < units.len() ==> builder::units_of(units)[i] == units[i],
        u8::size() == 1,
        u16::size() == 2,
        forall|byte: u8| #[trigger] byte.as_unit() as int == byte as int,
        forall|unit: u16| #[trigger] unit.as_unit() == unit,
{
}

/// The word of a string's length and flag is twice the length, and one more in Latin1.
pub proof fn lemma_flag_word(len: int)
    ensures
        layout::flags_and_len(len, false) == 2 * len,
        layout::flags_and_len(len, true) == 2 * len + 1,
{
}

} // verus!
