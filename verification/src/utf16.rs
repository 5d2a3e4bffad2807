//! The UTF-16 encoding form: how sequences of 16-bit code units stand for sequences of code
//! points.

use vstd::prelude::*;

use crate::code_point::CodePoint;

verus! {

/// The units that open a surrogate pair.
pub open spec fn is_lead(unit: u16) -> bool {
    0xD800 <= unit <= 0xDBFF
}

/// The units that close a surrogate pair.
pub open spec fn is_trail(unit: u16) -> bool {
    0xDC00 <= unit <= 0xDFFF
}

/// The units that are no scalar value by themselves.
pub open spec fn is_surrogate(unit: u16) -> bool {
    0xD800 <= unit <= 0xDFFF
}

/// The scalar value that a surrogate pair stands for.
pub open spec fn pair_char(lead: u16, trail: u16) -> char {
    (0x10000 + (lead - 0xD800) * 0x400 + (trail - 0xDC00)) as char
}

/// Whether `units` starts with a surrogate pair.
pub open spec fn starts_with_pair(units: Seq<u16>) -> bool {
    units.len() >= 2 && is_lead(units[0]) && is_trail(units[1])
}

/// The code point that the non-empty sequence `units` starts with.
pub open spec fn first_code_point(units: Seq<u16>) -> CodePoint {
    if !is_surrogate(units[0]) {
        CodePoint::Unicode(units[0] as char)
    } else if starts_with_pair(units) {
        CodePoint::Unicode(pair_char(units[0], units[1]))
    } else {
        CodePoint::UnpairedSurrogate(units[0])
    }
}

/// How many units the first code point of `units` takes.
pub open spec fn first_width(units: Seq<u16>) -> int {
    if starts_with_pair(units) {
        2
    } else {
        1
    }
}

/// The code points that `units` stands for, from left to right.
pub open spec fn decode(units: Seq<u16>) -> Seq<CodePoint>
    decreases units.len(),
{
    if units.len() == 0 {
        seq![]
    } else {
        seq![first_code_point(units)] + decode(units.skip(first_width(units)))
    }
}

/// The one or two units that stand for a scalar value.
pub open spec fn encode_char(c: char) -> Seq<u16> {
    let value = c as int;
    if value < 0x10000 {
        seq![value as u16]
    } else {
        seq![
            (0xD800 + (value - 0x10000) / 0x400) as u16,
            (0xDC00 + (value - 0x10000) % 0x400) as u16,
        ]
    }
}

/// The units of each code point in turn.
pub open spec fn encode(points: Seq<CodePoint>) -> Seq<u16>
    decreases points.len(),
{
    if points.len() == 0 {
        seq![]
    } else {
        points[0].units() + encode(points.skip(1))
    }
}

/// The code point of a character.
pub open spec fn scalar(c: char) -> CodePoint {
    CodePoint::Unicode(c)
}

/// The code points of a text.
pub open spec fn scalars(text: Seq<char>) -> Seq<CodePoint> {
    text.map_values(|c: char| scalar(c))
}

/// The UTF-16 encoding of a text.
pub open spec fn encode_text(text: Seq<char>) -> Seq<u16> {
    encode(scalars(text))
}

/// Whether every code point is a scalar value.
pub open spec fn all_scalars(points: Seq<CodePoint>) -> bool {
    forall|i: int| 0 <= i < points.len() ==> #[trigger] points[i] is Unicode
}

/// Whether `units` holds no unpaired surrogate, so that it is the encoding of a text.
pub open spec fn well_formed(units: Seq<u16>) -> bool {
    all_scalars(decode(units))
}

/// The text that a sequence of scalar values spells. An unpaired surrogate among them would stand
/// as the replacement character.
pub open spec fn text_of(points: Seq<CodePoint>) -> Seq<char> {
    Seq::new(
        points.len(),
        |i: int|
            match points[i] {
                CodePoint::Unicode(c) => c,
                CodePoint::UnpairedSurrogate(_) => '\u{FFFD}',
            },
    )
}

/// The code point read from its first unit and the one that follows it, if any.
pub fn read_code_point(first: u16, second: Option<u16>) -> (point: CodePoint)
    ensures
        point == first_code_point(
            match second {
                Some(unit) => seq![first, unit],
                None => seq![first],
            },
        ),
{
    let ghost units = match second {
        Some(unit) => seq![first, unit],
        None => seq![first],
    };
    assert(units[0] == first);
    if first < 0xD800 || first > 0xDFFF {
        if let Some(c) = char::from_u32(first as u32) {
            assert(c == units[0] as char);
            return CodePoint::Unicode(c);
        }
    } else if let Some(unit) = second {
        assert(units[1] == unit);
        if first <= 0xDBFF && 0xDC00 <= unit && unit <= 0xDFFF {
            let value: u32 = 0x10000 + (first as u32 - 0xD800) * 0x400 + (unit as u32 - 0xDC00);
            if let Some(c) = char::from_u32(value) {
                assert(c == pair_char(first, unit));
                return CodePoint::Unicode(c);
            }
        }
    }
    CodePoint::UnpairedSurrogate(first)
}

/// Appends the units of a scalar value to `units`.
pub fn push_char(units: &mut Vec<u16>, c: char)
    ensures
        final(units)@ == old(units)@ + encode_char(c),
{
    let value = c as u32;
    if value < 0x10000 {
        units.push(value as u16);
    } else {
        let offset = value - 0x10000;
        units.push((0xD800 + offset / 0x400) as u16);
        units.push((0xDC00 + offset % 0x400) as u16);
    }
    assert(units@ =~= old(units)@ + encode_char(c));
}

/// The UTF-16 encoding of `text`.
pub fn encode_str(text: &str) -> (units: Vec<u16>)
    ensures
        units@ == encode_text(text@),
{
    let mut units: Vec<u16> = Vec::new();
    proof {
        assert(scalars(text@.take(0)) =~= seq![]);
        assert(encode_text(text@.take(0)) =~= seq![]);
    }
    for c in chars: text.chars()
        invariant
            chars.seq() == text@,
            units@ == encode_text(text@.take(chars.index())),
    {
        proof {
            lemma_encode_text_push(text@.take(chars.index()), c);
            assert(text@.take(chars.index()).push(c) =~= text@.take(chars.index() + 1));
        }
        push_char(&mut units, c);
    }
    assert(text@.take(text@.len() as int) =~= text@);
    units
}

/// Encoding a concatenation is concatenating the encodings.
pub proof fn lemma_encode_concat(a: Seq<CodePoint>, b: Seq<CodePoint>)
    ensures
        encode(a + b) == encode(a) + encode(b),
    decreases a.len(),
{
    if a.len() == 0 {
        assert(a + b =~= b);
        assert(encode(a) + encode(b) =~= encode(b));
    } else {
        lemma_encode_concat(a.skip(1), b);
        assert((a + b).skip(1) =~= a.skip(1) + b);
        assert(encode(a + b) =~= encode(a) + encode(b));
    }
}

/// The encoding of one code point alone is its units.
pub proof fn lemma_encode_one(point: CodePoint)
    ensures
        encode(seq![point]) == point.units(),
{
    assert(seq![point].skip(1) =~= seq![]);
    assert(encode(seq![]) =~= seq![]);
    assert(encode(seq![point]) =~= point.units());
}

proof fn lemma_encode_text_push(text: Seq<char>, c: char)
    ensures
        encode_text(text.push(c)) == encode_text(text) + encode_char(c),
{
    let point = scalar(c);
    lemma_encode_concat(scalars(text), seq![point]);
    lemma_encode_one(point);
    assert(scalars(text.push(c)) =~= scalars(text) + seq![point]);
}

/// The UTF-16 encoding of two texts one after the other is the two encodings one after the other.
pub proof fn lemma_encode_text_concat(a: Seq<char>, b: Seq<char>)
    ensures
        encode_text(a + b) == encode_text(a) + encode_text(b),
{
    lemma_encode_concat(scalars(a), scalars(b));
    assert(scalars(a + b) =~= scalars(a) + scalars(b));
}

/// Encoding the code points of a string gives the string back: decoding loses nothing, unpaired
/// surrogates included.
pub proof fn lemma_encode_decode(units: Seq<u16>)
    ensures
        encode(decode(units)) == units,
    decreases units.len(),
{
    if units.len() > 0 {
        let width = first_width(units);
        let rest = units.skip(width);
        lemma_encode_decode(rest);
        assert(decode(units).skip(1) =~= decode(rest));
        lemma_first_units(units);
        assert(units =~= units.take(width) + rest);
    }
}

/// The first code point of a string is encoded by the units that it was read from.
pub proof fn lemma_first_units(units: Seq<u16>)
    requires
        units.len() > 0,
    ensures
        first_width(units) <= units.len(),
        first_code_point(units).units() == units.take(first_width(units)),
{
    let first = first_code_point(units);
    if starts_with_pair(units) {
        let value = 0x10000 + (units[0] - 0xD800) * 0x400 + (units[1] - 0xDC00);
        assert(0x10000 <= value <= 0x10FFFF);
        assert(first->Unicode_0 as int == value);
    }
    assert(first.units() =~= units.take(first_width(units)));
}

/// Decoding the encoding of a text gives the text back.
pub proof fn lemma_decode_encode_text(text: Seq<char>)
    ensures
        decode(encode_text(text)) == scalars(text),
        well_formed(encode_text(text)),
        text_of(decode(encode_text(text))) == text,
    decreases text.len(),
{
    let units = encode_text(text);
    if text.len() > 0 {
        let c = text[0];
        let rest = text.skip(1);
        lemma_decode_encode_text(rest);
        assert(scalars(text).skip(1) =~= scalars(rest));
        assert(units == encode_char(c) + encode_text(rest));
        let value = c as int;
        if value < 0x10000 {
            assert(!is_surrogate(units[0]));
        } else {
            let offset = value - 0x10000;
            assert(offset == (offset / 0x400) * 0x400 + offset % 0x400);
            assert(0 <= offset / 0x400 < 0x400);
            assert(is_lead(units[0]) && is_trail(units[1]));
        }
        assert(first_code_point(units) == CodePoint::Unicode(c));
        assert(units.skip(first_width(units)) =~= encode_text(rest));
        assert(decode(units) =~= scalars(text));
    }
    assert(text_of(scalars(text)) =~= text);
}

/// A well-formed string is the encoding of its text.
pub proof fn lemma_encode_text_of(units: Seq<u16>)
    requires
        well_formed(units),
    ensures
        encode_text(text_of(decode(units))) == units,
{
    lemma_encode_decode(units);
    assert(scalars(text_of(decode(units))) =~= decode(units));
}

/// A string is well-formed exactly when it is the encoding of some text.
pub proof fn lemma_well_formed_iff_encoding(units: Seq<u16>)
    ensures
        well_formed(units) <==> exists|text: Seq<char>| #[trigger] encode_text(text) == units,
{
    if well_formed(units) {
        lemma_encode_text_of(units);
    }
    if exists|text: Seq<char>| #[trigger] encode_text(text) == units {
        let text = choose|text: Seq<char>| #[trigger] encode_text(text) == units;
        lemma_decode_encode_text(text);
    }
}

/// Units outside the surrogate range each stand for themselves.
pub proof fn lemma_decode_no_surrogates(units: Seq<u16>)
    requires
        forall|i: int| 0 <= i < units.len() ==> !is_surrogate(#[trigger] units[i]),
    ensures
        decode(units) == Seq::new(units.len(), |i: int| CodePoint::Unicode(units[i] as char)),
        well_formed(units),
    decreases units.len(),
{
    if units.len() > 0 {
        lemma_decode_no_surrogates(units.skip(1));
        assert(decode(units) =~= Seq::new(
            units.len(),
            |i: int| CodePoint::Unicode(units[i] as char),
        ));
    }
}

/// Different texts have different encodings.
pub proof fn lemma_encode_text_injective(a: Seq<char>, b: Seq<char>)
    requires
        encode_text(a) == encode_text(b),
    ensures
        a == b,
{
    lemma_decode_encode_text(a);
    lemma_decode_encode_text(b);
}

/// The code points of two strings one after the other are those of the first, then those of the
/// second, unless a surrogate pair comes about where they meet.
pub proof fn lemma_decode_concat(a: Seq<u16>, b: Seq<u16>)
    requires
        !(a.len() > 0 && b.len() > 0 && is_lead(a.last()) && is_trail(b[0])),
    ensures
        decode(a + b) == decode(a) + decode(b),
    decreases a.len(),
{
    if a.len() == 0 {
        assert(a + b =~= b);
        assert(decode(a) + decode(b) =~= decode(b));
    } else {
        let width = first_width(a);
        lemma_first_units(a);
        assert(starts_with_pair(a + b) == starts_with_pair(a));
        assert(first_code_point(a + b) == first_code_point(a));
        assert((a + b).skip(width) =~= a.skip(width) + b);
        lemma_decode_concat(a.skip(width), b);
        assert(decode(a + b) =~= decode(a) + decode(b));
    }
}

/// The surrogates that decoding leaves unpaired are surrogates, and no lead among them is directly
/// followed by a trail, with which it would have made a pair.
pub proof fn lemma_decode_unpaired(units: Seq<u16>)
    ensures
        forall|i: int|
            0 <= i < decode(units).len() ==> (#[trigger] decode(
                units,
            )[i] matches CodePoint::UnpairedSurrogate(surr) ==> is_surrogate(surr)),
        forall|i: int, j: int|
            0 <= i && j == i + 1 && j < decode(units).len() ==> !(is_unpaired_lead(
                #[trigger] decode(units)[i],
            ) && is_unpaired_trail(#[trigger] decode(units)[j])),
    decreases units.len(),
{
    if units.len() > 0 {
        let rest = units.skip(first_width(units));
        lemma_first_units(units);
        lemma_decode_unpaired(rest);
        let points = decode(units);
        assert forall|i: int| 0 <= i < points.len() implies (
        #[trigger] points[i] matches CodePoint::UnpairedSurrogate(surr) ==> is_surrogate(surr)) by {
            if i > 0 {
                assert(points[i] == decode(rest)[i - 1]);
            }
        }
        assert forall|i: int, j: int|
            0 <= i && j == i + 1 && j < points.len() implies !(is_unpaired_lead(
            #[trigger] points[i],
        ) && is_unpaired_trail(#[trigger] points[j])) by {
            assert(points[j] == decode(rest)[j - 1]);
            if i > 0 {
                assert(points[i] == decode(rest)[i - 1]);
            } else {
                assert(points[1] == first_code_point(rest));
            }
        }
    }
}

/// Whether a code point is a surrogate that would open a pair.
pub open spec fn is_unpaired_lead(point: CodePoint) -> bool {
    point matches CodePoint::UnpairedSurrogate(surr) && is_lead(surr)
}

/// Whether a code point is a surrogate that would close a pair.
pub open spec fn is_unpaired_trail(point: CodePoint) -> bool {
    point matches CodePoint::UnpairedSurrogate(surr) && is_trail(surr)
}

/// The text of code points one after the other is the text of the first, then that of the second,
/// and they are all scalar values when both are.
pub proof fn lemma_text_of_concat(a: Seq<CodePoint>, b: Seq<CodePoint>)
    ensures
        text_of(a + b) == text_of(a) + text_of(b),
        all_scalars(a + b) <==> all_scalars(a) && all_scalars(b),
{
    assert(text_of(a + b) =~= text_of(a) + text_of(b));
    if all_scalars(a + b) {
        assert forall|i: int| 0 <= i < a.len() implies #[trigger] a[i] is Unicode by {
            assert(a[i] == (a + b)[i]);
        }
        assert forall|i: int| 0 <= i < b.len() implies #[trigger] b[i] is Unicode by {
            assert(b[i] == (a + b)[a.len() + i]);
        }
    }
    if all_scalars(a) && all_scalars(b) {
        assert forall|i: int| 0 <= i < (a + b).len() implies #[trigger] (a + b)[i] is Unicode by {
            if i < a.len() {
                assert((a + b)[i] == a[i]);
            } else {
                assert((a + b)[i] == b[i - a.len()]);
            }
        }
    }
}

/// The position of a code point in a string: the units of those before it come first, and the
/// string from there on starts with it.
pub proof fn lemma_code_point_position(units: Seq<u16>, k: int)
    requires
        0 <= k < decode(units).len(),
    ensures
        ({
            let position = encode(decode(units).take(k)).len() as int;
            &&& position < units.len()
            &&& first_code_point(units.skip(position)) == decode(units)[k]
        }),
    decreases k,
{
    let points = decode(units);
    if k == 0 {
        assert(points.take(0) =~= seq![]);
        assert(units.skip(0) =~= units);
    } else {
        let width = first_width(units);
        let rest = units.skip(width);
        lemma_first_units(units);
        assert(points.skip(1) =~= decode(rest));
        lemma_code_point_position(rest, k - 1);
        assert(points.take(k).skip(1) =~= decode(rest).take(k - 1));
        let position = encode(decode(rest).take(k - 1)).len() as int;
        assert(rest.skip(position) =~= units.skip(width + position));
    }
}

/// How many units the code points take together.
pub open spec fn total_width(points: Seq<CodePoint>) -> nat
    decreases points.len(),
{
    if points.len() == 0 {
        0
    } else {
        points[0].units().len() + total_width(points.skip(1))
    }
}

/// A string is as long as its code points are wide.
pub proof fn lemma_total_width(units: Seq<u16>)
    ensures
        total_width(decode(units)) == units.len(),
    decreases units.len(),
{
    if units.len() > 0 {
        let rest = units.skip(first_width(units));
        lemma_first_units(units);
        lemma_total_width(rest);
        assert(decode(units).skip(1) =~= decode(rest));
    }
}

} // verus!
