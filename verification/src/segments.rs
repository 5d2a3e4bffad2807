//! Text with unpaired surrogates in it: its division into text and surrogates, and its escaped
//! form.

use vstd::prelude::*;

use crate::code_point::CodePoint;
use crate::utf16;

verus! {

/// A part of a string: a stretch of text, or one unpaired surrogate.
pub ghost enum Segment {
    Text(Seq<char>),
    Surrogate(u16),
}

impl Segment {
    /// The code units of the segment.
    pub open spec fn units(self) -> Seq<u16> {
        match self {
            Segment::Text(text) => utf16::encode_text(text),
            Segment::Surrogate(surr) => seq![surr],
        }
    }
}

/// The segment that a `Result` stands for, in which the surrogates are the errors.
pub open spec fn as_segment(part: Result<String, u16>) -> Segment {
    match part {
        Ok(string) => Segment::Text(string@),
        Err(surr) => Segment::Surrogate(surr),
    }
}

/// How many scalar values `points` starts with.
pub open spec fn text_run(points: Seq<CodePoint>) -> nat
    decreases points.len(),
{
    if points.len() > 0 && points[0] is Unicode {
        1 + text_run(points.skip(1))
    } else {
        0
    }
}

/// The run of scalar values that `points` starts with ends at a surrogate or at the end.
pub proof fn lemma_text_run(points: Seq<CodePoint>)
    ensures
        text_run(points) <= points.len(),
        utf16::all_scalars(points.take(text_run(points) as int)),
        text_run(points) < points.len() ==> points[text_run(points) as int] is UnpairedSurrogate,
    decreases points.len(),
{
    if points.len() > 0 && points[0] is Unicode {
        let rest = points.skip(1);
        lemma_text_run(rest);
        let n = text_run(points) as int;
        assert forall|i: int| 0 <= i < n implies #[trigger] points.take(n)[i] is Unicode by {
            if i > 0 {
                assert(points.take(n)[i] == rest.take(n - 1)[i - 1]);
            }
        }
    }
}

/// `points` divided into its surrogates and the stretches of text between them, each as long as
/// possible.
pub open spec fn segments(points: Seq<CodePoint>) -> Seq<Segment>
    decreases points.len(),
{
    if points.len() == 0 {
        seq![]
    } else {
        match points[0] {
            CodePoint::UnpairedSurrogate(surr) => seq![Segment::Surrogate(surr)] + segments(
                points.skip(1),
            ),
            CodePoint::Unicode(_) => {
                proof {
                    lemma_text_run(points);
                }
                let n = text_run(points) as int;
                seq![Segment::Text(utf16::text_of(points.take(n)))] + segments(points.skip(n))
            },
        }
    }
}

/// The code units of each segment.
pub open spec fn segment_units(parts: Seq<Segment>) -> Seq<Seq<u16>> {
    parts.map_values(|part: Segment| part.units())
}

/// The segments of a string put together again are the string.
pub proof fn lemma_segments_units(points: Seq<CodePoint>)
    ensures
        segment_units(segments(points)).flatten() == utf16::encode(points),
    decreases points.len(),
{
    let parts = segments(points);
    if points.len() == 0 {
        assert(segment_units(parts) =~= seq![]);
        assert(segment_units(parts).flatten() =~= seq![]);
    } else {
        let n: int = if points[0] is Unicode {
            text_run(points) as int
        } else {
            1
        };
        lemma_text_run(points);
        lemma_segments_units(points.skip(n));
        assert(segment_units(parts).drop_first() =~= segment_units(segments(points.skip(n))));
        utf16::lemma_encode_concat(points.take(n), points.skip(n));
        assert(points.take(n) + points.skip(n) =~= points);
        if points[0] is Unicode {
            assert(utf16::scalars(utf16::text_of(points.take(n))) =~= points.take(n));
        } else {
            utf16::lemma_encode_one(points[0]);
            assert(points.take(1) =~= seq![points[0]]);
        }
        assert(segment_units(parts).first() == utf16::encode(points.take(n)));
    }
}

/// No stretch of text is empty, and no two stretches of text stand next to each other.
pub proof fn lemma_segments_maximal(points: Seq<CodePoint>)
    ensures
        forall|i: int|
            0 <= i < segments(points).len() ==> (#[trigger] segments(
                points,
            )[i] matches Segment::Text(text) ==> text.len() > 0),
        forall|i: int, j: int|
            0 <= i && j == i + 1 && j < segments(points).len() && #[trigger] segments(
                points,
            )[i] is Text ==> #[trigger] segments(points)[j] is Surrogate,
        points.len() > 0 ==> (segments(points)[0] is Text <==> points[0] is Unicode),
    decreases points.len(),
{
    if points.len() > 0 {
        let n: int = if points[0] is Unicode {
            text_run(points) as int
        } else {
            1
        };
        lemma_text_run(points);
        let rest = segments(points.skip(n));
        lemma_segments_maximal(points.skip(n));
        let all = segments(points);
        assert forall|i: int| 0 <= i < all.len() implies (#[trigger] all[i] matches Segment::Text(
            text,
        ) ==> text.len() > 0) by {
            if i > 0 {
                assert(all[i] == rest[i - 1]);
            }
        }
        assert forall|i: int, j: int|
            0 <= i && j == i + 1 && j < all.len()
                && #[trigger] all[i] is Text implies #[trigger] all[j] is Surrogate by {
            assert(all[j] == rest[j - 1]);
            if i > 0 {
                assert(all[i] == rest[i - 1]);
            } else {
                assert(points.skip(n)[0] == points[n]);
            }
        }
    }
}

/// Divides code points into surrogates and the stretches of text between them.
pub(crate) fn split_segments(points: &Vec<CodePoint>) -> (parts: Vec<Result<String, u16>>)
    ensures
        parts@.map_values(|part: Result<String, u16>| as_segment(part)) == segments(points@),
{
    let mut parts: Vec<Result<String, u16>> = Vec::new();
    let mut i: usize = 0;
    let ghost view = |part: Result<String, u16>| as_segment(part);
    assert(points@.skip(0) =~= points@);
    assert(parts@.map_values(view) + segments(points@) =~= segments(points@));
    while i < points.len()
        invariant
            i <= points@.len(),
            view == |part: Result<String, u16>| as_segment(part),
            segments(points@) == parts@.map_values(view) + segments(points@.skip(i as int)),
        decreases points@.len() - i,
    {
        let ghost rest = points@.skip(i as int);
        let ghost start = i;
        let ghost before = parts@;
        match points[i] {
            CodePoint::UnpairedSurrogate(surr) => {
                parts.push(Err(surr));
                i += 1;
                proof {
                    assert(rest.skip(1) =~= points@.skip(i as int));
                }
            },
            CodePoint::Unicode(_) => {
                let mut string = String::new();
                proof {
                    lemma_text_run(rest);
                    assert(rest.skip(0) =~= rest);
                    assert(utf16::text_of(rest.take(0)) =~= seq![]);
                }
                while i < points.len()
                    invariant
                        start <= i <= points@.len(),
                        start < points@.len(),
                        rest == points@.skip(start as int),
                        text_run(rest) == i - start + text_run(points@.skip(i as int)),
                        text_run(rest) <= rest.len(),
                        string@ == utf16::text_of(rest.take(i - start)),
                    ensures
                        start <= i <= points@.len(),
                        text_run(rest) == i - start,
                        string@ == utf16::text_of(rest.take(i - start)),
                    decreases points@.len() - i,
                {
                    let c = match points[i] {
                        CodePoint::Unicode(c) => c,
                        CodePoint::UnpairedSurrogate(_) => {
                            break ;
                        },
                    };
                    string.push(c);
                    proof {
                        let n = i - start;
                        assert(points@.skip(i as int).skip(1) =~= points@.skip(i + 1));
                        assert(utf16::text_of(rest.take(n)).push(c) =~= utf16::text_of(
                            rest.take(n + 1),
                        ));
                    }
                    i += 1;
                }
                parts.push(Ok(string));
                proof {
                    assert(rest.skip(i - start) =~= points@.skip(i as int));
                }
            },
        }
        assert(parts@.map_values(view) =~= before.map_values(view).push(
            as_segment(parts@.last()),
        ));
        assert(parts@.map_values(view) + segments(points@.skip(i as int)) =~= before.map_values(
            view,
        ) + segments(rest));
    }
    assert(parts@.map_values(view) + segments(points@.skip(i as int)) =~= parts@.map_values(view));
    parts
}

/// The digit with this value below 16, in upper case.
pub open spec fn hex_digit(value: int) -> char {
    if value < 10 {
        ('0' as int + value) as char
    } else {
        ('A' as int + value - 10) as char
    }
}

/// A scalar value stands for itself; an unpaired surrogate is written as `\u` and its four
/// hexadecimal digits.
pub open spec fn escape_point(point: CodePoint) -> Seq<char> {
    match point {
        CodePoint::Unicode(c) => seq![c],
        CodePoint::UnpairedSurrogate(surr) => seq![
            '\\',
            'u',
            hex_digit(surr as int / 0x1000),
            hex_digit(surr as int / 0x100 % 0x10),
            hex_digit(surr as int / 0x10 % 0x10),
            hex_digit(surr as int % 0x10),
        ],
    }
}

/// The escaped form of a string with these code points.
pub open spec fn escape(points: Seq<CodePoint>) -> Seq<char> {
    points.map_values(|point: CodePoint| escape_point(point)).flatten()
}

/// The digit with this value, in upper case.
fn to_hex_digit(value: u16) -> (digit: char)
    requires
        value < 0x10,
    ensures
        digit == hex_digit(value as int),
{
    if value < 10 {
        (0x30 + value as u8) as char
    } else {
        (0x41 + (value as u8 - 10)) as char
    }
}

/// The escaped form of a string with these code points.
pub(crate) fn escape_points(points: &Vec<CodePoint>) -> (text: String)
    ensures
        text@ == escape(points@),
{
    let mut text = String::new();
    let ghost pieces = points@.map_values(|point: CodePoint| escape_point(point));
    assert(pieces.take(0) =~= seq![]);
    for i in 0..points.len()
        invariant
            pieces == points@.map_values(|point: CodePoint| escape_point(point)),
            text@ == pieces.take(i as int).flatten(),
    {
        let ghost before = text@;
        match points[i] {
            CodePoint::Unicode(c) => {
                text.push(c);
            },
            CodePoint::UnpairedSurrogate(surr) => {
                text.push('\\');
                text.push('u');
                text.push(to_hex_digit(surr / 0x1000));
                text.push(to_hex_digit(surr / 0x100 % 0x10));
                text.push(to_hex_digit(surr / 0x10 % 0x10));
                text.push(to_hex_digit(surr % 0x10));
            },
        }
        proof {
            assert(text@ =~= before + pieces[i as int]);
            assert(pieces.take(i + 1) =~= pieces.take(i as int).push(pieces[i as int]));
            pieces.take(i as int).lemma_flatten_push(pieces[i as int]);
        }
    }
    assert(pieces.take(points@.len() as int) =~= pieces);
    text
}

/// The segments of a string put together again are the string.
pub proof fn lemma_segments_of_string(units: Seq<u16>)
    ensures
        segment_units(segments(utf16::decode(units))).flatten() == units,
{
    lemma_segments_units(utf16::decode(units));
    utf16::lemma_encode_decode(units);
}

/// A string without unpaired surrogates is one segment, its text, unless it is empty.
pub proof fn lemma_segments_of_text(units: Seq<u16>)
    requires
        utf16::well_formed(units),
        units.len() > 0,
    ensures
        segments(utf16::decode(units)) == seq![
            Segment::Text(utf16::text_of(utf16::decode(units))),
        ],
{
    let points = utf16::decode(units);
    lemma_text_run(points);
    assert(points[0] is Unicode);
    assert(text_run(points) == points.len());
    assert(points.take(points.len() as int) =~= points);
    assert(points.skip(points.len() as int) =~= seq![]);
    assert(segments(seq![]) =~= seq![]);
    assert(segments(points) =~= seq![Segment::Text(utf16::text_of(points))]);
}

/// The escaped form of a string without unpaired surrogates is its text.
pub proof fn lemma_escape_text(units: Seq<u16>)
    requires
        utf16::well_formed(units),
    ensures
        escape(utf16::decode(units)) == utf16::text_of(utf16::decode(units)),
{
    lemma_escape_scalars(utf16::decode(units));
}

proof fn lemma_escape_scalars(points: Seq<CodePoint>)
    requires
        utf16::all_scalars(points),
    ensures
        escape(points) == utf16::text_of(points),
    decreases points.len(),
{
    let pieces = points.map_values(|point: CodePoint| escape_point(point));
    if points.len() == 0 {
        assert(escape(points) =~= utf16::text_of(points));
    } else {
        let rest = points.skip(1);
        assert forall|i: int| 0 <= i < rest.len() implies #[trigger] rest[i] is Unicode by {
            assert(rest[i] == points[i + 1]);
        }
        lemma_escape_scalars(rest);
        assert(pieces.drop_first() =~= rest.map_values(|point: CodePoint| escape_point(point)));
        assert(points[0] is Unicode);
        assert(escape(points) =~= utf16::text_of(points));
    }
}

} // verus!
