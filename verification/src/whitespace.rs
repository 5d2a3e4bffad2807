//! The characters that trimming removes.

use vstd::prelude::*;

use crate::utf16;

verus! {

/// The code point values that count as white space or as a line terminator.
///
/// This is not the `White_Space` property of Unicode: it leaves out U+0085 (next line), and it
/// holds U+FEFF (zero width non-breaking space).
pub open spec fn is_space(value: int) -> bool {
    // White space: <https://tc39.es/ecma262/#sec-white-space>
    ||| value == 0x0009
    ||| value == 0x000B
    ||| value == 0x000C
    ||| value == 0x0020
    ||| value == 0x00A0
    ||| value == 0xFEFF
    // Unicode Space_Separator category
    ||| value == 0x1680
    ||| 0x2000 <= value <= 0x200A
    ||| value == 0x202F
    ||| value == 0x205F
    ||| value == 0x3000
    // Line terminators: <https://tc39.es/ecma262/#sec-line-terminators>
    ||| value == 0x000A
    ||| value == 0x000D
    ||| value == 0x2028
    ||| value == 0x2029
}

/// Checks if a `char` is trimmable.
pub fn is_trimmable_whitespace(c: char) -> (trimmable: bool)
    ensures
        trimmable == is_space(c as int),
{
    is_trimmable_value(c as u32)
}

/// Checks if a `u8` latin1 character is trimmable.
pub fn is_trimmable_whitespace_latin1(c: u8) -> (trimmable: bool)
    ensures
        trimmable == is_space(c as int),
{
    c == 0x09 || c == 0x0B || c == 0x0C || c == 0x20 || c == 0xA0 || c == 0x0A || c == 0x0D
}

/// Checks if a UTF-16 code unit is trimmable. No surrogate is.
pub fn is_trimmable_unit(unit: u16) -> (trimmable: bool)
    ensures
        trimmable == is_space(unit as int),
{
    is_trimmable_value(unit as u32)
}

fn is_trimmable_value(value: u32) -> (trimmable: bool)
    ensures
        trimmable == is_space(value as int),
{
    match value {
        0x0009 | 0x000B | 0x000C | 0x0020 | 0x00A0 | 0xFEFF => true,
        0x1680 | 0x202F | 0x205F | 0x3000 => true,
        0x000A | 0x000D | 0x2028 | 0x2029 => true,
        _ => 0x2000 <= value && value <= 0x200A,
    }
}

/// Which code units are trimmable.
pub open spec fn unit_space() -> spec_fn(u16) -> bool {
    |unit: u16| is_space(unit as int)
}

/// Which characters are trimmable.
pub open spec fn char_space() -> spec_fn(char) -> bool {
    |c: char| is_space(c as int)
}

/// `items` from its first item on that is no space.
pub open spec fn trim_start_by<A>(items: Seq<A>, space: spec_fn(A) -> bool) -> Seq<A>
    decreases items.len(),
{
    if items.len() > 0 && space(items[0]) {
        trim_start_by(items.skip(1), space)
    } else {
        items
    }
}

/// `items` up to its last item that is no space.
pub open spec fn trim_end_by<A>(items: Seq<A>, space: spec_fn(A) -> bool) -> Seq<A>
    decreases items.len(),
{
    if items.len() > 0 && space(items.last()) {
        trim_end_by(items.drop_last(), space)
    } else {
        items
    }
}

/// Whether every item is a space.
pub open spec fn all_space<A>(items: Seq<A>, space: spec_fn(A) -> bool) -> bool {
    forall|i: int| 0 <= i < items.len() ==> space(#[trigger] items[i])
}

/// `units` from its first unit on that is not trimmable.
pub open spec fn trim_start(units: Seq<u16>) -> Seq<u16> {
    trim_start_by(units, unit_space())
}

/// `units` up to its last unit that is not trimmable.
pub open spec fn trim_end(units: Seq<u16>) -> Seq<u16> {
    trim_end_by(units, unit_space())
}

/// `units` without what is trimmable at either end.
pub open spec fn trim(units: Seq<u16>) -> Seq<u16> {
    trim_end(trim_start(units))
}

/// `text` without what is trimmable at either end.
pub open spec fn trim_text(text: Seq<char>) -> Seq<char> {
    trim_end_by(trim_start_by(text, char_space()), char_space())
}

/// What remains after a run of spaces in front is what trimming the front leaves, when it starts
/// with no space.
pub proof fn lemma_trim_start_at<A>(items: Seq<A>, space: spec_fn(A) -> bool, n: int)
    requires
        0 <= n <= items.len(),
        all_space(items.take(n), space),
        n < items.len() ==> !space(items[n]),
    ensures
        trim_start_by(items, space) == items.skip(n),
    decreases n,
{
    if n > 0 {
        assert(items.take(n)[0] == items[0]);
        let rest = items.skip(1);
        assert forall|i: int| 0 <= i < n - 1 implies space(#[trigger] rest.take(n - 1)[i]) by {
            assert(rest.take(n - 1)[i] == items.take(n)[i + 1]);
        }
        lemma_trim_start_at(rest, space, n - 1);
        assert(rest.skip(n - 1) =~= items.skip(n));
    } else {
        assert(items.skip(0) =~= items);
    }
}

/// What stands before a run of spaces at the back is what trimming the back leaves, when it ends
/// with no space.
pub proof fn lemma_trim_end_at<A>(items: Seq<A>, space: spec_fn(A) -> bool, n: int)
    requires
        0 <= n <= items.len(),
        all_space(items.skip(n), space),
        n > 0 ==> !space(items[n - 1]),
    ensures
        trim_end_by(items, space) == items.take(n),
    decreases items.len() - n,
{
    if n < items.len() {
        let rest = items.drop_last();
        assert(items.skip(n)[items.len() - n - 1] == items.last());
        assert forall|i: int| 0 <= i < rest.len() - n implies space(#[trigger] rest.skip(n)[i]) by {
            assert(rest.skip(n)[i] == items.skip(n)[i]);
        }
        lemma_trim_end_at(rest, space, n);
        assert(rest.take(n) =~= items.take(n));
    } else {
        assert(items.take(n) =~= items);
    }
}

/// Trimming the front cuts off a prefix of spaces, and leaves no space in front.
pub proof fn lemma_trim_start_cuts<A>(items: Seq<A>, space: spec_fn(A) -> bool) -> (n: int)
    ensures
        0 <= n <= items.len(),
        trim_start_by(items, space) == items.skip(n),
        all_space(items.take(n), space),
        n < items.len() ==> !space(items[n]),
    decreases items.len(),
{
    if items.len() > 0 && space(items[0]) {
        let rest = items.skip(1);
        let m = lemma_trim_start_cuts(rest, space);
        assert(rest.skip(m) =~= items.skip(m + 1));
        assert forall|i: int| 0 <= i < m + 1 implies space(#[trigger] items.take(m + 1)[i]) by {
            if i > 0 {
                assert(items.take(m + 1)[i] == rest.take(m)[i - 1]);
            }
        }
        m + 1
    } else {
        assert(items.skip(0) =~= items);
        0
    }
}

/// Trimming the back cuts off a suffix of spaces, and leaves no space at the back.
pub proof fn lemma_trim_end_cuts<A>(items: Seq<A>, space: spec_fn(A) -> bool) -> (n: int)
    ensures
        0 <= n <= items.len(),
        trim_end_by(items, space) == items.take(n),
        all_space(items.skip(n), space),
        n > 0 ==> !space(items[n - 1]),
    decreases items.len(),
{
    if items.len() > 0 && space(items.last()) {
        let rest = items.drop_last();
        let n = lemma_trim_end_cuts(rest, space);
        assert(rest.take(n) =~= items.take(n));
        assert forall|i: int|
            0 <= i < items.len() - n implies space(#[trigger] items.skip(n)[i]) by {
            if i < rest.len() - n {
                assert(items.skip(n)[i] == rest.skip(n)[i]);
            }
        }
        n
    } else {
        assert(items.take(items.len() as int) =~= items);
        items.len() as int
    }
}

/// What is left after trimming both ends: some spaces cut off at either end, and no space left
/// there.
pub proof fn lemma_trim_cuts<A>(items: Seq<A>, space: spec_fn(A) -> bool) -> (cuts: (int, int))
    ensures
        0 <= cuts.0 <= cuts.1 <= items.len(),
        trim_end_by(trim_start_by(items, space), space) == items.subrange(cuts.0, cuts.1),
        trim_start_by(trim_end_by(items, space), space) == items.subrange(cuts.0, cuts.1),
        all_space(items.take(cuts.0), space),
        all_space(items.skip(cuts.1), space),
        cuts.0 < cuts.1 ==> !space(items[cuts.0]) && !space(items[cuts.1 - 1]),
{
    let start = lemma_trim_start_cuts(items, space);
    let end = lemma_trim_end_cuts(items, space);
    if start < items.len() {
        assert(!space(items[start]));
        if end <= start {
            assert(items.skip(end)[start - end] == items[start]);
        }
        let front = items.skip(start);
        assert forall|i: int| 0 <= i < front.skip(end - start).len() implies space(
            #[trigger] front.skip(end - start)[i],
        ) by {
            assert(front.skip(end - start)[i] == items.skip(end)[i]);
        }
        lemma_trim_end_at(front, space, end - start);
        assert(front.take(end - start) =~= items.subrange(start, end));
        let back = items.take(end);
        assert forall|i: int| 0 <= i < back.take(start).len() implies space(
            #[trigger] back.take(start)[i],
        ) by {
            assert(back.take(start)[i] == items.take(start)[i]);
        }
        lemma_trim_start_at(back, space, start);
        assert(back.skip(start) =~= items.subrange(start, end));
        (start, end)
    } else {
        // Everything is a space.
        if end > 0 {
            assert(items.take(start)[end - 1] == items[end - 1]);
        }
        assert(items.skip(start) =~= seq![]);
        assert(items.take(end) =~= seq![]);
        assert(items.subrange(start, start) =~= seq![]);
        assert(items.skip(start) =~= items.subrange(start, start));
        (start, start)
    }
}

/// The two ends can be trimmed in either order.
pub proof fn lemma_trim_order(units: Seq<u16>)
    ensures
        trim(units) == trim_start(trim_end(units)),
{
    let _ = lemma_trim_cuts(units, unit_space());
}

/// Nothing trimmable is left at the ends, and trimming once more changes nothing.
pub proof fn lemma_trim_idempotent(units: Seq<u16>)
    ensures
        trim(units).len() > 0 ==> !is_space(trim(units)[0] as int) && !is_space(
            trim(units).last() as int,
        ),
        trim(trim(units)) == trim(units),
        trim_start(trim(units)) == trim(units),
        trim_end(trim(units)) == trim(units),
        trim_start(trim_start(units)) == trim_start(units),
        trim_end(trim_end(units)) == trim_end(units),
{
    let space = unit_space();
    let (start, end) = lemma_trim_cuts(units, space);
    let trimmed = trim(units);
    if trimmed.len() > 0 {
        assert(!space(trimmed[0]) && !space(trimmed.last()));
    }
    let front = lemma_trim_start_cuts(units, space);
    if front < units.len() {
        assert(!space(trim_start(units)[0]));
    }
    let back = lemma_trim_end_cuts(units, space);
    if back > 0 {
        assert(!space(trim_end(units).last()));
    }
}

/// Trimming a string is trimming its text: no surrogate is cut off, and what is left spells the
/// trimmed text.
pub proof fn lemma_trimmed_text(units: Seq<u16>)
    ensures
        utf16::well_formed(trim(units)) <==> utf16::well_formed(units),
        utf16::well_formed(units) ==> utf16::text_of(utf16::decode(trim(units))) == trim_text(
            utf16::text_of(utf16::decode(units)),
        ),
{
    let space = unit_space();
    let (start, end) = lemma_trim_cuts(units, space);
    let front = units.take(start);
    let trimmed = units.subrange(start, end);
    let back = units.skip(end);
    lemma_spaces(front);
    lemma_spaces(back);
    // No surrogate pair straddles a cut, so that the code points are divided in the same way.
    assert(front + trimmed =~= units.take(end));
    assert(units.take(end) + back =~= units);
    if front.len() > 0 {
        assert(space(front.last()));
    }
    if back.len() > 0 {
        assert(space(back[0]));
    }
    utf16::lemma_decode_concat(front, trimmed);
    utf16::lemma_decode_concat(units.take(end), back);
    let before = utf16::decode(front);
    let middle = utf16::decode(trimmed);
    let after = utf16::decode(back);
    utf16::lemma_text_of_concat(before, middle);
    utf16::lemma_text_of_concat(before + middle, after);
    if utf16::well_formed(trimmed) {
        lemma_no_space_at_ends(trimmed);
        lemma_trim_text_around(
            utf16::text_of(before),
            utf16::text_of(middle),
            utf16::text_of(after),
        );
    }
}

/// Trimmable units are the encoding of as many trimmable characters.
proof fn lemma_spaces(units: Seq<u16>)
    requires
        all_space(units, unit_space()),
    ensures
        utf16::well_formed(units),
        all_space(utf16::text_of(utf16::decode(units)), char_space()),
{
    let space = unit_space();
    assert forall|i: int|
        0 <= i < units.len() implies !utf16::is_surrogate(#[trigger] units[i]) by {
        assert(space(units[i]));
    }
    utf16::lemma_decode_no_surrogates(units);
    let text = utf16::text_of(utf16::decode(units));
    assert forall|i: int| 0 <= i < text.len() implies char_space()(
        #[trigger] text[i],
    ) by {
        assert(space(units[i]));
        assert(text[i] == units[i] as char);
    }
}

/// A text whose encoding has nothing trimmable at its ends has no trimmable character there.
proof fn lemma_no_space_at_ends(units: Seq<u16>)
    requires
        utf16::well_formed(units),
        units.len() > 0 ==> !is_space(units[0] as int) && !is_space(
            units.last() as int,
        ),
    ensures
        ({
            let text = utf16::text_of(utf16::decode(units));
            text.len() > 0 ==> !is_space(text[0] as int) && !is_space(
                text.last() as int,
            )
        }),
{
    let points = utf16::decode(units);
    let text = utf16::text_of(points);
    if text.len() > 0 {
        utf16::lemma_encode_decode(units);
        let first = points[0];
        let last = points.last();
        assert(first is Unicode && last is Unicode);
        assert(points =~= points.drop_last() + seq![last]);
        utf16::lemma_encode_concat(points.drop_last(), seq![last]);
        utf16::lemma_encode_one(last);
        if is_space(text[0] as int) {
            assert(first.units() == seq![text[0] as u16]);
            assert(units[0] == text[0] as u16);
        }
        if is_space(text.last() as int) {
            assert(last.units() == seq![text.last() as u16]);
            assert(units.last() == text.last() as u16);
        }
    }
}

/// Trimming takes away exactly the spaces around a text without spaces at its ends.
proof fn lemma_trim_text_around(before: Seq<char>, inner: Seq<char>, after: Seq<char>)
    requires
        all_space(before, char_space()),
        all_space(after, char_space()),
        inner.len() > 0 ==> !is_space(inner[0] as int) && !is_space(
            inner.last() as int,
        ),
    ensures
        trim_text(before + inner + after) == inner,
{
    let space = char_space();
    let text = before + inner + after;
    let front = inner + after;
    if inner.len() > 0 {
        assert(text.take(before.len() as int) =~= before);
        assert(text.skip(before.len() as int) =~= front);
        lemma_trim_start_at(text, space, before.len() as int);
        assert(front.skip(inner.len() as int) =~= after);
        assert(front.take(inner.len() as int) =~= inner);
        lemma_trim_end_at(front, space, inner.len() as int);
    } else {
        assert forall|i: int| 0 <= i < text.len() implies space(#[trigger] text[i]) by {
            if i < before.len() {
                assert(text[i] == before[i]);
            } else {
                assert(text[i] == after[i - before.len()]);
            }
        }
        assert(text.take(text.len() as int) =~= text);
        assert(text.skip(text.len() as int) =~= seq![]);
        lemma_trim_start_at(text, space, text.len() as int);
        assert(inner =~= seq![]);
    }
}

} // verus!
