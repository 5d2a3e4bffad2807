//! Borrowed strings in either encoding.

use vstd::prelude::*;
use vstd::slice::slice_subrange;

use crate::code_point::CodePoint;
use crate::iter::{Iter, Windows};
use crate::order;
use crate::utf16;
use crate::whitespace;

verus! {

/// The code units of a Latin1 string: every byte is one unit.
pub open spec fn latin1_units(bytes: Seq<u8>) -> Seq<u16> {
    bytes.map_values(|byte: u8| byte as u16)
}

/// Inner representation of a [`JsStr`].
#[derive(Clone, Copy, Debug)]
pub enum JsStrVariant<'a> {
    /// Latin1 string representation.
    Latin1(&'a [u8]),
    /// UTF-16 string representation.
    Utf16(&'a [u16]),
}

impl<'a> JsStrVariant<'a> {
    /// The code units that the slice stands for.
    pub open spec fn units(self) -> Seq<u16> {
        match self {
            JsStrVariant::Latin1(bytes) => latin1_units(bytes@),
            JsStrVariant::Utf16(units) => units@,
        }
    }
}

/// This is equivalent to Rust's `&str`: a borrowed string in Latin1 or in UTF-16.
///
/// Its view is the sequence of its UTF-16 code units, whichever way it is encoded.
#[derive(Clone, Copy, Debug)]
pub struct JsStr<'a> {
    inner: JsStrVariant<'a>,
}

impl<'a> View for JsStr<'a> {
    type V = Seq<u16>;

    closed spec fn view(&self) -> Seq<u16> {
        self.inner.units()
    }
}

impl<'a> JsStr<'a> {
    /// Whether the string is stored as Latin1.
    pub closed spec fn in_latin1(self) -> bool {
        self.inner is Latin1
    }

    /// Creates a [`JsStr`] from Latin1 bytes.
    pub fn latin1(value: &'a [u8]) -> (string: JsStr<'a>)
        ensures
            string@ == latin1_units(value@),
            string.in_latin1(),
    {
        JsStr { inner: JsStrVariant::Latin1(value) }
    }

    /// Creates a [`JsStr`] from UTF-16 code units.
    pub fn utf16(value: &'a [u16]) -> (string: JsStr<'a>)
        ensures
            string@ == value@,
            !string.in_latin1(),
    {
        JsStr { inner: JsStrVariant::Utf16(value) }
    }

    /// The slice that the string borrows.
    pub fn variant(self) -> (variant: JsStrVariant<'a>)
        ensures
            variant.units() == self@,
            variant is Latin1 <==> self.in_latin1(),
    {
        self.inner
    }

    /// Check if the [`JsStr`] is latin1 encoded.
    pub fn is_latin1(&self) -> (latin1: bool)
        ensures
            latin1 == self.in_latin1(),
    {
        match self.inner {
            JsStrVariant::Latin1(_) => true,
            JsStrVariant::Utf16(_) => false,
        }
    }

    /// Get the length of the [`JsStr`] in code units.
    pub fn len(&self) -> (len: usize)
        ensures
            len == self@.len(),
    {
        match self.inner {
            JsStrVariant::Latin1(bytes) => bytes.len(),
            JsStrVariant::Utf16(units) => units.len(),
        }
    }

    /// Return true if the [`JsStr`] is empty.
    pub fn is_empty(&self) -> (empty: bool)
        ensures
            empty == (self@.len() == 0),
    {
        self.len() == 0
    }

    /// The code unit at `index`.
    pub(crate) fn unit(self, index: usize) -> (unit: u16)
        requires
            index < self@.len(),
        ensures
            unit == self@[index as int],
    {
        match self.inner {
            JsStrVariant::Latin1(bytes) => bytes[index] as u16,
            JsStrVariant::Utf16(units) => units[index],
        }
    }

    /// The code units from `start` up to but not including `end`.
    pub(crate) fn slice(self, start: usize, end: usize) -> (string: JsStr<'a>)
        requires
            start <= end <= self@.len(),
        ensures
            string@ == self@.subrange(start as int, end as int),
            string.in_latin1() == self.in_latin1(),
    {
        let string = match self.inner {
            JsStrVariant::Latin1(bytes) => JsStr::latin1(slice_subrange(bytes, start, end)),
            JsStrVariant::Utf16(units) => JsStr::utf16(slice_subrange(units, start, end)),
        };
        assert(string@ =~= self@.subrange(start as int, end as int));
        string
    }

    /// Create an iterator over the code units of the [`JsStr`].
    pub fn iter(self) -> (iter: Iter<'a>)
        ensures
            iter.remaining() == self@,
    {
        Iter::new(self)
    }

    /// Create an iterator over overlapping subslices of length size.
    pub fn windows(self, size: usize) -> (windows: Windows<'a>)
        ensures
            windows.remaining() == order::windows(self@, size as int),
            windows.in_latin1() == self.in_latin1(),
    {
        Windows::new(self, size)
    }

    /// Convert the [`JsStr`] into a [`Vec<u16>`].
    pub fn to_vec(&self) -> (units: Vec<u16>)
        ensures
            units@ == self@,
    {
        let len = self.len();
        let mut units: Vec<u16> = Vec::with_capacity(len);
        for i in 0..len
            invariant
                len == self@.len(),
                units@ == self@.take(i as int),
        {
            units.push(self.unit(i));
            assert(units@ =~= self@.take(i + 1));
        }
        assert(self@.take(len as int) =~= self@);
        units
    }

    /// Get the element at the given index, [`None`] otherwise.
    pub fn get<I: JsSliceIndex<'a>>(self, index: I) -> (value: Option<I::Value>)
        ensures
            value is Some <==> index.in_bounds(self@.len()),
            value matches Some(found) ==> index.selects(self@, self.in_latin1(), found),
    {
        I::get(self, index)
    }

    /// Check if the string contains the code unit `element`.
    pub(crate) fn contains_unit(self, element: u16) -> (found: bool)
        ensures
            found == self@.contains(element),
    {
        let len = self.len();
        for i in 0..len
            invariant
                len == self@.len(),
                forall|j: int| 0 <= j < i ==> self@[j] != element,
        {
            if self.unit(i) == element {
                assert(self@[i as int] == element);
                return true;
            }
        }
        false
    }

    /// The code point that starts at `position`.
    pub(crate) fn point_at(self, position: usize) -> (point: CodePoint)
        requires
            position < self@.len(),
        ensures
            point == utf16::first_code_point(self@.skip(position as int)),
    {
        let first = self.unit(position);
        let second = if self.len() - position > 1 {
            Some(self.unit(position + 1))
        } else {
            None
        };
        utf16::read_code_point(first, second)
    }

    /// Whether the two strings have the same code units, however each is encoded.
    pub(crate) fn same_units(self, other: JsStr<'_>) -> (same: bool)
        ensures
            same == (self@ == other@),
    {
        let len = self.len();
        if len != other.len() {
            return false;
        }
        for i in 0..len
            invariant
                len == self@.len() == other@.len(),
                forall|j: int| 0 <= j < i ==> self@[j] == other@[j],
        {
            if self.unit(i) != other.unit(i) {
                return false;
            }
        }
        assert(self@ =~= other@);
        true
    }

    /// Whether this string comes before `other` in the dictionary order of code units.
    pub(crate) fn is_before(self, other: JsStr<'_>) -> (before: bool)
        ensures
            before == order::precedes(self@, other@),
    {
        let mut i: usize = 0;
        assert(self@.take(0) =~= other@.take(0));
        while i < self.len() && i < other.len() && self.unit(i) == other.unit(i)
            invariant
                i <= self@.len(),
                i <= other@.len(),
                self@.take(i as int) == other@.take(i as int),
            ensures
                i <= self@.len(),
                i <= other@.len(),
                self@.take(i as int) == other@.take(i as int),
                i < self@.len() && i < other@.len() ==> self@[i as int] != other@[i as int],
            decreases self@.len() - i,
        {
            assert(self@.take(i + 1) =~= self@.take(i as int).push(self@[i as int]));
            assert(other@.take(i + 1) =~= other@.take(i as int).push(other@[i as int]));
            i += 1;
        }
        let before = i < other.len() && (i == self.len() || self.unit(i) < other.unit(i));
        proof {
            order::lemma_precedes_total(self@, other@);
            if before {
                assert(order::less_at(self@, other@, i as int));
            } else if i < self@.len() {
                assert(order::less_at(other@, self@, i as int));
            } else {
                assert(self@ =~= self@.take(i as int));
                assert(other@ =~= other@.take(i as int));
            }
        }
        before
    }

    /// Whether the code unit at `index` is trimmable.
    fn is_trimmable_at(self, index: usize) -> (trimmable: bool)
        requires
            index < self@.len(),
        ensures
            trimmable == whitespace::is_space(self@[index as int] as int),
    {
        match self.inner {
            JsStrVariant::Latin1(bytes) => whitespace::is_trimmable_whitespace_latin1(bytes[index]),
            JsStrVariant::Utf16(units) => whitespace::is_trimmable_unit(units[index]),
        }
    }

    /// Trim whitespace from the start of the string.
    pub fn trim_start(self) -> (trimmed: JsStr<'a>)
        ensures
            trimmed@ == whitespace::trim_start(self@),
            trimmed.in_latin1() == self.in_latin1(),
    {
        let len = self.len();
        let mut start: usize = 0;
        while start < len && self.is_trimmable_at(start)
            invariant
                start <= len == self@.len(),
                whitespace::all_space(self@.take(start as int), whitespace::unit_space()),
            ensures
                start <= len,
                whitespace::all_space(self@.take(start as int), whitespace::unit_space()),
                start < len ==> !whitespace::is_space(self@[start as int] as int),
            decreases len - start,
        {
            proof {
                let longer = self@.take(start + 1);
                assert forall|i: int| 0 <= i < longer.len() implies whitespace::is_space(
                    #[trigger] longer[i] as int,
                ) by {
                    if i < start {
                        assert(longer[i] == self@.take(start as int)[i]);
                    }
                }
            }
            start += 1;
        }
        proof {
            whitespace::lemma_trim_start_at(self@, whitespace::unit_space(), start as int);
            assert(self@.skip(start as int) =~= self@.subrange(start as int, len as int));
        }
        self.slice(start, len)
    }

    /// Trim whitespace from the end of the string.
    pub fn trim_end(self) -> (trimmed: JsStr<'a>)
        ensures
            trimmed@ == whitespace::trim_end(self@),
            trimmed.in_latin1() == self.in_latin1(),
    {
        let mut end = self.len();
        assert(self@.skip(end as int) =~= seq![]);
        while end > 0 && self.is_trimmable_at(end - 1)
            invariant
                end <= self@.len(),
                whitespace::all_space(self@.skip(end as int), whitespace::unit_space()),
            ensures
                end <= self@.len(),
                whitespace::all_space(self@.skip(end as int), whitespace::unit_space()),
                end > 0 ==> !whitespace::is_space(self@[end - 1] as int),
            decreases end,
        {
            proof {
                let longer = self@.skip(end - 1);
                assert forall|i: int| 0 <= i < longer.len() implies whitespace::is_space(
                    #[trigger] longer[i] as int,
                ) by {
                    if i > 0 {
                        assert(longer[i] == self@.skip(end as int)[i - 1]);
                    }
                }
            }
            end -= 1;
        }
        proof {
            whitespace::lemma_trim_end_at(self@, whitespace::unit_space(), end as int);
            assert(self@.take(end as int) =~= self@.subrange(0, end as int));
        }
        self.slice(0, end)
    }

    /// Trim whitespace from the start and end of the string.
    pub fn trim(self) -> (trimmed: JsStr<'a>)
        ensures
            trimmed@ == whitespace::trim(self@),
            trimmed.in_latin1() == self.in_latin1(),
    {
        self.trim_start().trim_end()
    }
}

/// Types that select an element or a part of a string.
pub trait JsSliceIndex<'a>: Sized {
    /// What the index selects: one code unit, or a part of the string.
    type Value;

    /// Whether the index lies within a string of `len` code units.
    spec fn in_bounds(self, len: nat) -> bool;

    /// Whether `value` is what the index selects from a string with these code units, stored as
    /// Latin1 or not.
    spec fn selects(self, units: Seq<u16>, latin1: bool, value: Self::Value) -> bool;

    /// The selected value, or [`None`] when the index is out of bounds.
    fn get(string: JsStr<'a>, index: Self) -> (value: Option<Self::Value>)
        ensures
            value is Some <==> index.in_bounds(string@.len()),
            value matches Some(found) ==> index.selects(string@, string.in_latin1(), found),
    ;
}

impl<'a> JsSliceIndex<'a> for usize {
    type Value = u16;

    open spec fn in_bounds(self, len: nat) -> bool {
        self < len
    }

    open spec fn selects(self, units: Seq<u16>, latin1: bool, value: u16) -> bool {
        value == units[self as int]
    }

    fn get(string: JsStr<'a>, index: usize) -> (value: Option<u16>) {
        if index < string.len() {
            Some(string.unit(index))
        } else {
            None
        }
    }
}

impl<'a> JsSliceIndex<'a> for core::ops::Range<usize> {
    type Value = JsStr<'a>;

    open spec fn in_bounds(self, len: nat) -> bool {
        self.start <= self.end <= len
    }

    open spec fn selects(self, units: Seq<u16>, latin1: bool, value: JsStr<'a>) -> bool {
        value@ == units.subrange(self.start as int, self.end as int) && value.in_latin1() == latin1
    }

    fn get(string: JsStr<'a>, index: core::ops::Range<usize>) -> (value: Option<JsStr<'a>>) {
        if index.start <= index.end && index.end <= string.len() {
            Some(string.slice(index.start, index.end))
        } else {
            None
        }
    }
}

} // verus!
