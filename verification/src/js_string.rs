//! Owned strings.

use vstd::prelude::*;

use std::rc::Rc;

use crate::code_point::CodePoint;
use crate::common::{self, StaticJsStrings};
use crate::external::strong_count;
use crate::iter::{Iter, Windows};
use crate::js_str::{self, JsSliceIndex, JsStr, JsStrVariant};
use crate::layout;
use crate::order;
use crate::raw::RawJsString;
use crate::segments;
use crate::utf16;
use crate::whitespace;

verus! {

/// The error of decoding a string that holds an unpaired surrogate.
#[derive(Clone, Copy, Debug, PartialEq, Eq, Structural)]
pub struct FromUtf16Error;

/// The code units of each of the strings.
pub open spec fn units_of(strings: Seq<JsStr<'_>>) -> Seq<Seq<u16>> {
    strings.map_values(|string: JsStr<'_>| string@)
}

/// Whether all of the strings are stored as Latin1.
pub open spec fn all_latin1(strings: Seq<JsStr<'_>>) -> bool {
    forall|i: int| 0 <= i < strings.len() ==> (#[trigger] strings[i]).in_latin1()
}

/// The size of a code unit in a string that is stored as Latin1 or not.
pub open spec fn unit_size(latin1: bool) -> int {
    if latin1 {
        1
    } else {
        2
    }
}

/// Whether `image` are the units that a part of a string is mapped to: those of a surrogate stay,
/// those of a text become the ones of a text that `f` may return on it.
pub open spec fn maps_to<F: FnMut(String) -> String>(
    f: F,
    part: segments::Segment,
    image: Seq<u16>,
) -> bool {
    match part {
        segments::Segment::Surrogate(surr) => image == seq![surr],
        segments::Segment::Text(text) => exists|input: String, output: String|
            input@ == text && #[trigger] f.ensures((input,), output) && image
                == utf16::encode_text(output@),
    }
}

/// Where the units of a string are.
enum Repr {
    /// At this position of the list of static strings.
    Static(usize),
    /// In the heap, shared with the clones of the string.
    Heap(Rc<RawJsString>),
}

/// A Latin1 or UTF-16 encoded, reference counted, immutable string.
///
/// The string can be latin1 (stored as a byte for space efficiency) or U16 encoding.
///
/// We define some commonly used string constants in an interner. For these strings, we don't
/// allocate memory on the heap to reduce the overhead of memory allocation and reference counting.
///
/// The view of a string is the sequence of its UTF-16 code units, whichever way it is encoded.
pub struct JsString {
    repr: Repr,
}

impl View for JsString {
    type V = Seq<u16>;

    closed spec fn view(&self) -> Seq<u16> {
        match self.repr {
            Repr::Static(index) => common::static_units(index),
            Repr::Heap(raw) => raw.units(),
        }
    }
}

impl JsString {
    /// Whether the string is one of the static strings.
    pub closed spec fn interned(&self) -> bool {
        self.repr is Static
    }

    /// Whether the string is stored as Latin1.
    pub closed spec fn in_latin1(&self) -> bool {
        match self.repr {
            Repr::Static(_) => true,
            Repr::Heap(raw) => raw.in_latin1(),
        }
    }

    #[verifier::type_invariant]
    closed spec fn inv(&self) -> bool {
        self.repr matches Repr::Static(index) ==> index < StaticJsStrings::COUNT
    }

    /// The static string at `index`.
    pub(crate) fn from_static(index: usize) -> (string: JsString)
        requires
            index < StaticJsStrings::COUNT,
        ensures
            string@ == common::static_units(index),
            string.interned(),
            string.in_latin1(),
    {
        JsString { repr: Repr::Static(index) }
    }

    /// The string with the given representation in the heap.
    pub(crate) fn from_raw(raw: RawJsString) -> (string: JsString)
        ensures
            string@ == raw.units(),
            !string.interned(),
            string.in_latin1() == raw.in_latin1(),
    {
        JsString { repr: Repr::Heap(Rc::new(raw)) }
    }

    /// Obtains the underlying slice of a [`JsString`].
    pub fn as_str(&self) -> (string: JsStr<'_>)
        ensures
            string@ == self@,
            string.in_latin1() == self.in_latin1(),
    {
        proof {
            use_type_invariant(self);
        }
        match &self.repr {
            Repr::Static(index) => StaticJsStrings::get(*index).unwrap(),
            Repr::Heap(raw) => raw.as_str(),
        }
    }

    /// Creates a new [`JsString`] from `string`, without checking if the string is in the
    /// interner.
    pub(crate) fn from_slice_skip_interning(string: JsStr<'_>) -> (copy: JsString)
        ensures
            copy@ == string@,
            !copy.interned(),
            copy.in_latin1() == string.in_latin1(),
    {
        match string.variant() {
            JsStrVariant::Latin1(bytes) => JsString::from_raw(
                RawJsString::from_latin1(vstd::slice::slice_to_vec(bytes)),
            ),
            JsStrVariant::Utf16(units) => JsString::from_raw(
                RawJsString::from_utf16(vstd::slice::slice_to_vec(units)),
            ),
        }
    }

    /// Creates a new [`JsString`] from `string`. It is a static one where there is one with these
    /// code units.
    pub(crate) fn from_slice(string: JsStr<'_>) -> (copy: JsString)
        ensures
            copy@ == string@,
            copy.interned() == common::is_static_units(string@),
            copy.in_latin1() == (common::is_static_units(string@) || string.in_latin1()),
    {
        if let Some(interned) = StaticJsStrings::get_string(&string) {
            return interned;
        }
        JsString::from_slice_skip_interning(string)
    }

    /// Get the length of the [`JsString`].
    pub fn len(&self) -> (len: usize)
        ensures
            len == self@.len(),
    {
        proof {
            use_type_invariant(self);
        }
        match &self.repr {
            Repr::Static(index) => StaticJsStrings::get(*index).unwrap().len(),
            Repr::Heap(raw) => raw.len(),
        }
    }

    /// Check if the [`JsString`] is static.
    pub fn is_static(&self) -> (interned: bool)
        ensures
            interned == self.interned(),
    {
        match &self.repr {
            Repr::Static(_) => true,
            Repr::Heap(_) => false,
        }
    }

    /// Gets the number of `JsString`s which point to this allocation. A static string has none.
    pub fn refcount(&self) -> (count: Option<usize>)
        ensures
            count is None <==> self.interned(),
            count matches Some(n) ==> n >= 1,
    {
        match &self.repr {
            Repr::Static(_) => None,
            Repr::Heap(raw) => Some(strong_count(raw)),
        }
    }
}

impl JsString {
    /// Create an iterator over the [`JsString`].
    pub fn iter(&self) -> (iter: Iter<'_>)
        ensures
            iter.remaining() == self@,
    {
        self.as_str().iter()
    }

    /// Create an iterator over overlapping subslices of length size.
    pub fn windows(&self, size: usize) -> (windows: Windows<'_>)
        ensures
            windows.remaining() == order::windows(self@, size as int),
            windows.in_latin1() == self.in_latin1(),
    {
        self.as_str().windows(size)
    }

    /// Creates a new [`JsString`] from the concatenation of `x` and `y`.
    ///
    /// The concatenation must be short enough to be put in the heap.
    pub fn concat(x: JsStr<'_>, y: JsStr<'_>) -> (string: JsString)
        requires
            layout::fits(
                (x@.len() + y@.len()) as int,
                unit_size(x.in_latin1() && y.in_latin1()),
            ),
        ensures
            string@ == x@ + y@,
            string.interned() == common::is_static_units(x@ + y@),
            string.in_latin1() == (string.interned() || x.in_latin1() && y.in_latin1()),
    {
        let strings = [x, y];
        proof {
            let parts = units_of(strings@);
            assert(parts =~= seq![x@, y@]);
            assert(parts.drop_first() =~= seq![y@]);
            parts.drop_first().lemma_flatten_one_element();
            assert(parts.flatten() == x@ + y@);
            assert(strings@[0] == x && strings@[1] == y);
            assert(all_latin1(strings@) == (x.in_latin1() && y.in_latin1()));
        }
        JsString::concat_array(strings.as_slice())
    }

    /// Creates a new [`JsString`] from the concatenation of every element of `strings`.
    ///
    /// The concatenation must be short enough to be put in the heap.
    pub fn concat_array(strings: &[JsStr<'_>]) -> (string: JsString)
        requires
            layout::fits(
                units_of(strings@).flatten().len() as int,
                unit_size(all_latin1(strings@)),
            ),
        ensures
            string@ == units_of(strings@).flatten(),
            string.interned() == common::is_static_units(string@),
            string.in_latin1() == (string.interned() || all_latin1(strings@)),
    {
        let (full_count, latin1_encoding) = concat_size(strings).unwrap();
        let string = if latin1_encoding {
            JsString::from_raw(RawJsString::from_latin1(concat_latin1(strings, full_count)))
        } else {
            JsString::from_raw(RawJsString::from_utf16(concat_utf16(strings, full_count)))
        };
        match StaticJsStrings::get_string(&string.as_str()) {
            Some(interned) => interned,
            None => string,
        }
    }

    /// Decodes a [`JsString`] into a [`String`], replacing invalid data with its escaped
    /// representation in 4 digit hexadecimal.
    pub fn to_std_string_escaped(&self) -> (text: String)
        ensures
            text@ == segments::escape(utf16::decode(self@)),
    {
        segments::escape_points(&self.code_points())
    }

    /// Decodes a [`JsString`] into a [`String`], returning
    ///
    /// # Errors
    ///
    /// [`FromUtf16Error`] if it contains any invalid data.
    pub fn to_std_string(&self) -> (text: Result<String, FromUtf16Error>)
        ensures
            text is Ok <==> utf16::well_formed(self@),
            text matches Ok(decoded) ==> decoded@ == utf16::text_of(utf16::decode(self@)),
    {
        let points = self.code_points();
        let mut text = String::new();
        assert(utf16::text_of(points@.take(0)) =~= seq![]);
        for i in 0..points.len()
            invariant
                points@ == utf16::decode(self@),
                utf16::all_scalars(points@.take(i as int)),
                text@ == utf16::text_of(points@.take(i as int)),
        {
            match points[i] {
                CodePoint::Unicode(c) => {
                    text.push(c);
                    proof {
                        let longer = points@.take(i + 1);
                        assert forall|j: int|
                            0 <= j < longer.len() implies #[trigger] longer[j] is Unicode by {
                            if j < i {
                                assert(longer[j] == points@.take(i as int)[j]);
                            }
                        }
                        assert(text@ =~= utf16::text_of(longer));
                    }
                },
                CodePoint::UnpairedSurrogate(_) => {
                    assert(points@[i as int] is UnpairedSurrogate);
                    return Err(FromUtf16Error);
                },
            }
        }
        assert(points@.take(points@.len() as int) =~= points@);
        Ok(text)
    }

    /// Decodes a [`JsString`] into a sequence of [`Result<String, u16>`], returning surrogates as
    /// errors.
    pub fn to_std_string_with_surrogates(&self) -> (parts: Vec<Result<String, u16>>)
        ensures
            parts@.map_values(|part: Result<String, u16>| segments::as_segment(part))
                == segments::segments(utf16::decode(self@)),
            parts@.len() == segments::segments(utf16::decode(self@)).len(),
            forall|i: int|
                0 <= i < parts@.len() ==> segments::segments(utf16::decode(self@))[i] == (match (
                #[trigger] parts@[i]) {
                    Ok(text) => segments::Segment::Text(text@),
                    Err(surr) => segments::Segment::Surrogate(surr),
                }),
    {
        let parts = segments::split_segments(&self.code_points());
        proof {
            let view = |part: Result<String, u16>| segments::as_segment(part);
            assert forall|i: int| 0 <= i < parts@.len() implies segments::segments(
                utf16::decode(self@),
            )[i] == segments::as_segment(#[trigger] parts@[i]) by {
                assert(parts@.map_values(view)[i] == view(parts@[i]));
            }
        }
        parts
    }

    /// Maps the valid segments of an UTF16 string and leaves the unpaired surrogates unchanged.
    ///
    /// The function is called once for each valid segment, from left to right. The contract says
    /// which segments its results take the place of; a closure has no state there that could show
    /// the calls.
    pub fn map_valid_segments<F: FnMut(String) -> String>(&self, mut f: F) -> (mapped: JsString)
        requires
            forall|input: String|
                segments::segments(utf16::decode(self@)).contains(
                    segments::Segment::Text(input@),
                ) ==> #[trigger] f.requires((input,)),
        ensures
            exists|images: Seq<Seq<u16>>|
                {
                    &&& images.len() == segments::segments(utf16::decode(self@)).len()
                    &&& forall|i: int|
                        0 <= i < images.len() ==> maps_to(
                            f,
                            segments::segments(utf16::decode(self@))[i],
                            #[trigger] images[i],
                        )
                    &&& mapped@ == images.flatten()
                },
            mapped.interned() == common::is_static_units(mapped@),
            mapped.in_latin1() == mapped.interned(),
    {
        let ghost f0 = f;
        let ghost expected = segments::segments(utf16::decode(self@));
        let mut units: Vec<u16> = Vec::new();
        let ghost mut images: Seq<Seq<u16>> = seq![];
        let parts = self.to_std_string_with_surrogates();
        assert(images.flatten() =~= seq![]);
        for part in iter: parts
            invariant
                iter.seq().map_values(|part: Result<String, u16>| segments::as_segment(part))
                    == expected,
                images.len() == iter.index(),
                forall|i: int|
                    0 <= i < images.len() ==> maps_to(f0, expected[i], #[trigger] images[i]),
                units@ == images.flatten(),
                forall|input: String|
                    expected.contains(segments::Segment::Text(input@)) ==> #[trigger] f0.requires(
                        (input,),
                    ),
                f == f0,
        {
            let ghost image: Seq<u16>;
            assert(segments::as_segment(part) == expected[iter.index()]);
            match part {
                Ok(string) => {
                    let output = f(string);
                    let mut encoded = utf16::encode_str(output.as_str());
                    proof {
                        image = encoded@;
                    }
                    units.append(&mut encoded);
                },
                Err(surr) => {
                    proof {
                        image = seq![surr];
                    }
                    units.push(surr);
                },
            }
            proof {
                images.lemma_flatten_push(image);
                images = images.push(image);
                assert(units@ =~= images.flatten());
            }
        }
        JsString::from_slice(JsStr::utf16(units.as_slice()))
    }

    /// Gets all the Unicode codepoints of a [`JsString`].
    pub fn code_points(&self) -> (points: Vec<CodePoint>)
        ensures
            points@ == utf16::decode(self@),
    {
        let string = self.as_str();
        let len = string.len();
        let mut points: Vec<CodePoint> = Vec::new();
        let mut position: usize = 0;
        assert(self@.skip(0) =~= self@);
        assert(points@ + utf16::decode(self@) =~= utf16::decode(self@));
        while position < len
            invariant
                string@ == self@,
                position <= len == self@.len(),
                utf16::decode(self@) == points@ + utf16::decode(self@.skip(position as int)),
            decreases len - position,
        {
            let ghost rest = self@.skip(position as int);
            let ghost before = points@;
            let point = string.point_at(position);
            points.push(point);
            proof {
                utf16::lemma_first_units(rest);
                assert(rest.skip(utf16::first_width(rest)) =~= self@.skip(
                    position + utf16::first_width(rest),
                ));
                assert(points@ + utf16::decode(rest.skip(utf16::first_width(rest))) =~= before
                    + utf16::decode(rest));
            }
            position += point.code_unit_count();
        }
        assert(points@ + utf16::decode(self@.skip(position as int)) =~= points@);
        points
    }

    /// Abstract operation `StringIndexOf ( string, searchValue, fromIndex )`
    ///
    /// Note: Instead of returning an isize with `-1` as the "not found" value, we make use of the
    /// type system and return <code>[Option]\<usize\></code> with [`None`] as the "not found"
    /// value.
    ///
    /// More information:
    ///  - [ECMAScript reference][spec]
    ///
    /// [spec]: https://tc39.es/ecma262/#sec-stringindexof
    pub fn index_of(&self, search_value: JsStr<'_>, from_index: usize) -> (index: Option<usize>)
        ensures
            match index {
                Some(i) => {
                    &&& from_index <= i
                    &&& order::occurs_at(self@, search_value@, i as int)
                    &&& forall|j: int|
                        from_index <= j < i ==> !order::occurs_at(self@, search_value@, j)
                },
                None => forall|j: int|
                    from_index <= j ==> !order::occurs_at(self@, search_value@, j),
            },
    {
        // If searchValue is the empty String and fromIndex <= len, return fromIndex.
        let len = self.len();
        if search_value.is_empty() {
            return if from_index <= len {
                assert(self@.subrange(from_index as int, from_index as int) =~= search_value@);
                Some(from_index)
            } else {
                None
            };
        }
        // For each integer i starting with fromIndex such that i <= len - searchLen, in ascending
        // order, if the substring from i to i + searchLen is searchValue, return i.
        let string = self.as_str();
        let size = search_value.len();
        if from_index > len {
            return None;
        }
        let mut windows = string.slice(from_index, len).windows(size);
        let ghost all = windows.remaining();
        let mut i: usize = from_index;
        assert(all.skip(0) =~= all);
        loop
            invariant
                from_index <= i,
                i - from_index <= all.len(),
                size == search_value@.len(),
                len == self@.len(),
                size > 0,
                from_index <= len,
                all == order::windows(self@.subrange(from_index as int, len as int), size as int),
                windows.remaining() == all.skip(i - from_index),
                forall|j: int| from_index <= j < i ==> !order::occurs_at(self@, search_value@, j),
            decreases all.len() - (i - from_index),
        {
            match windows.next() {
                Some(window) => {
                    assert(window@ == all[i - from_index]);
                    assert(window@ =~= self@.subrange(i as int, i + size));
                    if window.same_units(search_value) {
                        return Some(i);
                    }
                    assert(all.skip(i - from_index).skip(1) =~= all.skip(i + 1 - from_index));
                    i += 1;
                },
                None => {
                    return None;
                },
            }
        }
    }

    /// Abstract operation `CodePointAt( string, position )`.
    ///
    /// The abstract operation `CodePointAt` takes arguments `string` (a String) and `position` (a
    /// non-negative integer) and returns a Record with fields `[[CodePoint]]` (a code point),
    /// `[[CodeUnitCount]]` (a positive integer), and `[[IsUnpairedSurrogate]]` (a Boolean). It
    /// interprets string as a sequence of UTF-16 encoded code points, as described in 6.1.4, and
    /// reads from it a single code point starting with the code unit at index `position`.
    ///
    /// More information:
    ///  - [ECMAScript reference][spec]
    ///
    /// [spec]: https://tc39.es/ecma262/#sec-codepointat
    ///
    /// The position must lie within the string.
    pub fn code_point_at(&self, position: usize) -> (point: CodePoint)
        requires
            position < self@.len(),
        ensures
            point == utf16::first_code_point(self@.skip(position as int)),
    {
        self.as_str().point_at(position)
    }

    /// Return true if the [`JsString`] is empty.
    pub fn is_empty(&self) -> (empty: bool)
        ensures
            empty == (self@.len() == 0),
    {
        self.len() == 0
    }

    /// Convert the [`JsString`] into a [`Vec<u16>`].
    pub fn to_vec(&self) -> (units: Vec<u16>)
        ensures
            units@ == self@,
    {
        self.as_str().to_vec()
    }

    /// Check if the [`JsString`] contains a byte.
    pub fn contains(&self, element: u8) -> (found: bool)
        ensures
            found == self@.contains(element as u16),
    {
        self.as_str().contains_unit(element as u16)
    }

    /// Trim whitespace from the start and end of the [`JsString`].
    pub fn trim(&self) -> (trimmed: JsStr<'_>)
        ensures
            trimmed@ == whitespace::trim(self@),
            trimmed.in_latin1() == self.in_latin1(),
    {
        self.as_str().trim()
    }

    /// Trim whitespace from the start of the [`JsString`].
    pub fn trim_start(&self) -> (trimmed: JsStr<'_>)
        ensures
            trimmed@ == whitespace::trim_start(self@),
            trimmed.in_latin1() == self.in_latin1(),
    {
        self.as_str().trim_start()
    }

    /// Trim whitespace from the end of the [`JsString`].
    pub fn trim_end(&self) -> (trimmed: JsStr<'_>)
        ensures
            trimmed@ == whitespace::trim_end(self@),
            trimmed.in_latin1() == self.in_latin1(),
    {
        self.as_str().trim_end()
    }

    /// Get the element a the given index, [`None`] otherwise.
    pub fn get<'a, I: JsSliceIndex<'a>>(&'a self, index: I) -> (value: Option<I::Value>)
        ensures
            value is Some <==> index.in_bounds(self@.len()),
            value matches Some(found) ==> index.selects(self@, self.in_latin1(), found),
    {
        self.as_str().get(index)
    }

    /// Returns an element or subslice depending on the type of index.
    ///
    /// The index must not be out of bounds.
    pub fn get_unchecked<'a, I: JsSliceIndex<'a>>(&'a self, index: I) -> (value: I::Value)
        requires
            index.in_bounds(self@.len()),
        ensures
            index.selects(self@, self.in_latin1(), value),
    {
        self.get(index).unwrap()
    }

    /// Get the element a the given index.
    ///
    /// The index must not be out of bounds.
    pub fn get_expect<'a, I: JsSliceIndex<'a>>(&'a self, index: I) -> (value: I::Value)
        requires
            index.in_bounds(self@.len()),
        ensures
            index.selects(self@, self.in_latin1(), value),
    {
        self.get(index).unwrap()
    }
}

/// How many code units the concatenation of `strings` has, and whether it is stored as Latin1; or
/// [`None`] if it is too long to be put in the heap.
pub fn concat_size(strings: &[JsStr<'_>]) -> (size: Option<(usize, bool)>)
    ensures
        size is Some <==> layout::fits(
            units_of(strings@).flatten().len() as int,
            unit_size(all_latin1(strings@)),
        ),
        size matches Some(found) ==> found.0 == units_of(strings@).flatten().len() && found.1
            == all_latin1(strings@),
{
    let ghost parts = units_of(strings@);
    let mut latin1_encoding = true;
    let mut full_count: usize = 0;
    assert(parts.take(0) =~= seq![]);
    for i in 0..strings.len()
        invariant
            parts == units_of(strings@),
            full_count == parts.take(i as int).flatten().len(),
            latin1_encoding == all_latin1(strings@.take(i as int)),
    {
        proof {
            lemma_flatten_take(parts, i as int);
            assert(strings@.take(i + 1) =~= strings@.take(i as int).push(strings@[i as int]));
            assert(strings@.take(i + 1)[i as int] == strings@[i as int]);
            if all_latin1(strings@.take(i + 1)) {
                assert forall|j: int| 0 <= j < i implies (#[trigger] strings@.take(
                    i as int,
                )[j]).in_latin1() by {
                    assert(strings@.take(i as int)[j] == strings@.take(i + 1)[j]);
                }
            }
        }
        full_count = match full_count.checked_add(strings[i].len()) {
            Some(sum) => sum,
            None => {
                proof {
                    layout::lemma_block_size(
                        parts.flatten().len() as int,
                        unit_size(all_latin1(strings@)),
                    );
                }
                return None;
            },
        };
        if !strings[i].is_latin1() {
            latin1_encoding = false;
        }
    }
    assert(strings@.take(strings@.len() as int) =~= strings@);
    assert(parts.take(strings@.len() as int) =~= parts);
    let bytes: usize = if latin1_encoding {
        1
    } else {
        2
    };
    match layout::string_layout(full_count, bytes) {
        Some(_) => Some((full_count, latin1_encoding)),
        None => None,
    }
}

/// The concatenation of the first parts is no longer than that of all of them, and grows by one
/// part at a time.
proof fn lemma_flatten_take(parts: Seq<Seq<u16>>, n: int)
    requires
        0 <= n < parts.len(),
    ensures
        parts.take(n + 1).flatten() == parts.take(n).flatten() + parts[n],
        parts.take(n + 1).flatten().len() <= parts.flatten().len(),
{
    assert(parts.take(n + 1) =~= parts.take(n).push(parts[n]));
    parts.take(n).lemma_flatten_push(parts[n]);
    vstd::seq_lib::lemma_flatten_concat(parts.take(n + 1), parts.skip(n + 1));
    assert(parts.take(n + 1) + parts.skip(n + 1) =~= parts);
}

/// Copies the bytes of Latin1 strings one after the other.
fn concat_latin1(strings: &[JsStr<'_>], full_count: usize) -> (bytes: Vec<u8>)
    requires
        all_latin1(strings@),
    ensures
        js_str::latin1_units(bytes@) == units_of(strings@).flatten(),
{
    let ghost parts = units_of(strings@);
    let mut bytes: Vec<u8> = Vec::with_capacity(full_count);
    assert(parts.take(0) =~= seq![]);
    assert(js_str::latin1_units(bytes@) =~= seq![]);
    for i in 0..strings.len()
        invariant
            parts == units_of(strings@),
            all_latin1(strings@),
            js_str::latin1_units(bytes@) == parts.take(i as int).flatten(),
    {
        let ghost before = bytes@;
        if let JsStrVariant::Latin1(data) = strings[i].variant() {
            bytes.extend_from_slice(data);
            proof {
                assert(bytes@ =~= before + data@);
                assert(js_str::latin1_units(bytes@) =~= js_str::latin1_units(before)
                    + js_str::latin1_units(data@));
            }
        }
        proof {
            lemma_flatten_take(parts, i as int);
        }
    }
    assert(parts.take(strings@.len() as int) =~= parts);
    bytes
}

/// Copies the units of strings one after the other, widening the bytes of Latin1 ones.
fn concat_utf16(strings: &[JsStr<'_>], full_count: usize) -> (units: Vec<u16>)
    ensures
        units@ == units_of(strings@).flatten(),
{
    let ghost parts = units_of(strings@);
    let mut units: Vec<u16> = Vec::with_capacity(full_count);
    assert(parts.take(0) =~= seq![]);
    for i in 0..strings.len()
        invariant
            parts == units_of(strings@),
            units@ == parts.take(i as int).flatten(),
    {
        let ghost before = units@;
        match strings[i].variant() {
            JsStrVariant::Latin1(data) => {
                for j in 0..data.len()
                    invariant
                        units@ == before + js_str::latin1_units(data@).take(j as int),
                {
                    units.push(data[j] as u16);
                    assert(units@ =~= before + js_str::latin1_units(data@).take(j + 1));
                }
                assert(js_str::latin1_units(data@).take(data@.len() as int)
                    =~= js_str::latin1_units(data@));
            },
            JsStrVariant::Utf16(data) => {
                units.extend_from_slice(data);
                assert(units@ =~= before + data@);
            },
        }
        proof {
            lemma_flatten_take(parts, i as int);
        }
    }
    assert(parts.take(strings@.len() as int) =~= parts);
    units
}

impl Clone for JsString {
    /// A copy that shares the units in the heap with this string. The contract cannot tell sharing
    /// from copying, nor show the count of [`JsString::refcount`] grow by one.
    fn clone(&self) -> (copy: JsString)
        ensures
            copy == *self,
            copy@ == self@,
            copy.interned() == self.interned(),
            copy.in_latin1() == self.in_latin1(),
    {
        proof {
            use_type_invariant(self);
        }
        match &self.repr {
            Repr::Static(index) => JsString { repr: Repr::Static(*index) },
            Repr::Heap(raw) => JsString { repr: Repr::Heap(Rc::clone(raw)) },
        }
    }
}

impl Default for JsString {
    fn default() -> (string: JsString)
        ensures
            string@ == Seq::<u16>::empty(),
            string.interned(),
            string.in_latin1(),
    {
        proof {
            common::lemma_empty_is_static();
        }
        JsString::from_static(StaticJsStrings::EMPTY)
    }
}

/// Mapping the valid segments of a string by a function that returns its argument gives the string
/// back.
pub proof fn lemma_map_identity<F: FnMut(String) -> String>(
    f: F,
    units: Seq<u16>,
    images: Seq<Seq<u16>>,
)
    requires
        forall|input: String, output: String| #[trigger]
            f.ensures((input,), output) ==> output@ == input@,
        images.len() == segments::segments(utf16::decode(units)).len(),
        forall|i: int|
            0 <= i < images.len() ==> maps_to(
                f,
                segments::segments(utf16::decode(units))[i],
                #[trigger] images[i],
            ),
    ensures
        images.flatten() == units,
{
    let parts = segments::segments(utf16::decode(units));
    segments::lemma_segments_of_string(units);
    assert forall|i: int| 0 <= i < images.len() implies #[trigger] images[i]
        == segments::segment_units(parts)[i] by {
        assert(maps_to(f, parts[i], images[i]));
    }
    assert(images =~= segments::segment_units(parts));
}

/// Concatenating strings one list after the other is concatenating all of them.
pub proof fn lemma_concat_lists(a: Seq<Seq<u16>>, b: Seq<Seq<u16>>)
    ensures
        (a + b).flatten() == a.flatten() + b.flatten(),
{
    vstd::seq_lib::lemma_flatten_concat(a, b);
}

} // verus!
