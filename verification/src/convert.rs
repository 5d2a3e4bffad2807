//! Conversions into strings.

use vstd::prelude::*;
use vstd::std_specs::convert::FromSpecImpl;

use std::convert::Infallible;
use std::str::FromStr;

use crate::common::{self, StaticJsStrings};
use crate::js_str::{self, JsStr};
use crate::js_string::{self, JsString};
use crate::layout;
use crate::utf16;

verus! {

impl<'a> From<&'a JsString> for JsStr<'a> {
    fn from(value: &'a JsString) -> (string: JsStr<'a>)
        ensures
            string@ == value@,
            string.in_latin1() == value.in_latin1(),
    {
        value.as_str()
    }
}

impl<'a> FromSpecImpl<&'a JsString> for JsStr<'a> {
    open spec fn obeys_from_spec() -> bool {
        false
    }

    open spec fn from_spec(value: &'a JsString) -> JsStr<'a> {
        arbitrary()
    }
}

impl<'a> From<&'a [u16]> for JsString {
    fn from(s: &'a [u16]) -> (string: JsString)
        ensures
            string@ == s@,
            string.interned() == common::is_static_units(s@),
            string.in_latin1() == string.interned(),
    {
        JsString::from_slice(JsStr::utf16(s))
    }
}

impl<'a> FromSpecImpl<&'a [u16]> for JsString {
    open spec fn obeys_from_spec() -> bool {
        false
    }

    open spec fn from_spec(s: &'a [u16]) -> JsString {
        arbitrary()
    }
}

impl<'a, const N: usize> From<&'a [u16; N]> for JsString {
    fn from(s: &'a [u16; N]) -> (string: JsString)
        ensures
            string@ == s@,
            string.interned() == common::is_static_units(s@),
            string.in_latin1() == string.interned(),
    {
        JsString::from(s.as_slice())
    }
}

impl<'a, const N: usize> FromSpecImpl<&'a [u16; N]> for JsString {
    open spec fn obeys_from_spec() -> bool {
        false
    }

    open spec fn from_spec(s: &'a [u16; N]) -> JsString {
        arbitrary()
    }
}

impl<'a> From<&'a str> for JsString {
    fn from(s: &'a str) -> (string: JsString)
        ensures
            string@ == utf16::encode_text(s@),
            string.interned() == common::is_static_units(string@),
            string.in_latin1() == s.is_ascii(),
    {
        if s.is_ascii() {
            let js_str = JsStr::latin1(s.as_bytes());
            proof {
                lemma_ascii_units(s@);
                vstd::string::is_ascii_spec_bytes(s);
                assert(js_str@ =~= s@.map_values(|c: char| c as u16));
            }
            return match StaticJsStrings::get_string(&js_str) {
                Some(interned) => interned,
                None => JsString::from_slice_skip_interning(js_str),
            };
        }
        proof {
            lemma_static_units_are_ascii(s@);
        }
        let units = utf16::encode_str(s);
        JsString::from_slice_skip_interning(JsStr::utf16(units.as_slice()))
    }
}

impl<'a> FromSpecImpl<&'a str> for JsString {
    open spec fn obeys_from_spec() -> bool {
        false
    }

    open spec fn from_spec(s: &'a str) -> JsString {
        arbitrary()
    }
}

impl From<String> for JsString {
    fn from(s: String) -> (string: JsString)
        ensures
            string@ == utf16::encode_text(s@),
            string.interned() == common::is_static_units(string@),
            string.in_latin1() == vstd::utf8::is_ascii_chars(s@),
    {
        JsString::from(s.as_str())
    }
}

impl FromSpecImpl<String> for JsString {
    open spec fn obeys_from_spec() -> bool {
        false
    }

    open spec fn from_spec(s: String) -> JsString {
        arbitrary()
    }
}

impl<'a> From<JsStr<'a>> for JsString {
    fn from(value: JsStr<'a>) -> (string: JsString)
        ensures
            string@ == value@,
            string.interned() == common::is_static_units(value@),
            string.in_latin1() == (string.interned() || value.in_latin1()),
    {
        match StaticJsStrings::get_string(&value) {
            Some(interned) => interned,
            None => JsString::from_slice_skip_interning(value),
        }
    }
}

impl<'a> FromSpecImpl<JsStr<'a>> for JsString {
    open spec fn obeys_from_spec() -> bool {
        false
    }

    open spec fn from_spec(value: JsStr<'a>) -> JsString {
        arbitrary()
    }
}

impl FromStr for JsString {
    type Err = Infallible;

    fn from_str(s: &str) -> (string: Result<JsString, Infallible>)
        ensures
            ({
                &&& string matches Ok(converted)
                &&& converted@ == utf16::encode_text(s@)
                &&& converted.interned() == common::is_static_units(converted@)
                &&& converted.in_latin1() == s.is_ascii()
            }),
    {
        Ok(JsString::from(s))
    }
}

/// The code units of each of the strings.
pub open spec fn units_of(strings: Seq<JsString>) -> Seq<Seq<u16>> {
    strings.map_values(|string: JsString| string@)
}

/// Whether all of the strings are stored as Latin1.
pub open spec fn all_latin1(strings: Seq<JsString>) -> bool {
    forall|i: int| 0 <= i < strings.len() ==> (#[trigger] strings[i]).in_latin1()
}

impl JsString {
    /// Creates a new [`JsString`] from the concatenation of every element of `value`.
    ///
    /// The concatenation must be short enough to be put in the heap.
    pub fn from_strings(value: &[JsString]) -> (string: JsString)
        requires
            layout::fits(
                units_of(value@).flatten().len() as int,
                js_string::unit_size(all_latin1(value@)),
            ),
        ensures
            string@ == units_of(value@).flatten(),
            string.interned() == common::is_static_units(string@),
            string.in_latin1() == (string.interned() || all_latin1(value@)),
    {
        let mut strings: Vec<JsStr<'_>> = Vec::with_capacity(value.len());
        for i in 0..value.len()
            invariant
                strings@.len() == i,
                forall|j: int|
                    0 <= j < i ==> {
                        &&& (#[trigger] strings@[j])@ == value@[j]@
                        &&& strings@[j].in_latin1() == value@[j].in_latin1()
                    },
        {
            strings.push(value[i].as_str());
        }
        proof {
            assert(js_string::units_of(strings@) =~= units_of(value@));
            if all_latin1(value@) {
                assert(js_string::all_latin1(strings@));
            }
            if js_string::all_latin1(strings@) {
                assert forall|i: int| 0 <= i < value@.len() implies (
                #[trigger] value@[i]).in_latin1() by {
                    assert(strings@[i].in_latin1());
                }
            }
        }
        JsString::concat_array(strings.as_slice())
    }
}

/// The UTF-16 encoding of an ASCII text has one unit for each character.
pub proof fn lemma_ascii_units(text: Seq<char>)
    requires
        vstd::utf8::is_ascii_chars(text),
    ensures
        utf16::encode_text(text) == text.map_values(|c: char| c as u16),
{
    let units = text.map_values(|c: char| c as u16);
    utf16::lemma_decode_no_surrogates(units);
    utf16::lemma_encode_decode(units);
    assert(utf16::decode(units) =~= utf16::scalars(text)) by {
        assert forall|i: int| 0 <= i < units.len() implies #[trigger] utf16::decode(units)[i]
            == utf16::scalars(text)[i] by {
            assert(units[i] as char == text[i]);
        }
    }
}

/// A text whose encoding is that of a static string is ASCII.
proof fn lemma_static_units_are_ascii(text: Seq<char>)
    ensures
        common::is_static_units(utf16::encode_text(text)) ==> vstd::utf8::is_ascii_chars(text),
{
    if common::is_static_units(utf16::encode_text(text)) {
        let index = choose|index: usize|
            index < StaticJsStrings::COUNT && #[trigger] common::static_units(index)
                == utf16::encode_text(text);
        common::lemma_static_text_is_ascii(index);
        lemma_ascii_units(common::static_text(index));
        utf16::lemma_decode_encode_text(text);
        utf16::lemma_decode_encode_text(common::static_text(index));
    }
}

} // verus!
