//! Equality and order of strings, by their code units.

use vstd::prelude::*;
use vstd::std_specs::cmp::{PartialEqSpecImpl, PartialOrdSpecImpl};

use std::cmp::Ordering;

use crate::js_str::JsStr;
use crate::js_string::JsString;
use crate::laws;
use crate::order;
use crate::utf16;

verus! {

impl<'a> PartialEq for JsStr<'a> {
    fn eq(&self, other: &JsStr<'a>) -> (same: bool)
        ensures
            same == (self@ == other@),
    {
        self.same_units(*other)
    }
}

impl<'a> PartialEqSpecImpl for JsStr<'a> {
    open spec fn obeys_eq_spec() -> bool {
        true
    }

    open spec fn eq_spec(&self, other: &JsStr<'a>) -> bool {
        self@ == other@
    }
}

impl<'a> Eq for JsStr<'a> {

}

impl<'a> PartialEq<str> for JsStr<'a> {
    fn eq(&self, other: &str) -> (same: bool)
        ensures
            same == (self@ == utf16::encode_text(other@)),
    {
        let units = utf16::encode_str(other);
        self.same_units(JsStr::utf16(units.as_slice()))
    }
}

impl<'a> PartialEqSpecImpl<str> for JsStr<'a> {
    open spec fn obeys_eq_spec() -> bool {
        true
    }

    open spec fn eq_spec(&self, other: &str) -> bool {
        self@ == utf16::encode_text(other@)
    }
}

impl PartialEq for JsString {
    fn eq(&self, other: &JsString) -> (same: bool)
        ensures
            same == (self@ == other@),
    {
        self.as_str().same_units(other.as_str())
    }
}

impl PartialEqSpecImpl for JsString {
    open spec fn obeys_eq_spec() -> bool {
        true
    }

    open spec fn eq_spec(&self, other: &JsString) -> bool {
        self@ == other@
    }
}

impl Eq for JsString {

}

impl PartialEq<JsString> for [u16] {
    fn eq(&self, other: &JsString) -> (same: bool)
        ensures
            same == (self@ == other@),
    {
        JsStr::utf16(self).same_units(other.as_str())
    }
}

impl PartialEqSpecImpl<JsString> for [u16] {
    open spec fn obeys_eq_spec() -> bool {
        true
    }

    open spec fn eq_spec(&self, other: &JsString) -> bool {
        self@ == other@
    }
}

impl<const N: usize> PartialEq<JsString> for [u16; N] {
    fn eq(&self, other: &JsString) -> (same: bool)
        ensures
            same == (self@ == other@),
    {
        *self.as_slice() == *other
    }
}

impl<const N: usize> PartialEqSpecImpl<JsString> for [u16; N] {
    open spec fn obeys_eq_spec() -> bool {
        true
    }

    open spec fn eq_spec(&self, other: &JsString) -> bool {
        self@ == other@
    }
}

impl PartialEq<[u16]> for JsString {
    fn eq(&self, other: &[u16]) -> (same: bool)
        ensures
            same == (self@ == other@),
    {
        *other == *self
    }
}

impl PartialEqSpecImpl<[u16]> for JsString {
    open spec fn obeys_eq_spec() -> bool {
        true
    }

    open spec fn eq_spec(&self, other: &[u16]) -> bool {
        self@ == other@
    }
}

impl<const N: usize> PartialEq<[u16; N]> for JsString {
    fn eq(&self, other: &[u16; N]) -> (same: bool)
        ensures
            same == (self@ == other@),
    {
        *self == *other.as_slice()
    }
}

impl<const N: usize> PartialEqSpecImpl<[u16; N]> for JsString {
    open spec fn obeys_eq_spec() -> bool {
        true
    }

    open spec fn eq_spec(&self, other: &[u16; N]) -> bool {
        self@ == other@
    }
}

impl PartialEq<str> for JsString {
    fn eq(&self, other: &str) -> (same: bool)
        ensures
            same == (self@ == utf16::encode_text(other@)),
    {
        self.as_str() == *other
    }
}

impl PartialEqSpecImpl<str> for JsString {
    open spec fn obeys_eq_spec() -> bool {
        true
    }

    open spec fn eq_spec(&self, other: &str) -> bool {
        self@ == utf16::encode_text(other@)
    }
}

impl<'b> PartialEq<&'b str> for JsString {
    fn eq(&self, other: &&'b str) -> (same: bool)
        ensures
            same == (self@ == utf16::encode_text(other@)),
    {
        self.as_str() == **other
    }
}

impl<'b> PartialEqSpecImpl<&'b str> for JsString {
    open spec fn obeys_eq_spec() -> bool {
        true
    }

    open spec fn eq_spec(&self, other: &&'b str) -> bool {
        self@ == utf16::encode_text(other@)
    }
}

impl PartialEq<JsString> for str {
    fn eq(&self, other: &JsString) -> (same: bool)
        ensures
            same == (other@ == utf16::encode_text(self@)),
    {
        *other == *self
    }
}

impl PartialEqSpecImpl<JsString> for str {
    open spec fn obeys_eq_spec() -> bool {
        true
    }

    open spec fn eq_spec(&self, other: &JsString) -> bool {
        other@ == utf16::encode_text(self@)
    }
}

impl<'a> PartialEq<JsStr<'a>> for JsString {
    fn eq(&self, other: &JsStr<'a>) -> (same: bool)
        ensures
            same == (self@ == other@),
    {
        self.as_str().same_units(*other)
    }
}

impl<'a> PartialEqSpecImpl<JsStr<'a>> for JsString {
    open spec fn obeys_eq_spec() -> bool {
        true
    }

    open spec fn eq_spec(&self, other: &JsStr<'a>) -> bool {
        self@ == other@
    }
}

impl<'a> PartialEq<JsString> for JsStr<'a> {
    fn eq(&self, other: &JsString) -> (same: bool)
        ensures
            same == (self@ == other@),
    {
        *other == *self
    }
}

impl<'a> PartialEqSpecImpl<JsString> for JsStr<'a> {
    open spec fn obeys_eq_spec() -> bool {
        true
    }

    open spec fn eq_spec(&self, other: &JsString) -> bool {
        self@ == other@
    }
}

/// The dictionary order of code units as an [`Ordering`].
pub open spec fn order_of(a: Seq<u16>, b: Seq<u16>) -> Ordering {
    if a == b {
        Ordering::Equal
    } else if order::precedes(a, b) {
        Ordering::Less
    } else {
        Ordering::Greater
    }
}

impl<'a> JsStr<'a> {
    /// Compares the two strings by their code units.
    pub fn cmp(&self, other: &JsStr<'_>) -> (ordering: Ordering)
        ensures
            ordering == order_of(self@, other@),
    {
        if self.same_units(*other) {
            Ordering::Equal
        } else if self.is_before(*other) {
            Ordering::Less
        } else {
            Ordering::Greater
        }
    }
}

impl<'a> PartialOrd for JsStr<'a> {
    fn partial_cmp(&self, other: &JsStr<'a>) -> (ordering: Option<Ordering>)
        ensures
            ordering == Some(order_of(self@, other@)),
    {
        Some(self.cmp(other))
    }
}

impl<'a> PartialOrdSpecImpl for JsStr<'a> {
    open spec fn obeys_partial_cmp_spec() -> bool {
        true
    }

    open spec fn partial_cmp_spec(&self, other: &JsStr<'a>) -> Option<Ordering> {
        Some(order_of(self@, other@))
    }
}

impl JsString {
    /// Compares the two strings by their code units.
    pub fn cmp(&self, other: &JsString) -> (ordering: Ordering)
        ensures
            ordering == order_of(self@, other@),
    {
        self.as_str().cmp(&other.as_str())
    }
}

impl PartialOrd for JsString {
    fn partial_cmp(&self, other: &JsString) -> (ordering: Option<Ordering>)
        ensures
            ordering == Some(order_of(self@, other@)),
    {
        Some(self.cmp(other))
    }
}

impl PartialOrdSpecImpl for JsString {
    open spec fn obeys_partial_cmp_spec() -> bool {
        true
    }

    open spec fn partial_cmp_spec(&self, other: &JsString) -> Option<Ordering> {
        Some(order_of(self@, other@))
    }
}

/// Two strings compare as equal exactly when they have the same code units, and the other way
/// round they compare the opposite way.
pub proof fn lemma_order_of(a: Seq<u16>, b: Seq<u16>)
    ensures
        order_of(a, b) == Ordering::Equal <==> a == b,
        order_of(a, b) == Ordering::Less <==> order_of(b, a) == Ordering::Greater,
{
    order::lemma_precedes_total(a, b);
}

/// What comes before a second string that comes before a third comes before the third.
pub proof fn lemma_order_transitive(a: Seq<u16>, b: Seq<u16>, c: Seq<u16>)
    requires
        order_of(a, b) == Ordering::Less,
        order_of(b, c) == Ordering::Less,
    ensures
        order_of(a, c) == Ordering::Less,
{
    order::lemma_precedes_total(a, b);
    order::lemma_precedes_total(b, c);
    order::lemma_precedes_transitive(a, b, c);
    order::lemma_precedes_irreflexive(a);
    order::lemma_precedes_total(a, c);
}

/// Where two strings first differ, the one with the smaller unit is the lesser one, whatever
/// follows.
pub proof fn lemma_order_by_first_difference(
    prefix: Seq<u16>,
    x: u16,
    y: u16,
    s: Seq<u16>,
    t: Seq<u16>,
)
    requires
        x < y,
    ensures
        order_of(prefix + seq![x] + s, prefix + seq![y] + t) == Ordering::Less,
        order_of(prefix + seq![y] + t, prefix + seq![x] + s) == Ordering::Greater,
{
    laws::lemma_smaller_unit_comes_first(prefix, x, y, s, t);
    lemma_order_of(prefix + seq![x] + s, prefix + seq![y] + t);
    order::lemma_precedes_irreflexive(prefix + seq![x] + s);
}

/// A string is less than any longer one that starts with it.
pub proof fn lemma_order_of_a_prefix(prefix: Seq<u16>, y: u16, t: Seq<u16>)
    ensures
        order_of(prefix, prefix + seq![y] + t) == Ordering::Less,
        order_of(prefix + seq![y] + t, prefix) == Ordering::Greater,
        order_of(prefix, prefix) == Ordering::Equal,
{
    laws::lemma_prefix_comes_first(prefix, y, t);
    lemma_order_of(prefix, prefix + seq![y] + t);
    lemma_order_of(prefix, prefix);
    order::lemma_precedes_irreflexive(prefix);
}

} // verus!
