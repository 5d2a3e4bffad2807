//! Contracts of the standard library functions that the crate calls and that `vstd` leaves
//! unspecified.

use vstd::prelude::*;

use std::rc::Rc;

verus! {

/// `char::from_u32`: converts a number to the `char` with that scalar value, and gives `None`
/// exactly on the numbers that are no Unicode scalar value.
pub assume_specification[ char::from_u32 ](i: u32) -> (r: Option<char>)
    ensures
        r == if i < 0xD800 || 0xE000 <= i <= 0x10FFFF {
            Some(i as char)
        } else {
            None
        },
;

/// `String::push`: appends one character.
pub assume_specification[ String::push ](string: &mut String, c: char)
    ensures
        final(string)@ == old(string)@.push(c),
;

/// `Vec::capacity`: the number of elements that the vector has room for. The vector holds no more
/// elements than that, and no vector takes more than `isize::MAX` bytes.
#[verifier::external_body]
pub(crate) fn vec_capacity<T>(vec: &Vec<T>) -> (capacity: usize)
    ensures
        vec@.len() <= capacity,
        capacity * vstd::layout::size_of::<T>() <= isize::MAX,
{
    vec.capacity()
}

/// `Rc::strong_count`: the number of pointers to the allocation, which is at least the one given.
/// How many others there are depends on what else is alive at the moment of the call, and is not
/// said.
#[verifier::external_body]
pub(crate) fn strong_count<T>(pointer: &Rc<T>) -> (count: usize)
    ensures
        count >= 1,
{
    Rc::strong_count(pointer)
}

/// `Iterator::size_hint`: its first component, a lower bound on the number of items to come. An
/// iterator may get it wrong, so that nothing is said of it.
#[verifier::external_body]
pub(crate) fn size_hint_lower<I: Iterator>(iter: &I) -> usize {
    iter.size_hint().0
}

} // verus!
