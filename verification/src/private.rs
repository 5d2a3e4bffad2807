//! The element types of a builder.

use vstd::prelude::*;

verus! {

/// Inner elements represented for `JsStringBuilder`.
pub trait JsStringData: Copy {
    /// The code unit that the element stands for.
    spec fn as_unit(self) -> u16;

    /// The number of bytes in an element.
    spec fn size() -> int;

    /// The code unit that the element stands for.
    fn to_unit(self) -> (unit: u16)
        ensures
            unit == self.as_unit(),
    ;

    /// The number of bytes in an element.
    fn data_size() -> (bytes: usize)
        ensures
            bytes == Self::size(),
    ;

    /// An element is one byte or one code unit.
    proof fn lemma_size()
        ensures
            Self::size() == 1 || Self::size() == 2,
    ;
}

impl JsStringData for u8 {
    open spec fn as_unit(self) -> u16 {
        self as u16
    }

    open spec fn size() -> int {
        1
    }

    fn to_unit(self) -> (unit: u16) {
        self as u16
    }

    fn data_size() -> (bytes: usize) {
        1
    }

    proof fn lemma_size() {
    }
}

impl JsStringData for u16 {
    open spec fn as_unit(self) -> u16 {
        self
    }

    open spec fn size() -> int {
        2
    }

    fn to_unit(self) -> (unit: u16) {
        self
    }

    fn data_size() -> (bytes: usize) {
        2
    }

    proof fn lemma_size() {
    }
}

} // verus!
