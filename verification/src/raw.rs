//! The representation of a string in the heap.

use vstd::prelude::*;

use crate::external::vec_capacity;
use crate::js_str::{self, JsStr};
use crate::layout;

verus! {

/// The raw representation of a [`JsString`](crate::JsString) in the heap.
#[derive(Debug)]
pub(crate) struct RawJsString {
    /// Contains the flags and Latin1/UTF-16 length.
    ///
    /// The latin1 flag is stored in the bottom bit.
    flags_and_len: usize,
    /// The bytes of a Latin1 string, as many as the length says; empty for any other string.
    bytes: Vec<u8>,
    /// The units of a UTF-16 string, as many as the length says; empty for any other string.
    units: Vec<u16>,
}

impl RawJsString {
    /// The number of bits in `flags_and_len` below the length.
    const BITFLAG_COUNT: u32 = 1;

    /// The bit in `flags_and_len` that tells Latin1 strings.
    const LATIN1_BITFLAG: usize = 1;

    /// The code units of the string.
    pub closed spec fn units(&self) -> Seq<u16> {
        if self.in_latin1() {
            js_str::latin1_units(self.bytes@)
        } else {
            self.units@
        }
    }

    /// Whether the string is stored as Latin1.
    pub closed spec fn in_latin1(&self) -> bool {
        self.flags_and_len % 2 == 1
    }

    #[verifier::type_invariant]
    closed spec fn inv(&self) -> bool {
        &&& self.units().len() <= isize::MAX
        &&& if self.in_latin1() {
            self.units@.len() == 0
        } else {
            self.bytes@.len() == 0
        }
        &&& self.flags_and_len == layout::flags_and_len(self.units().len() as int, self.in_latin1())
    }

    /// Reads the latin1 flag.
    pub(crate) fn is_latin1(&self) -> (latin1: bool)
        ensures
            latin1 == self.in_latin1(),
    {
        proof {
            use_type_invariant(self);
        }
        let word = self.flags_and_len;
        assert(word & 1 == word % 2) by (bit_vector);
        (self.flags_and_len & Self::LATIN1_BITFLAG) != 0
    }

    /// Reads the length.
    pub(crate) fn len(&self) -> (len: usize)
        ensures
            len == self.units().len(),
    {
        proof {
            use_type_invariant(self);
        }
        let word = self.flags_and_len;
        assert(word >> 1u32 == word / 2) by (bit_vector);
        self.flags_and_len >> Self::BITFLAG_COUNT
    }

    /// Packs a length and the latin1 flag into one word.
    fn encode_flags_and_len(len: usize, latin1: bool) -> (word: usize)
        requires
            len <= isize::MAX,
        ensures
            word == layout::flags_and_len(len as int, latin1),
    {
        let flag: usize = if latin1 {
            Self::LATIN1_BITFLAG
        } else {
            0
        };
        proof {
            vstd::arithmetic::power2::lemma2_to64();
            vstd::bits::lemma_usize_shl_is_mul(len, 1);
            let doubled = len << 1usize;
            assert(len << 1u32 == len << 1usize) by (bit_vector);
            assert(doubled | flag == doubled + flag) by (bit_vector)
                requires
                    doubled % 2 == 0,
                    flag == 0 || flag == 1,
            ;
        }
        (len << Self::BITFLAG_COUNT) | flag
    }

    /// Puts the bytes of a Latin1 string in the heap.
    pub(crate) fn from_latin1(bytes: Vec<u8>) -> (raw: RawJsString)
        ensures
            raw.units() == js_str::latin1_units(bytes@),
            raw.in_latin1(),
    {
        broadcast use vstd::layout::layout_of_primitives;

        // A vector of this capacity holds few enough bytes for the length to be shifted.
        let _capacity = vec_capacity(&bytes);
        RawJsString {
            flags_and_len: Self::encode_flags_and_len(bytes.len(), true),
            bytes,
            units: Vec::new(),
        }
    }

    /// Puts the units of a UTF-16 string in the heap.
    pub(crate) fn from_utf16(units: Vec<u16>) -> (raw: RawJsString)
        ensures
            raw.units() == units@,
            !raw.in_latin1(),
    {
        broadcast use vstd::layout::layout_of_primitives;

        // A vector of this capacity holds few enough units for the length to be shifted.
        let _capacity = vec_capacity(&units);
        RawJsString {
            flags_and_len: Self::encode_flags_and_len(units.len(), false),
            bytes: Vec::new(),
            units,
        }
    }

    /// Borrows the string.
    pub(crate) fn as_str(&self) -> (string: JsStr<'_>)
        ensures
            string@ == self.units(),
            string.in_latin1() == self.in_latin1(),
    {
        if self.is_latin1() {
            JsStr::latin1(self.bytes.as_slice())
        } else {
            JsStr::utf16(self.units.as_slice())
        }
    }
}

} // verus!
