//! Unicode code points as they occur in a UTF-16 string.

use vstd::prelude::*;

use crate::utf16;

verus! {

/// Represents a Unicode codepoint within a [`JsString`](crate::JsString), which could be a valid
/// '[Unicode scalar value]', or an unpaired surrogate.
///
/// [Unicode scalar value]: https://www.unicode.org/glossary/#unicode_scalar_value
#[derive(Clone, Copy, Debug, Eq, PartialEq, Structural)]
pub enum CodePoint {
    /// A valid Unicode scalar value.
    Unicode(char),
    /// An unpaired surrogate.
    UnpairedSurrogate(u16),
}

impl CodePoint {
    /// The UTF-16 code units that stand for this code point.
    pub open spec fn units(self) -> Seq<u16> {
        match self {
            CodePoint::Unicode(c) => utf16::encode_char(c),
            CodePoint::UnpairedSurrogate(surr) => seq![surr],
        }
    }

    /// Get the number of UTF-16 code units needed to encode this code point.
    pub fn code_unit_count(self) -> (count: usize)
        ensures
            count == self.units().len(),
            count == 2 <==> (self matches CodePoint::Unicode(c) && c as u32 >= 0x10000),
            count == 1 || count == 2,
    {
        match self {
            CodePoint::Unicode(c) => if (c as u32) < 0x10000 {
                1
            } else {
                2
            },
            CodePoint::UnpairedSurrogate(_) => 1,
        }
    }

    /// Convert the code point to its [`u32`] representation.
    pub fn as_u32(self) -> (value: u32)
        ensures
            self matches CodePoint::Unicode(c) ==> value == c as u32,
            self matches CodePoint::UnpairedSurrogate(surr) ==> value == surr as u32,
    {
        match self {
            CodePoint::Unicode(c) => c as u32,
            CodePoint::UnpairedSurrogate(surr) => surr as u32,
        }
    }

    /// If the code point represents a valid 'Unicode scalar value', returns its [`char`]
    /// representation, otherwise returns [`None`] on unpaired surrogates.
    pub fn as_char(self) -> (c: Option<char>)
        ensures
            c == match self {
                CodePoint::Unicode(c) => Some(c),
                CodePoint::UnpairedSurrogate(_) => None,
            },
    {
        match self {
            CodePoint::Unicode(c) => Some(c),
            CodePoint::UnpairedSurrogate(_) => None,
        }
    }

    /// Encodes this code point as UTF-16 into the provided u16 buffer, and then returns the
    /// subslice of the buffer that contains the encoded character. What follows that subslice
    /// keeps its value.
    ///
    /// The buffer must be large enough. A buffer of length 2 is large enough to encode any code
    /// point.
    pub fn encode_utf16(self, dst: &mut [u16]) -> (encoded: &mut [u16])
        requires
            self.units().len() <= old(dst)@.len(),
        ensures
            encoded@ == self.units(),
            final(dst)@ == final(encoded)@ + old(dst)@.skip(self.units().len() as int),
    {
        let count = self.code_unit_count();
        let (encoded, _rest) = dst.split_at_mut(count);
        match self {
            CodePoint::Unicode(c) => {
                let value = c as u32;
                if value < 0x10000 {
                    encoded[0] = value as u16;
                } else {
                    let offset = value - 0x10000;
                    encoded[0] = (0xD800 + offset / 0x400) as u16;
                    encoded[1] = (0xDC00 + offset % 0x400) as u16;
                }
            },
            CodePoint::UnpairedSurrogate(surr) => {
                encoded[0] = surr;
            },
        }
        assert(encoded@ =~= self.units());
        encoded
    }
}

} // verus!
