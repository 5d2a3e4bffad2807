//! The memory blocks that hold strings: a header of two machine words, one of them with the length
//! and a flag, then the units.

use vstd::prelude::*;

verus! {

/// The number of bytes in a machine word, which is also the alignment of a block.
pub open spec fn word_size() -> int {
    usize::BITS as int / 8
}

/// The number of bytes in a block that come before the units.
pub open spec fn header_size() -> int {
    2 * word_size()
}

/// The size of a block for `len` units of `unit_size` bytes: header and units, padded to whole
/// words.
pub open spec fn block_size(len: int, unit_size: int) -> int {
    (header_size() + len * unit_size + word_size() - 1) / word_size() * word_size()
}

/// Whether a block for `len` units of `unit_size` bytes can be described at all: its padded size
/// must not exceed `isize::MAX`.
pub open spec fn fits(len: int, unit_size: int) -> bool {
    block_size(len, unit_size) <= isize::MAX
}

/// How many units of `unit_size` bytes a block for `len` units has room for. Padding can make it
/// a few more than `len`.
pub open spec fn usable_capacity(len: int, unit_size: int) -> int {
    (block_size(len, unit_size) - header_size()) / unit_size
}

/// The number of bytes in a machine word.
fn word_bytes() -> (bytes: usize)
    ensures
        bytes == word_size(),
        bytes == 4 || bytes == 8,
{
    (usize::BITS / 8) as usize
}

/// The size of a block for `len` units of `unit_size` bytes, or `None` when no block can be that
/// large.
pub fn string_layout(len: usize, unit_size: usize) -> (size: Option<usize>)
    requires
        unit_size == 1 || unit_size == 2,
    ensures
        size is Some <==> fits(len as int, unit_size as int),
        size matches Some(bytes) ==> bytes == block_size(len as int, unit_size as int),
{
    let word = word_bytes();
    let limit = isize::MAX as usize - 3 * word + 1;
    if len > limit / unit_size {
        proof {
            lemma_block_size(len as int, unit_size as int);
            assert(len * unit_size > limit) by (nonlinear_arith)
                requires
                    len > limit / unit_size,
                    unit_size == 1 || unit_size == 2,
            ;
        }
        return None;
    }
    proof {
        lemma_block_size(len as int, unit_size as int);
        assert(len * unit_size <= limit) by (nonlinear_arith)
            requires
                len <= limit / unit_size,
                unit_size == 1 || unit_size == 2,
        ;
    }
    Some((2 * word + len * unit_size + word - 1) / word * word)
}

/// How many units of `unit_size` bytes a block of `size` bytes has room for.
pub fn capacity_from_layout(size: usize, unit_size: usize) -> (capacity: usize)
    requires
        header_size() <= size,
        unit_size == 1 || unit_size == 2,
    ensures
        capacity == (size - header_size()) / unit_size as int,
{
    (size - 2 * word_bytes()) / unit_size
}

/// A block is as long as its content up to less than a word of padding, and it fits exactly when
/// its content leaves room for the padding below `isize::MAX`.
pub proof fn lemma_block_size(len: int, unit_size: int)
    requires
        0 <= len,
        unit_size == 1 || unit_size == 2,
    ensures
        word_size() == 4 || word_size() == 8,
        0 <= block_size(len, unit_size) - header_size() - len * unit_size < word_size(),
        fits(len, unit_size) <==> header_size() + len * unit_size <= isize::MAX - (word_size() - 1),
        len == 0 ==> block_size(len, unit_size) == header_size(),
{
    if usize::BITS == 32 {
        assert(word_size() == 4);
        assert(isize::MAX == 0x7FFF_FFFF);
    } else {
        assert(word_size() == 8);
        assert(isize::MAX == 0x7FFF_FFFF_FFFF_FFFF);
    }
}

/// A block for `len` units has room for all of them, and asking for its whole room again gives a
/// block with the same room.
pub proof fn lemma_usable_capacity(len: int, unit_size: int)
    requires
        0 <= len,
        unit_size == 1 || unit_size == 2,
    ensures
        len <= usable_capacity(len, unit_size),
        usable_capacity(len, unit_size) * unit_size < len * unit_size + word_size(),
        usable_capacity(usable_capacity(len, unit_size), unit_size) == usable_capacity(
            len,
            unit_size,
        ),
        fits(len, unit_size) ==> fits(usable_capacity(len, unit_size), unit_size),
        fits(len, unit_size) ==> usable_capacity(len, unit_size) < isize::MAX,
{
    lemma_block_size(len, unit_size);
    let usable = usable_capacity(len, unit_size);
    if usize::BITS == 32 {
        assert(word_size() == 4);
        assert(isize::MAX == 0x7FFF_FFFF);
    } else {
        assert(word_size() == 8);
        assert(isize::MAX == 0x7FFF_FFFF_FFFF_FFFF);
    }
    lemma_block_size(usable, unit_size);
    // The room for units is a whole number of words, so that it is divided up without rest.
    let body = block_size(len, unit_size) - header_size();
    if word_size() == 4 {
        let words = (header_size() + len * unit_size + 3) / 4;
        assert(block_size(len, unit_size) == words * 4);
        assert(body == 4 * (words - 2));
        assert(usable * unit_size == body);
        assert(block_size(usable, unit_size) == block_size(len, unit_size));
    } else {
        let words = (header_size() + len * unit_size + 7) / 8;
        assert(block_size(len, unit_size) == words * 8);
        assert(body == 8 * (words - 2));
        assert(usable * unit_size == body);
        assert(block_size(usable, unit_size) == block_size(len, unit_size));
    }
}

/// A block with more units is no shorter.
pub proof fn lemma_fits_monotonic(smaller: int, larger: int, unit_size: int)
    requires
        0 <= smaller <= larger,
        unit_size == 1 || unit_size == 2,
        fits(larger, unit_size),
    ensures
        fits(smaller, unit_size),
{
    lemma_block_size(smaller, unit_size);
    lemma_block_size(larger, unit_size);
}

/// The word that holds a length and the latin1 flag.
pub open spec fn flags_and_len(len: int, latin1: bool) -> int {
    2 * len + if latin1 {
        1int
    } else {
        0
    }
}

/// The length and the flag can be read back from the word that holds them, and no two pairs share
/// a word.
pub proof fn lemma_flags_and_len(len: int, latin1: bool)
    requires
        0 <= len,
    ensures
        flags_and_len(len, latin1) / 2 == len,
        flags_and_len(len, latin1) % 2 == if latin1 {
            1int
        } else {
            0
        },
{
}

} // verus!
