//! The values of the discriminant byte of a `NonEmptySinStr`.
//!
//! A heap buffer is always aligned to a `usize`, so the low bits of its
//! address are zero. The inline representation reuses exactly those values:
//! a discriminant in `1..=NICHE_MAX_INT` is the length of an inline string,
//! anything else marks a heap string.

use vstd::prelude::*;

verus! {

/// Number of bytes in a `usize` on this target.
pub const USIZE_BYTES: usize = (usize::BITS / 8) as usize;

/// Largest length of a string that is stored inline.
pub const NICHE_MAX_INT: usize = (usize::BITS / 8 - 1) as usize;

/// Number of bytes of the inline data area: the largest inline capacity of
/// any supported target (64-bit).
pub const INLINE_BUF: usize = 7;

/// The discriminant held by a heap string: like the low byte of an address
/// aligned to a `usize`, it is a multiple of the alignment and lies outside
/// `1..=NICHE_MAX_INT`.
pub const HEAP_DISC: u8 = 0x80;

/// The target is either 32-bit or 64-bit.
pub proof fn lemma_word_size()
    ensures
        usize::BITS == 32 || usize::BITS == 64,
        USIZE_BYTES == 4 || USIZE_BYTES == 8,
        NICHE_MAX_INT == USIZE_BYTES - 1,
        NICHE_MAX_INT == 3 || NICHE_MAX_INT == 7,
        NICHE_MAX_INT <= INLINE_BUF,
{
}

/// A discriminant value that marks an inline string.
pub open spec fn is_inline_disc(disc: u8) -> bool {
    1 <= disc <= NICHE_MAX_INT
}

/// Tells whether `disc` is the discriminant of an inline string, with one
/// wrapping subtraction and one comparison: `0` wraps to `usize::MAX`.
#[inline]
pub fn disc_is_inline(disc: u8) -> (r: bool)
    ensures
        r == is_inline_disc(disc),
{
    let len = disc as usize;
    len.wrapping_sub(1) < NICHE_MAX_INT
}

/// `INLINE_BUF` as a mathematical integer.
pub open spec fn inline_buf_len() -> int {
    INLINE_BUF as int
}

/// A natural number as an integer.
pub open spec fn int_of_nat(n: nat) -> int {
    n as int
}

/// A `usize` as an integer.
pub open spec fn int_of_usize(i: usize) -> int {
    i as int
}

/// A non-negative integer as a natural number (zero for negative ones).
pub open spec fn nat_of(k: int) -> nat {
    if k < 0 {
        0
    } else {
        k as nat
    }
}

} // verus!
