//! A string type that stores short strings inline in the value itself and
//! longer ones in a heap buffer.
//!
//! The value is written in safe Rust: it holds an inline word (data area and
//! discriminant byte) beside an optional heap buffer, so it takes several
//! words, not the single tagged word that a pointer-tagging layout would.
//!
//! The inline capacity is `NICHE_MAX_INT` bytes: the size of a `usize` minus
//! the one byte that holds the discriminant (7 bytes on 64-bit targets,
//! 3 bytes on 32-bit targets). Empty strings are `SinStr` values holding no
//! `NonEmptySinStr` at all.
//!
//! What this crate does not offer, and why:
//! - mutable access to the text (`as_str_mut`, `as_bytes_mut`, `DerefMut`,
//!   `BorrowMut`): a `&mut` into a field of a type with a representation
//!   invariant cannot be handed out, and a changed heap string would leave
//!   the copy of its first bytes in the inline area stale;
//! - `Display`: `to_string` returns the text as a `String` instead;
//! - `From<&str>` and `FromStr`: building a string requires its length plus
//!   a word to stay within `isize::MAX`, which a trait method cannot demand;
//!   the inherent `SinStr::from_str` and `SinStr::new` carry that condition;
//! - an `EMPTY` constant: `SinStr::empty()` returns the empty string;
//! - literal macros and `no_std`;
//! - a one-word value with a niche for `Option` (see above).
//!
//! `len` returns a plain `usize` (at least 1 for a `NonEmptySinStr`).

use vstd::prelude::*;

pub mod discriminant;
pub mod non_empty;
pub mod order;
pub mod sinstr;
pub mod text;

pub use non_empty::NonEmptySinStr;
pub use sinstr::SinStr;

verus! {

/// Marks a path as unlikely to be taken. It does nothing.
#[inline]
pub fn cold() {
}

/// Branch hint: returns `b` unchanged, calling [`cold`] on the unlikely path.
#[inline]
pub fn likely(b: bool) -> (r: bool)
    ensures
        r == b,
{
    if !b {
        cold()
    }
    b
}

/// Branch hint: returns `b` unchanged, calling [`cold`] on the unlikely path.
#[inline]
pub fn unlikely(b: bool) -> (r: bool)
    ensures
        r == b,
{
    if b {
        cold()
    }
    b
}

} // verus!
