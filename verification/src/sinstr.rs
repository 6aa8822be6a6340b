//! `SinStr`: a possibly empty string, stored inline when short.

use core::convert::Infallible;

use vstd::prelude::*;
use vstd::string::StringSliceAdditionalSpecFns;
use vstd::std_specs::cmp::PartialEqSpec;
use vstd::utf8::{decode_utf8, decode_utf8_encode_utf8, encode_utf8_decode_utf8, valid_utf8};

use crate::discriminant::{NICHE_MAX_INT, USIZE_BYTES};
use crate::non_empty::{valid_heap_len, NonEmptySinStr};
use crate::text::{slice_bytes, str_bytes};

verus! {

/// A string that is empty (no storage at all), inline (at most
/// `NICHE_MAX_INT` bytes) or on the heap.
#[derive(Debug, Hash, Ord)]
pub struct SinStr(Option<NonEmptySinStr>);

impl View for SinStr {
    type V = Seq<u8>;

    /// The bytes of the string (valid UTF-8).
    closed spec fn view(&self) -> Seq<u8> {
        match self.0 {
            Some(n) => n@,
            None => Seq::empty(),
        }
    }
}

impl SinStr {
    /// The empty string (it holds no storage).
    pub fn empty() -> (r: SinStr)
        ensures
            r@ == Seq::<u8>::empty(),
            r.wf(),
    {
        SinStr(None)
    }

    /// The non-empty string held, if any.
    pub closed spec fn inner(self) -> Option<NonEmptySinStr> {
        self.0
    }

    /// The representation invariant of the string held, if any.
    pub closed spec fn wf(self) -> bool {
        match self.0 {
            Some(n) => n.wf(),
            None => true,
        }
    }

    /// Wraps an optional non-empty string; the representation invariant of
    /// the value held carries over.
    fn from_inner(n: Option<NonEmptySinStr>) -> (r: Self)
        ensures
            r.inner() == n,
            r.wf(),
    {
        match &n {
            Some(x) => {
                proof {
                    use_type_invariant(x);
                }
            },
            None => {},
        }
        SinStr(n)
    }

    /// What the representation says: valid UTF-8 bytes, held by a
    /// `NonEmptySinStr` exactly when there are any.
    pub proof fn lemma_repr(&self)
        requires
            self.wf(),
        ensures
            valid_utf8(self@),
            self@.len() + USIZE_BYTES <= isize::MAX,
            self.inner() is None <==> self@.len() == 0,
            self.inner() matches Some(n) ==> n.wf() && n@ == self@,
    {
        match self.0 {
            Some(n) => n.lemma_repr(),
            None => {
                assert(valid_utf8(Seq::<u8>::empty()));
            },
        }
    }

    /// Creates a `SinStr` holding the bytes of `s`.
    #[inline]
    pub fn new(s: &str) -> (r: Self)
        requires
            s.spec_bytes().len() + USIZE_BYTES <= isize::MAX,
        ensures
            r@ == s.spec_bytes(),
            r.wf(),
    {
        Self::from_inner(NonEmptySinStr::new(s))
    }

    /// Creates a `SinStr` that stores its data in the value itself. The
    /// length of `s` must be at least 1 and at most `NICHE_MAX_INT`.
    #[inline]
    pub fn new_inline(s: &str) -> (r: Self)
        requires
            1 <= s.spec_bytes().len() <= NICHE_MAX_INT,
        ensures
            r@ == s.spec_bytes(),
            r.wf(),
    {
        Self::from_inner(Some(NonEmptySinStr::new_inline(s)))
    }

    /// Creates a `SinStr` that stores its data on the heap. The length of
    /// `s` must be greater than `NICHE_MAX_INT`.
    #[inline]
    pub fn new_heap(s: &str) -> (r: Self)
        requires
            valid_heap_len(s.spec_bytes().len() as int),
            s.spec_bytes().len() + USIZE_BYTES <= isize::MAX,
        ensures
            r@ == s.spec_bytes(),
            r.wf(),
    {
        Self::from_inner(Some(NonEmptySinStr::new_heap(s)))
    }

    /// Returns the length of the string in bytes.
    #[inline]
    pub fn len(&self) -> (r: usize)
        ensures
            r == self@.len(),
            self.wf(),
    {
        match &self.0 {
            Some(r) => {
                proof {
                    use_type_invariant(r);
                }
                r.len()
            },
            None => 0,
        }
    }

    /// Returns `true` if the string is empty.
    #[inline]
    pub fn is_empty(&self) -> (r: bool)
        ensures
            r == (self@.len() == 0),
            self.wf(),
    {
        match &self.0 {
            Some(n) => {
                proof {
                    use_type_invariant(n);
                    n.lemma_repr();
                }
                false
            },
            None => true,
        }
    }

    /// Returns the string as a `&str`.
    #[inline]
    pub fn as_str(&self) -> (r: &str)
        ensures
            r.spec_bytes() == self@,
            r@ == decode_utf8(self@),
    {
        match &self.0 {
            Some(r) => r.as_str(),
            None => {
                let e = "";
                proof {
                    reveal_strlit("");
                    assert(e@ =~= Seq::<char>::empty());
                    assert(decode_utf8(Seq::<u8>::empty()) =~= Seq::<char>::empty());
                }
                e
            },
        }
    }

    /// Returns the string as a slice of bytes.
    #[inline]
    pub fn as_bytes(&self) -> (r: &[u8])
        ensures
            r@ == self@,
    {
        match &self.0 {
            Some(r) => r.as_bytes(),
            None => {
                let e: &[u8] = &[];
                assert(e@ =~= Seq::<u8>::empty());
                e
            },
        }
    }

    /// Returns `true` if the string is stored inline; the empty string
    /// counts as inline.
    #[inline]
    pub fn is_inlined(&self) -> (r: bool)
        ensures
            r == (self@.len() <= NICHE_MAX_INT),
    {
        match &self.0 {
            Some(r) => r.is_inlined(),
            None => true,
        }
    }

    /// Returns `true` if the string is stored on the heap.
    #[inline]
    pub fn is_heap(&self) -> (r: bool)
        ensures
            r == (self@.len() > NICHE_MAX_INT),
    {
        match &self.0 {
            Some(r) => r.is_heap(),
            None => false,
        }
    }

    /// Returns the string as an owned `String` (what `Display` prints).
    pub fn to_string(&self) -> (r: String)
        ensures
            r@ == decode_utf8(self@),
    {
        self.as_str().to_owned()
    }

    /// Parses a `SinStr` from a string slice, which always succeeds.
    pub fn from_str(s: &str) -> (r: Result<SinStr, Infallible>)
        requires
            s.spec_bytes().len() + USIZE_BYTES <= isize::MAX,
        ensures
            r matches Ok(v) && v@ == s.spec_bytes() && v.wf(),
    {
        Ok(Self::new(s))
    }
}

impl Default for SinStr {
    /// The empty string.
    fn default() -> (r: Self)
        ensures
            r@ == Seq::<u8>::empty(),
            r.wf(),
    {
        Self::empty()
    }
}

impl Clone for SinStr {
    fn clone(&self) -> (r: Self)
        ensures
            r@ == self@,
            r.wf(),
    {
        match &self.0 {
            Some(n) => Self::from_inner(Some(n.clone())),
            None => Self::from_inner(None),
        }
    }
}

impl PartialEq for SinStr {
    fn eq(&self, other: &Self) -> (r: bool) {
        match (&self.0, &other.0) {
            (Some(a), Some(b)) => a == b,
            (None, None) => true,
            (Some(a), None) => {
                proof {
                    use_type_invariant(a);
                    a.lemma_repr();
                }
                false
            },
            (None, Some(b)) => {
                proof {
                    use_type_invariant(b);
                    b.lemma_repr();
                }
                false
            },
        }
    }
}

impl vstd::std_specs::cmp::PartialEqSpecImpl for SinStr {
    open spec fn obeys_eq_spec() -> bool {
        true
    }

    open spec fn eq_spec(&self, other: &SinStr) -> bool {
        self@ == other@
    }
}

impl Eq for SinStr {
}

impl core::ops::Deref for SinStr {
    type Target = str;

    #[inline]
    fn deref(&self) -> (r: &str)
        ensures
            r.spec_bytes() == self@,
    {
        self.as_str()
    }
}

impl AsRef<str> for SinStr {
    #[inline]
    fn as_ref(&self) -> (r: &str)
        ensures
            str_bytes(r) == self@,
    {
        self.as_str()
    }
}

impl AsRef<[u8]> for SinStr {
    #[inline]
    fn as_ref(&self) -> (r: &[u8])
        ensures
            slice_bytes(r) == self@,
    {
        self.as_bytes()
    }
}

impl core::borrow::Borrow<str> for SinStr {
    #[inline]
    fn borrow(&self) -> (r: &str)
        ensures
            str_bytes(r) == self@,
    {
        self.as_str()
    }
}

/// A string built from `s` (by `new`, `from_str` or `set_str`) reads back
/// as `s`: its characters are those of `s`.
pub proof fn lemma_reads_back_what_was_written(s: &str, x: SinStr)
    requires
        x@ == s.spec_bytes(),
    ensures
        decode_utf8(x@) == s@,
{
    encode_utf8_decode_utf8(s@);
}

/// `==` on strings is an equivalence, and it holds exactly when the two
/// strings have the same characters, whatever their storage.
pub proof fn lemma_eq_is_string_equality(a: SinStr, b: SinStr, c: SinStr)
    requires
        a.wf(),
        b.wf(),
    ensures
        a.eq_spec(&a),
        a.eq_spec(&b) == b.eq_spec(&a),
        a.eq_spec(&b) && b.eq_spec(&c) ==> a.eq_spec(&c),
        a.eq_spec(&b) <==> decode_utf8(a@) == decode_utf8(b@),
{
    a.lemma_repr();
    b.lemma_repr();
    decode_utf8_encode_utf8(a@);
    decode_utf8_encode_utf8(b@);
}

} // verus!
