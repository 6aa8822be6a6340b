//! The non-empty string type and its two representations.

use vstd::prelude::*;
use vstd::slice::slice_to_vec;
use vstd::string::StringSliceAdditionalSpecFns;
use vstd::utf8::{
    decode_first_codepoint, decode_utf8, encode_utf8_decode_utf8, is_leading_byte_width_1,
    pop_first_scalar, valid_first_scalar, valid_utf8,
};

use crate::discriminant::{
    disc_is_inline, is_inline_disc, lemma_word_size, HEAP_DISC, INLINE_BUF, NICHE_MAX_INT,
    USIZE_BYTES,
};
use crate::text::{
    bytes_as_str, bytes_equal, hash_str, lemma_str_bytes_valid, slice_bytes, str_bytes,
};
use crate::{likely, unlikely};

verus! {

/// Granularity of heap allocation sizes: the size (and alignment) of a
/// `usize`.
pub const LEN_CAP_STEP: usize = (usize::BITS / 8) as usize;

/// The allocation size that `next_step` picks for a request of `len` bytes:
/// the smallest multiple of `LEN_CAP_STEP` that is at least `len` and at
/// least `NICHE_MAX_INT`.
pub open spec fn spec_next_step(len: int) -> int {
    let n = if NICHE_MAX_INT <= len { len } else { NICHE_MAX_INT as int };
    ((n + LEN_CAP_STEP - 1) / (LEN_CAP_STEP as int)) * LEN_CAP_STEP
}

/// Clearing the low bits of `x` rounds it down to a multiple of
/// `LEN_CAP_STEP`.
proof fn lemma_mask_rounds_down(x: usize)
    ensures
        x & !((LEN_CAP_STEP - 1) as usize) == (x / LEN_CAP_STEP) * LEN_CAP_STEP,
{
    lemma_word_size();
    if usize::BITS == 64 {
        assert(LEN_CAP_STEP == 8);
        assert(x & !7usize == (x / 8) * 8) by (bit_vector);
    } else {
        assert(LEN_CAP_STEP == 4);
        assert(x & !3usize == (x / 4) * 4) by (bit_vector);
    }
}

/// Rounds `len` (but at least `NICHE_MAX_INT`) up to the next multiple of
/// `LEN_CAP_STEP`.
pub fn next_step(len: usize) -> (r: usize)
    requires
        len + LEN_CAP_STEP - 1 <= usize::MAX,
    ensures
        r == spec_next_step(len as int),
        r % LEN_CAP_STEP == 0,
        len <= r,
        NICHE_MAX_INT <= r,
        r < (if NICHE_MAX_INT <= len { len as int } else { NICHE_MAX_INT as int }) + LEN_CAP_STEP,
{
    proof {
        lemma_word_size();
        assert(LEN_CAP_STEP == USIZE_BYTES);
    }
    let n = if NICHE_MAX_INT <= len {
        len
    } else {
        NICHE_MAX_INT
    };
    let x = n + (LEN_CAP_STEP - 1);
    let r = x & !(LEN_CAP_STEP - 1);
    proof {
        lemma_mask_rounds_down(x);
        let s: int = LEN_CAP_STEP as int;
        let xi: int = x as int;
        assert((xi / s) * s <= xi) by (nonlinear_arith)
            requires s > 0, xi >= 0;
        assert(xi < (xi / s) * s + s) by (nonlinear_arith)
            requires s > 0, xi >= 0;
        assert(((xi / s) * s) % s == 0) by (nonlinear_arith)
            requires s > 0;
    }
    r
}

/// The first `INLINE_BUF` bytes of `s`, padded with zeros.
pub open spec fn pad_prefix(s: Seq<u8>) -> Seq<u8> {
    Seq::new(INLINE_BUF as nat, |i: int| if i < s.len() { s[i] } else { 0u8 })
}

/// Copies the first bytes of `bytes` (at most `INLINE_BUF`) into a zeroed
/// buffer.
fn prefix_buf(bytes: &[u8]) -> (r: [u8; 7])
    ensures
        r@ == pad_prefix(bytes@),
{
    let mut data = [0u8; 7];
    let n = if bytes.len() < INLINE_BUF {
        bytes.len()
    } else {
        INLINE_BUF
    };
    let mut i: usize = 0;
    while i < n
        invariant
            n <= bytes@.len(),
            n <= INLINE_BUF,
            i <= n,
            data@.len() == INLINE_BUF,
            forall|j: int| 0 <= j < i ==> data@[j] == bytes@[j],
            forall|j: int| n <= j < INLINE_BUF ==> data@[j] == 0u8,
        decreases n - i,
    {
        data[i] = bytes[i];
        i = i + 1;
    }
    assert(data@ =~= pad_prefix(bytes@));
    data
}

/// The word that holds an inline string: its data bytes and its
/// discriminant. For a heap string the data area holds the first bytes of
/// the string and the discriminant is `HEAP_DISC`, so that the fields, read
/// in order, sort like the string itself.
#[derive(Clone, Copy, Debug, PartialEq, Eq, PartialOrd, Ord)]
pub struct InlinedRepr {
    data: [u8; 7],
    disc: u8,
}

impl InlinedRepr {
    /// The data area.
    pub closed spec fn data(self) -> Seq<u8> {
        self.data@
    }

    /// The discriminant byte.
    pub closed spec fn disc(self) -> u8 {
        self.disc
    }

    /// Whether the discriminant marks an inline string.
    pub open spec fn is_inline(self) -> bool {
        is_inline_disc(self.disc())
    }

    /// The bytes of the inline string: the first `disc` bytes of the data
    /// area.
    pub open spec fn content(self) -> Seq<u8> {
        self.data().subrange(0, self.disc() as int)
    }

    /// Returns the inline string as a slice of bytes.
    pub fn as_bytes(&self) -> (r: &[u8])
        requires
            self.is_inline(),
        ensures
            r@ == self.content(),
    {
        proof {
            lemma_word_size();
        }
        vstd::slice::slice_subrange(self.data.as_slice(), 0, self.disc as usize)
    }

    /// Returns the inline string as a `&str`.
    pub fn as_str(&self) -> (r: &str)
        requires
            self.is_inline(),
            valid_utf8(self.content()),
        ensures
            r.spec_bytes() == self.content(),
    {
        bytes_as_str(self.as_bytes())
    }
}

/// A heap string: its bytes, in a buffer of their own.
#[derive(Debug, PartialEq, Eq, PartialOrd, Ord)]
pub struct HeapRepr {
    bytes: Vec<u8>,
}

/// A length that a heap string may have: longer than the inline capacity and
/// a valid slice length (at most `isize::MAX`).
pub open spec fn valid_heap_len(len: int) -> bool {
    len <= isize::MAX && NICHE_MAX_INT < len
}

impl View for HeapRepr {
    type V = Seq<u8>;

    closed spec fn view(&self) -> Seq<u8> {
        self.bytes@
    }
}

impl HeapRepr {
    /// Checks if the provided value is a valid length for a heap string:
    /// a valid slice length (at most `isize::MAX`) and greater than
    /// `NICHE_MAX_INT`.
    #[inline]
    pub fn is_valid_len(len: usize) -> (r: bool)
        ensures
            r == valid_heap_len(len as int),
    {
        len <= isize::MAX as usize && NICHE_MAX_INT < len
    }

    /// Returns the length of the stored string.
    pub fn len(&self) -> (r: usize)
        ensures
            r == self@.len(),
    {
        self.bytes.len()
    }

    /// Returns the string as a slice of bytes.
    pub fn as_bytes(&self) -> (r: &[u8])
        ensures
            r@ == self@,
    {
        self.bytes.as_slice()
    }

    /// Returns the string as a `&str`.
    pub fn as_str(&self) -> (r: &str)
        requires
            valid_utf8(self@),
        ensures
            r.spec_bytes() == self@,
    {
        bytes_as_str(self.as_bytes())
    }

    /// The size of the allocation that holds a string of this length: room
    /// for a `usize` length header and the bytes, rounded up by `next_step`.
    pub fn capacity(&self) -> (r: usize)
        requires
            self@.len() + USIZE_BYTES <= isize::MAX,
        ensures
            r == spec_next_step(self@.len() + USIZE_BYTES),
    {
        proof {
            lemma_word_size();
        }
        next_step(self.bytes.len() + USIZE_BYTES)
    }

    /// The number of string bytes that an allocation of this size class can
    /// hold.
    pub fn str_capacity(&self) -> (r: usize)
        requires
            self@.len() <= isize::MAX,
        ensures
            r == spec_next_step(self@.len() as int),
    {
        proof {
            lemma_word_size();
        }
        next_step(self.bytes.len())
    }
}

/// A non-empty string, stored inline when it has at most `NICHE_MAX_INT`
/// bytes and on the heap otherwise.
#[derive(Debug, Ord)]
pub struct NonEmptySinStr {
    inline: InlinedRepr,
    heap: Option<HeapRepr>,
}

impl View for NonEmptySinStr {
    type V = Seq<u8>;

    /// The bytes of the string (valid UTF-8).
    closed spec fn view(&self) -> Seq<u8> {
        if is_inline_disc(self.inline.disc) {
            self.inline.data@.subrange(0, self.inline.disc as int)
        } else {
            match self.heap {
                Some(h) => h.bytes@,
                None => Seq::empty(),
            }
        }
    }
}

impl NonEmptySinStr {
    /// The representation invariant: the bytes are valid UTF-8, non-empty and
    /// short enough for a heap allocation with a length header; the data area
    /// holds the (padded) first bytes; a string of at most `NICHE_MAX_INT`
    /// bytes is inline with its length as discriminant, a longer one is on
    /// the heap.
    #[verifier::type_invariant]
    pub closed spec fn inv(self) -> bool {
        let s = self@;
        &&& valid_utf8(s)
        &&& 1 <= s.len()
        &&& s.len() + USIZE_BYTES <= isize::MAX
        &&& self.inline.data@ == pad_prefix(s)
        &&& if s.len() <= NICHE_MAX_INT {
            self.inline.disc == s.len() && self.heap is None
        } else {
            self.inline.disc == HEAP_DISC && self.heap is Some
        }
    }

    /// The inline word (data area and discriminant).
    pub closed spec fn inline_repr(self) -> InlinedRepr {
        self.inline
    }

    /// The bytes of the heap buffer, if there is one.
    pub closed spec fn heap_bytes(self) -> Option<Seq<u8>> {
        match self.heap {
            Some(h) => Some(h.bytes@),
            None => None,
        }
    }

    /// The representation invariant, for statements about values.
    pub open spec fn wf(self) -> bool {
        self.inv()
    }

    /// What the representation invariant says, in terms that other modules
    /// can read.
    pub proof fn lemma_repr(&self)
        requires
            self.wf(),
        ensures
            valid_utf8(self@),
            1 <= self@.len(),
            self@.len() + USIZE_BYTES <= isize::MAX,
            self.inline_repr().data() == pad_prefix(self@),
            self@.len() <= NICHE_MAX_INT ==> self.inline_repr().disc() == self@.len()
                && self.heap_bytes() is None,
            self@.len() > NICHE_MAX_INT ==> self.inline_repr().disc() == HEAP_DISC
                && self.heap_bytes() == Some(self@),
    {
    }

    /// Create a new `NonEmptySinStr`.
    ///
    /// Returns `None` if the string is empty.
    #[inline]
    pub fn new(s: &str) -> (r: Option<Self>)
        requires
            s.spec_bytes().len() + USIZE_BYTES <= isize::MAX,
        ensures
            r is None <==> s.spec_bytes().len() == 0,
            r matches Some(n) ==> n@ == s.spec_bytes(),
    {
        let len = s.len();
        if len == 0 {
            return None;
        }
        proof {
            lemma_word_size();
        }
        Some(
            if likely(NICHE_MAX_INT >= len) {
                Self::new_inline(s)
            } else {
                Self::new_heap(s)
            },
        )
    }

    /// Create an inlined `NonEmptySinStr`; the string must be non-empty and
    /// at most `NICHE_MAX_INT` bytes long.
    #[inline]
    pub fn new_const(s: &str) -> (r: Self)
        requires
            1 <= s.spec_bytes().len() <= NICHE_MAX_INT,
        ensures
            r@ == s.spec_bytes(),
    {
        Self::new_inline(s)
    }

    /// Creates a `NonEmptySinStr` that stores its data in the value itself.
    /// The length of `s` must be at least 1 and at most `NICHE_MAX_INT`.
    pub fn new_inline(s: &str) -> (r: Self)
        requires
            1 <= s.spec_bytes().len() <= NICHE_MAX_INT,
        ensures
            r@ == s.spec_bytes(),
    {
        proof {
            lemma_word_size();
            lemma_str_bytes_valid(s);
        }
        let bytes = s.as_bytes();
        let len = bytes.len();
        let data = prefix_buf(bytes);
        let disc = len as u8;
        assert(data@.subrange(0, disc as int) =~= bytes@);
        NonEmptySinStr { inline: InlinedRepr { data, disc }, heap: None }
    }

    /// Creates a `NonEmptySinStr` that stores its data on the heap. The
    /// length of `s` must be greater than `NICHE_MAX_INT`.
    pub fn new_heap(s: &str) -> (r: Self)
        requires
            valid_heap_len(s.spec_bytes().len() as int),
            s.spec_bytes().len() + USIZE_BYTES <= isize::MAX,
        ensures
            r@ == s.spec_bytes(),
    {
        proof {
            lemma_word_size();
            lemma_str_bytes_valid(s);
        }
        let bytes = s.as_bytes();
        let data = prefix_buf(bytes);
        let buf = slice_to_vec(bytes);
        NonEmptySinStr {
            inline: InlinedRepr { data, disc: HEAP_DISC },
            heap: Some(HeapRepr { bytes: buf }),
        }
    }

    /// Returns `true` if the string is stored inline.
    ///
    /// Reads only the discriminant: a value in `1..=NICHE_MAX_INT` is the
    /// length of an inline string.
    #[inline]
    pub fn is_inlined(&self) -> (r: bool)
        ensures
            r == (self@.len() <= NICHE_MAX_INT),
    {
        proof {
            use_type_invariant(self);
            lemma_word_size();
        }
        likely(disc_is_inline(self.inline.disc))
    }

    /// Returns `true` if the string is stored on the heap.
    #[inline]
    pub fn is_heap(&self) -> (r: bool)
        ensures
            r == (self@.len() > NICHE_MAX_INT),
    {
        unlikely(!self.is_inlined())
    }

    /// Returns the length of the string in bytes (never zero).
    #[inline]
    pub fn len(&self) -> (r: usize)
        ensures
            r == self@.len(),
            r >= 1,
    {
        proof {
            use_type_invariant(self);
        }
        if self.is_inlined() {
            self.inline.disc as usize
        } else {
            self.get_heap().len()
        }
    }

    /// The heap representation of a string stored on the heap.
    pub fn get_heap(&self) -> (r: &HeapRepr)
        requires
            self@.len() > NICHE_MAX_INT,
        ensures
            r@ == self@,
    {
        proof {
            use_type_invariant(self);
        }
        match &self.heap {
            Some(h) => h,
            None => unreached(),
        }
    }

    /// The inline representation of a string stored inline.
    pub fn get_inlined(&self) -> (r: &InlinedRepr)
        requires
            self@.len() <= NICHE_MAX_INT,
        ensures
            r.is_inline(),
            r.content() == self@,
    {
        proof {
            use_type_invariant(self);
        }
        &self.inline
    }

    /// Returns the string as a slice of bytes.
    #[inline]
    pub fn as_bytes(&self) -> (r: &[u8])
        ensures
            r@ == self@,
    {
        if likely(self.is_inlined()) {
            self.get_inlined().as_bytes()
        } else {
            self.get_heap().as_bytes()
        }
    }

    /// Returns the string as a `&str`.
    #[inline]
    pub fn as_str(&self) -> (r: &str)
        ensures
            r.spec_bytes() == self@,
            r@ == decode_utf8(self@),
    {
        proof {
            use_type_invariant(self);
        }
        let r = bytes_as_str(self.as_bytes());
        proof {
            encode_utf8_decode_utf8(r@);
        }
        r
    }

    /// Returns the string as an owned `String` (what `Display` prints).
    pub fn to_string(&self) -> (r: String)
        ensures
            r@ == decode_utf8(self@),
    {
        self.as_str().to_owned()
    }
}

/// Two strings with the same bytes have the same representation: the same
/// data area and discriminant, and the same heap bytes (or no heap buffer).
/// The derived order and `Debug`, which read the fields, therefore agree
/// with string equality.
pub proof fn lemma_same_bytes_same_repr(a: NonEmptySinStr, b: NonEmptySinStr)
    requires
        a.wf(),
        b.wf(),
        a@ == b@,
    ensures
        a.inline_repr() == b.inline_repr(),
        a.heap_bytes() == b.heap_bytes(),
{
    assert(a.inline.data =~= b.inline.data);
}

/// The one-byte string "A" is valid UTF-8.
proof fn lemma_letter_a_valid()
    ensures
        valid_utf8(seq![0x41u8]),
{
    let b = seq![0x41u8];
    assert(is_leading_byte_width_1(b[0]));
    assert((0x41u8 & 0x7Fu8) == 0x41u8) by (bit_vector);
    assert(decode_first_codepoint(b) == 0x41u32);
    assert(valid_first_scalar(b));
    assert(pop_first_scalar(b) =~= Seq::<u8>::empty());
    assert(valid_utf8(pop_first_scalar(b)));
}

impl NonEmptySinStr {
    /// The inline string "A", a cheap valid value to hold while another
    /// value is taken apart.
    fn placeholder() -> (r: Self)
        ensures
            r@ == seq![0x41u8],
    {
        let mut data = [0u8; 7];
        data[0] = 0x41;
        proof {
            lemma_word_size();
            lemma_letter_a_valid();
            assert(data@.subrange(0, 1) =~= seq![0x41u8]);
            assert(data@ =~= pad_prefix(seq![0x41u8]));
        }
        NonEmptySinStr { inline: InlinedRepr { data, disc: 1 }, heap: None }
    }

    /// Sets the content of the string to `s`, which must be non-empty.
    pub fn set_str(&mut self, s: &str)
        requires
            s.spec_bytes().len() >= 1,
            s.spec_bytes().len() + USIZE_BYTES <= isize::MAX,
        ensures
            final(self)@ == s.spec_bytes(),
    {
        self.set_str_unchecked(s)
    }

    /// Sets the content of the string to `s`, which must be non-empty.
    ///
    /// A short `s` is stored inline. A long `s` is written into the existing
    /// heap `Vec` when it falls in the same allocation size class as the
    /// current string, and gets a new buffer otherwise. The `Vec` holds
    /// exactly the string's bytes, so writing a longer string into it may
    /// still make the `Vec` grow its own allocation.
    pub fn set_str_unchecked(&mut self, s: &str)
        requires
            s.spec_bytes().len() >= 1,
            s.spec_bytes().len() + USIZE_BYTES <= isize::MAX,
        ensures
            final(self)@ == s.spec_bytes(),
    {
        proof {
            lemma_word_size();
        }
        let len = s.len();
        if likely(len <= NICHE_MAX_INT) {
            *self = Self::new_inline(s);
        } else if self.is_heap() {
            proof {
                use_type_invariant(&*self);
            }
            let next = next_step(USIZE_BYTES + len);
            let capacity = self.get_heap().capacity();
            if capacity == next {
                self.overwrite_heap(s);
            } else {
                *self = Self::new_heap(s);
            }
        } else {
            *self = Self::new_heap(s);
        }
    }

    /// Writes the bytes of `s` into the heap buffer of `self`, growing or
    /// shrinking the `Vec` (which may grow its allocation when `s` is
    /// longer).
    fn overwrite_heap(&mut self, s: &str)
        requires
            old(self)@.len() > NICHE_MAX_INT,
            valid_heap_len(s.spec_bytes().len() as int),
            s.spec_bytes().len() + USIZE_BYTES <= isize::MAX,
        ensures
            final(self)@ == s.spec_bytes(),
    {
        proof {
            lemma_word_size();
            lemma_str_bytes_valid(s);
        }
        let mut taken = Self::placeholder();
        core::mem::swap(self, &mut taken);
        proof {
            use_type_invariant(&taken);
        }
        let NonEmptySinStr { inline: _, heap } = taken;
        let mut buf = match heap {
            Some(h) => h.bytes,
            None => unreached(),
        };
        let bytes = s.as_bytes();
        let n = bytes.len();
        let mut i: usize = 0;
        while i < n
            invariant
                n == bytes@.len(),
                i <= n,
                i <= buf@.len(),
                forall|j: int| 0 <= j < i ==> buf@[j] == bytes@[j],
            decreases n - i,
        {
            if i < buf.len() {
                buf.set(i, bytes[i]);
            } else {
                buf.push(bytes[i]);
            }
            i = i + 1;
        }
        buf.truncate(n);
        assert(buf@ =~= bytes@);
        let data = prefix_buf(bytes);
        *self = NonEmptySinStr {
            inline: InlinedRepr { data, disc: HEAP_DISC },
            heap: Some(HeapRepr { bytes: buf }),
        };
    }
}

impl Clone for NonEmptySinStr {
    /// An inline string is copied word for word; a heap string gets a buffer
    /// of its own.
    fn clone(&self) -> (r: Self)
        ensures
            r@ == self@,
    {
        proof {
            use_type_invariant(self);
        }
        if self.is_inlined() {
            NonEmptySinStr { inline: self.inline, heap: None }
        } else {
            Self::new_heap(self.as_str())
        }
    }
}

impl PartialEq for NonEmptySinStr {
    /// Strings with different storage modes have different lengths, so the
    /// mode is compared first.
    fn eq(&self, other: &Self) -> (r: bool) {
        self.is_inlined() == other.is_inlined() && bytes_equal(self.as_bytes(), other.as_bytes())
    }
}

impl vstd::std_specs::cmp::PartialEqSpecImpl for NonEmptySinStr {
    open spec fn obeys_eq_spec() -> bool {
        true
    }

    open spec fn eq_spec(&self, other: &NonEmptySinStr) -> bool {
        self@ == other@
    }
}

impl Eq for NonEmptySinStr {
}

impl core::ops::Deref for NonEmptySinStr {
    type Target = str;

    #[inline]
    fn deref(&self) -> (r: &str)
        ensures
            r.spec_bytes() == self@,
    {
        self.as_str()
    }
}

impl AsRef<str> for NonEmptySinStr {
    #[inline]
    fn as_ref(&self) -> (r: &str)
        ensures
            str_bytes(r) == self@,
    {
        self.as_str()
    }
}

impl AsRef<[u8]> for NonEmptySinStr {
    #[inline]
    fn as_ref(&self) -> (r: &[u8])
        ensures
            slice_bytes(r) == self@,
    {
        self.as_bytes()
    }
}

impl core::borrow::Borrow<str> for NonEmptySinStr {
    #[inline]
    fn borrow(&self) -> (r: &str)
        ensures
            str_bytes(r) == self@,
    {
        self.as_str()
    }
}

impl core::hash::Hash for NonEmptySinStr {
    /// Hashes the string as its `&str` would be hashed, which `Borrow<str>`
    /// requires.
    #[inline]
    fn hash<H: core::hash::Hasher>(&self, state: &mut H) {
        hash_str(self.as_str(), state)
    }
}

} // verus!
