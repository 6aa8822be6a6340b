//! The order of strings: byte-wise lexicographic, as for `str`.

use core::cmp::Ordering;

use vstd::prelude::*;
use vstd::std_specs::cmp::{PartialEqSpec, PartialOrdSpec};

use crate::discriminant::{
    inline_buf_len, int_of_nat, int_of_usize, lemma_word_size, nat_of, NICHE_MAX_INT,
};
use crate::non_empty::{pad_prefix, NonEmptySinStr};
use vstd::utf8::{decode_utf8, decode_utf8_encode_utf8};
use crate::sinstr::SinStr;

verus! {

/// Lexicographic comparison of byte sequences: the first differing byte
/// decides, and a proper prefix comes first.
pub open spec fn lex_cmp(a: Seq<u8>, b: Seq<u8>) -> Ordering
    decreases a.len(),
{
    if a.len() == 0 {
        if b.len() == 0 {
            Ordering::Equal
        } else {
            Ordering::Less
        }
    } else if b.len() == 0 {
        Ordering::Greater
    } else if a[0] < b[0] {
        Ordering::Less
    } else if b[0] < a[0] {
        Ordering::Greater
    } else {
        lex_cmp(a.drop_first(), b.drop_first())
    }
}

/// Comparing from position `i` on: once the first `i` bytes agree, the rest
/// decides.
proof fn lemma_lex_cmp_step(a: Seq<u8>, b: Seq<u8>, i: int)
    requires
        0 <= i < a.len(),
        i < b.len(),
        a[i] == b[i],
    ensures
        lex_cmp(a.skip(i), b.skip(i)) == lex_cmp(a.skip(i + 1), b.skip(i + 1)),
{
    assert(a.skip(i).drop_first() =~= a.skip(i + 1));
    assert(b.skip(i).drop_first() =~= b.skip(i + 1));
}

/// Compares two byte slices lexicographically.
pub fn compare_bytes(a: &[u8], b: &[u8]) -> (r: Ordering)
    ensures
        r == lex_cmp(a@, b@),
{
    let n = a.len();
    let m = b.len();
    let mut i: usize = 0;
    assert(a@.skip(0) =~= a@);
    assert(b@.skip(0) =~= b@);
    while i < n && i < m
        invariant
            n == a@.len(),
            m == b@.len(),
            i <= n,
            i <= m,
            lex_cmp(a@, b@) == lex_cmp(a@.skip(int_of_usize(i)), b@.skip(int_of_usize(i))),
        decreases n - i,
    {
        if a[i] < b[i] {
            return Ordering::Less;
        }
        if b[i] < a[i] {
            return Ordering::Greater;
        }
        proof {
            lemma_lex_cmp_step(a@, b@, int_of_usize(i));
        }
        i = i + 1;
    }
    if i < m {
        Ordering::Less
    } else if i < n {
        Ordering::Greater
    } else {
        Ordering::Equal
    }
}

/// Two sequences compare equal exactly when they are equal.
pub proof fn lemma_lex_cmp_equal(a: Seq<u8>, b: Seq<u8>)
    ensures
        (lex_cmp(a, b) == Ordering::Equal) <==> (a == b),
    decreases a.len(),
{
    if a.len() > 0 && b.len() > 0 && a[0] == b[0] {
        lemma_lex_cmp_equal(a.drop_first(), b.drop_first());
        if lex_cmp(a, b) == Ordering::Equal {
            assert forall|i: int| 0 <= i < a.len() implies a[i] == b[i] by {
                if i > 0 {
                    assert(a[i] == a.drop_first()[i - 1]);
                    assert(b[i] == b.drop_first()[i - 1]);
                }
            };
            assert(a =~= b);
        }
        if a == b {
            assert(a.drop_first() =~= b.drop_first());
        }
    } else if a.len() == 0 && b.len() == 0 {
        assert(a =~= b);
    }
}

/// Swapping the arguments reverses the result.
pub proof fn lemma_lex_cmp_antisymmetric(a: Seq<u8>, b: Seq<u8>)
    ensures
        (lex_cmp(a, b) == Ordering::Less) <==> (lex_cmp(b, a) == Ordering::Greater),
        (lex_cmp(a, b) == Ordering::Equal) <==> (lex_cmp(b, a) == Ordering::Equal),
    decreases a.len(),
{
    if a.len() > 0 && b.len() > 0 && a[0] == b[0] {
        lemma_lex_cmp_antisymmetric(a.drop_first(), b.drop_first());
    }
}

/// The order is transitive.
pub proof fn lemma_lex_cmp_transitive(a: Seq<u8>, b: Seq<u8>, c: Seq<u8>)
    requires
        lex_cmp(a, b) == Ordering::Less,
        lex_cmp(b, c) == Ordering::Less,
    ensures
        lex_cmp(a, c) == Ordering::Less,
    decreases a.len(),
{
    if a.len() > 0 && b.len() > 0 && c.len() > 0 && a[0] == b[0] && b[0] == c[0] {
        lemma_lex_cmp_transitive(a.drop_first(), b.drop_first(), c.drop_first());
    }
}

/// A proper prefix comes first.
proof fn lemma_lex_cmp_prefix(a: Seq<u8>, b: Seq<u8>)
    requires
        a.len() < b.len(),
        a == b.subrange(0, int_of_nat(a.len())),
    ensures
        lex_cmp(a, b) == Ordering::Less,
    decreases a.len(),
{
    if a.len() > 0 {
        assert(a.drop_first() =~= b.drop_first().subrange(0, int_of_nat(a.drop_first().len())));
        lemma_lex_cmp_prefix(a.drop_first(), b.drop_first());
    }
}

/// The first differing byte decides: where `a` and `b` agree before
/// position `i` and `a` has the smaller byte at `i`, `a` comes first.
proof fn lemma_lex_cmp_first_difference(a: Seq<u8>, b: Seq<u8>, i: int)
    requires
        0 <= i < a.len(),
        i < b.len(),
        forall|j: int| 0 <= j < i ==> a[j] == b[j],
        a[i] < b[i],
    ensures
        lex_cmp(a, b) == Ordering::Less,
    decreases i,
{
    if i > 0 {
        assert(a[0] == b[0]);
        assert forall|j: int| 0 <= j < i - 1 implies a.drop_first()[j] == b.drop_first()[j] by {
            assert(a[j + 1] == b[j + 1]);
        };
        lemma_lex_cmp_first_difference(a.drop_first(), b.drop_first(), i - 1);
    }
}

/// `s` padded with zeros (or cut) to length `k`.
spec fn pad_to(s: Seq<u8>, k: int) -> Seq<u8> {
    Seq::new(nat_of(k), |i: int| if i < s.len() { s[i] } else { 0u8 })
}

/// `s` without its first element; the empty sequence stays empty.
spec fn tail(s: Seq<u8>) -> Seq<u8> {
    if s.len() == 0 {
        s
    } else {
        s.drop_first()
    }
}

/// Nothing of the same length comes before a sequence of zeros.
proof fn lemma_zeros_least(p: Seq<u8>, z: Seq<u8>)
    requires
        p.len() == z.len(),
        forall|i: int| 0 <= i < z.len() ==> z[i] == 0u8,
    ensures
        lex_cmp(p, z) != Ordering::Less,
    decreases p.len(),
{
    if p.len() > 0 {
        lemma_zeros_least(p.drop_first(), z.drop_first());
    }
}

/// If the zero-padded sequences compare less, so do the sequences.
proof fn lemma_pad_less(x: Seq<u8>, y: Seq<u8>, k: int)
    requires
        lex_cmp(pad_to(x, k), pad_to(y, k)) == Ordering::Less,
    ensures
        lex_cmp(x, y) == Ordering::Less,
        k >= 0,
    decreases k,
{
    let px = pad_to(x, k);
    let py = pad_to(y, k);
    if k == 0 {
        assert(px.len() == 0 && py.len() == 0);
    } else if px[0] == py[0] {
        assert(px.drop_first() =~= pad_to(tail(x), k - 1));
        assert(py.drop_first() =~= pad_to(tail(y), k - 1));
        if x.len() == 0 {
            if y.len() == 0 {
                assert(px =~= py);
                lemma_lex_cmp_equal(px, py);
            }
        } else if y.len() == 0 {
            lemma_zeros_least(px.drop_first(), py.drop_first());
        } else {
            lemma_pad_less(tail(x), tail(y), k - 1);
        }
    } else if px[0] < py[0] {
        assert(y.len() > 0);
    } else {
        assert(lex_cmp(px, py) == Ordering::Greater);
    }
}

/// If the zero-padded sequences are equal and `x` fits in the padding and is
/// shorter than `y`, then `x` is a proper prefix of `y`.
proof fn lemma_pad_equal_shorter(x: Seq<u8>, y: Seq<u8>, k: int)
    requires
        pad_to(x, k) == pad_to(y, k),
        x.len() <= k,
        x.len() < y.len(),
    ensures
        lex_cmp(x, y) == Ordering::Less,
{
    assert forall|j: int| 0 <= j < x.len() implies x[j] == y[j] by {
        assert(j < nat_of(k));
        assert(pad_to(x, k)[j] == x[j]);
        assert(pad_to(y, k)[j] == y[j]);
        assert(pad_to(x, k)[j] == pad_to(y, k)[j]);
    };
    assert(x =~= y.subrange(0, int_of_nat(x.len())));
    lemma_lex_cmp_prefix(x, y);
}

/// The order that `derive(Ord)` gives a `NonEmptySinStr`: its data area
/// (arrays compare lexicographically), then its discriminant, then its heap
/// buffer, with no buffer before any buffer and buffers compared
/// lexicographically.
pub open spec fn field_order(a: NonEmptySinStr, b: NonEmptySinStr) -> Ordering {
    let ia = a.inline_repr();
    let ib = b.inline_repr();
    match lex_cmp(ia.data(), ib.data()) {
        Ordering::Equal => if ia.disc() < ib.disc() {
            Ordering::Less
        } else if ib.disc() < ia.disc() {
            Ordering::Greater
        } else {
            match (a.heap_bytes(), b.heap_bytes()) {
                (None, None) => Ordering::Equal,
                (None, Some(_)) => Ordering::Less,
                (Some(_), None) => Ordering::Greater,
                (Some(x), Some(y)) => lex_cmp(x, y),
            }
        },
        o => o,
    }
}

/// Where `field_order` says less, the strings compare less.
proof fn lemma_field_order_less(a: NonEmptySinStr, b: NonEmptySinStr)
    requires
        a.wf(),
        b.wf(),
        field_order(a, b) == Ordering::Less,
    ensures
        lex_cmp(a@, b@) == Ordering::Less,
{
    a.lemma_repr();
    b.lemma_repr();
    lemma_word_size();
    let k = inline_buf_len();
    assert(pad_prefix(a@) =~= pad_to(a@, k));
    assert(pad_prefix(b@) =~= pad_to(b@, k));
    let da = a.inline_repr().data();
    let db = b.inline_repr().data();
    if lex_cmp(da, db) == Ordering::Less {
        lemma_pad_less(a@, b@, k);
    } else {
        lemma_lex_cmp_equal(da, db);
        if a@.len() <= NICHE_MAX_INT {
            if a@.len() == b@.len() {
                assert(b@.len() <= NICHE_MAX_INT);
                assert(false);
            }
            lemma_pad_equal_shorter(a@, b@, k);
        } else {
            assert(b@.len() > NICHE_MAX_INT);
        }
    }
}

/// The order of the fields, which `derive(Ord)` compares one after the
/// other, is the lexicographic order of the strings' bytes.
pub proof fn lemma_field_order_is_string_order(a: NonEmptySinStr, b: NonEmptySinStr)
    requires
        a.wf(),
        b.wf(),
    ensures
        field_order(a, b) == lex_cmp(a@, b@),
{
    a.lemma_repr();
    b.lemma_repr();
    lemma_word_size();
    lemma_lex_cmp_antisymmetric(a@, b@);
    lemma_lex_cmp_antisymmetric(a.inline_repr().data(), b.inline_repr().data());
    match field_order(a, b) {
        Ordering::Less => {
            lemma_field_order_less(a, b);
        },
        Ordering::Greater => {
            lemma_field_order_less(b, a);
        },
        Ordering::Equal => {
            let da = a.inline_repr().data();
            let db = b.inline_repr().data();
            lemma_lex_cmp_equal(da, db);
            if a@.len() <= NICHE_MAX_INT {
                assert(b@.len() <= NICHE_MAX_INT);
                assert(a@ =~= da.subrange(0, int_of_nat(a@.len())));
                assert(b@ =~= db.subrange(0, int_of_nat(b@.len())));
            }
            lemma_lex_cmp_equal(a@, b@);
        },
    }
}

impl PartialOrd for NonEmptySinStr {
    /// Compares the bytes of the two strings, whatever their storage.
    fn partial_cmp(&self, other: &Self) -> (r: Option<Ordering>) {
        Some(compare_bytes(self.as_bytes(), other.as_bytes()))
    }
}

impl vstd::std_specs::cmp::PartialOrdSpecImpl for NonEmptySinStr {
    open spec fn obeys_partial_cmp_spec() -> bool {
        true
    }

    open spec fn partial_cmp_spec(&self, other: &NonEmptySinStr) -> Option<Ordering> {
        Some(lex_cmp(self@, other@))
    }
}

impl PartialOrd for SinStr {
    /// Compares the bytes of the two strings; the empty string comes first.
    fn partial_cmp(&self, other: &Self) -> (r: Option<Ordering>) {
        Some(compare_bytes(self.as_bytes(), other.as_bytes()))
    }
}

impl vstd::std_specs::cmp::PartialOrdSpecImpl for SinStr {
    open spec fn obeys_partial_cmp_spec() -> bool {
        true
    }

    open spec fn partial_cmp_spec(&self, other: &SinStr) -> Option<Ordering> {
        Some(lex_cmp(self@, other@))
    }
}

/// The order that `derive(Ord)` gives a `SinStr`: the empty string (no
/// `NonEmptySinStr`) first, then the field order of the strings held.
pub open spec fn sinstr_field_order(a: SinStr, b: SinStr) -> Ordering {
    match (a.inner(), b.inner()) {
        (None, None) => Ordering::Equal,
        (None, Some(_)) => Ordering::Less,
        (Some(_), None) => Ordering::Greater,
        (Some(x), Some(y)) => field_order(x, y),
    }
}

/// The order of the fields of a `SinStr`, which `derive(Ord)` compares, is
/// the lexicographic order of the strings' bytes, the order that
/// `partial_cmp` returns.
pub proof fn lemma_sinstr_field_order_is_string_order(a: SinStr, b: SinStr)
    requires
        a.wf(),
        b.wf(),
    ensures
        sinstr_field_order(a, b) == lex_cmp(a@, b@),
{
    a.lemma_repr();
    b.lemma_repr();
    match (a.inner(), b.inner()) {
        (Some(x), Some(y)) => lemma_field_order_is_string_order(x, y),
        _ => {},
    }
}

/// `partial_cmp` on strings is a total order that agrees with `==`: it never
/// returns `None`, returns `Equal` exactly for equal strings, reverses when
/// the arguments are swapped, and is transitive.
pub proof fn lemma_string_order_is_total(a: SinStr, b: SinStr, c: SinStr)
    ensures
        a.partial_cmp_spec(&b) is Some,
        (a.partial_cmp_spec(&b) == Some(Ordering::Equal)) <==> a.eq_spec(&b),
        (a.partial_cmp_spec(&b) == Some(Ordering::Less)) <==> (b.partial_cmp_spec(&a) == Some(
            Ordering::Greater,
        )),
        a.partial_cmp_spec(&b) == Some(Ordering::Less) && b.partial_cmp_spec(&c) == Some(
            Ordering::Less,
        ) ==> a.partial_cmp_spec(&c) == Some(Ordering::Less),
{
    lemma_lex_cmp_equal(a@, b@);
    lemma_lex_cmp_antisymmetric(a@, b@);
    if lex_cmp(a@, b@) == Ordering::Less && lex_cmp(b@, c@) == Ordering::Less {
        lemma_lex_cmp_transitive(a@, b@, c@);
    }
}

/// Byte order of strings, stated byte by byte: where two strings agree
/// before position `i` and differ at `i`, the one with the smaller byte
/// comes first; a proper prefix comes before the longer string; `Equal`
/// comes exactly for equal bytes. These cases cover every pair, so they
/// fix what `partial_cmp` returns, whatever the storage of either string.
pub proof fn lemma_nonempty_partial_cmp_is_byte_order(a: NonEmptySinStr, b: NonEmptySinStr, i: int)
    ensures
        0 <= i < a@.len() && i < b@.len() && (forall|j: int| 0 <= j < i ==> a@[j] == b@[j])
            && a@[i] < b@[i] ==> a.partial_cmp_spec(&b) == Some(Ordering::Less)
            && b.partial_cmp_spec(&a) == Some(Ordering::Greater),
        a@.len() < b@.len() && (forall|j: int| 0 <= j < a@.len() ==> a@[j] == b@[j])
            ==> a.partial_cmp_spec(&b) == Some(Ordering::Less)
            && b.partial_cmp_spec(&a) == Some(Ordering::Greater),
        (a.partial_cmp_spec(&b) == Some(Ordering::Equal)) <==> a@ == b@,
        a.partial_cmp_spec(&b) is Some,
{
    lemma_byte_order(a@, b@, i);
}

/// `lex_cmp` stated byte by byte (the shared proof of the order laws).
proof fn lemma_byte_order(x: Seq<u8>, y: Seq<u8>, i: int)
    ensures
        0 <= i < x.len() && i < y.len() && (forall|j: int| 0 <= j < i ==> x[j] == y[j]) && x[i]
            < y[i] ==> lex_cmp(x, y) == Ordering::Less && lex_cmp(y, x) == Ordering::Greater,
        x.len() < y.len() && (forall|j: int| 0 <= j < x.len() ==> x[j] == y[j]) ==> lex_cmp(x, y)
            == Ordering::Less && lex_cmp(y, x) == Ordering::Greater,
        (lex_cmp(x, y) == Ordering::Equal) <==> x == y,
{
    lemma_lex_cmp_equal(x, y);
    lemma_lex_cmp_antisymmetric(x, y);
    if 0 <= i < x.len() && i < y.len() && (forall|j: int| 0 <= j < i ==> x[j] == y[j]) && x[i]
        < y[i] {
        lemma_lex_cmp_first_difference(x, y, i);
    }
    if x.len() < y.len() && (forall|j: int| 0 <= j < x.len() ==> x[j] == y[j]) {
        assert(x =~= y.subrange(0, int_of_nat(x.len())));
        lemma_lex_cmp_prefix(x, y);
    }
}

/// The same byte order for `SinStr`, the empty string coming first.
pub proof fn lemma_sinstr_partial_cmp_is_byte_order(a: SinStr, b: SinStr, i: int)
    ensures
        0 <= i < a@.len() && i < b@.len() && (forall|j: int| 0 <= j < i ==> a@[j] == b@[j])
            && a@[i] < b@[i] ==> a.partial_cmp_spec(&b) == Some(Ordering::Less)
            && b.partial_cmp_spec(&a) == Some(Ordering::Greater),
        a@.len() < b@.len() && (forall|j: int| 0 <= j < a@.len() ==> a@[j] == b@[j])
            ==> a.partial_cmp_spec(&b) == Some(Ordering::Less)
            && b.partial_cmp_spec(&a) == Some(Ordering::Greater),
        (a.partial_cmp_spec(&b) == Some(Ordering::Equal)) <==> a@ == b@,
        a.partial_cmp_spec(&b) is Some,
{
    lemma_byte_order(a@, b@, i);
}

/// `partial_cmp` agrees with the order of the fields that `derive(Ord)`
/// compares, so `<` and `cmp` give the same answer on every pair.
pub proof fn lemma_partial_cmp_agrees_with_derived_order(
    a: NonEmptySinStr,
    b: NonEmptySinStr,
    x: SinStr,
    y: SinStr,
)
    requires
        a.wf(),
        b.wf(),
        x.wf(),
        y.wf(),
    ensures
        a.partial_cmp_spec(&b) == Some(field_order(a, b)),
        x.partial_cmp_spec(&y) == Some(sinstr_field_order(x, y)),
{
    lemma_field_order_is_string_order(a, b);
    lemma_sinstr_field_order_is_string_order(x, y);
}

/// `==` on non-empty strings holds exactly when they have the same bytes,
/// position by position; then they have the same characters, and
/// `partial_cmp` says `Equal`.
pub proof fn lemma_nonempty_eq_is_byte_equality(a: NonEmptySinStr, b: NonEmptySinStr)
    requires
        a.wf(),
        b.wf(),
    ensures
        a.eq_spec(&b) <==> (a@.len() == b@.len() && forall|j: int|
            0 <= j < a@.len() ==> a@[j] == b@[j]),
        a.eq_spec(&b) <==> decode_utf8(a@) == decode_utf8(b@),
        a.eq_spec(&b) <==> a.partial_cmp_spec(&b) == Some(Ordering::Equal),
        a.eq_spec(&b) == b.eq_spec(&a),
{
    a.lemma_repr();
    b.lemma_repr();
    decode_utf8_encode_utf8(a@);
    decode_utf8_encode_utf8(b@);
    lemma_lex_cmp_equal(a@, b@);
    if a@.len() == b@.len() && forall|j: int| 0 <= j < a@.len() ==> a@[j] == b@[j] {
        assert(a@ =~= b@);
    }
}

} // verus!
