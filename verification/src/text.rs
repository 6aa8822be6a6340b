//! Byte-level helpers: turning stored UTF-8 bytes back into a `&str`, and
//! comparing byte slices.

use vstd::prelude::*;
use vstd::string::StringSliceAdditionalSpecFns;
use vstd::utf8::{encode_utf8_valid_utf8, valid_utf8};

verus! {

/// The bytes of a string slice.
pub open spec fn str_bytes(s: &str) -> Seq<u8> {
    s.spec_bytes()
}

/// The bytes of a byte slice.
pub open spec fn slice_bytes(s: &[u8]) -> Seq<u8> {
    s@
}

/// Calls `core::str::from_utf8`, which succeeds on every valid UTF-8 byte
/// slice and then returns a `&str` made of exactly those bytes. The contract
/// says that much and no more: what it returns on invalid input is left
/// open, apart from not being a `&str` of other bytes.
#[verifier::external_body]
fn str_from_utf8<'a>(bytes: &'a [u8]) -> (r: Option<&'a str>)
    ensures
        valid_utf8(bytes@) ==> r is Some,
        r matches Some(s) ==> s.spec_bytes() == bytes@,
{
    core::str::from_utf8(bytes).ok()
}

/// Calls `<str as Hash>::hash`: feeds the string to `state` the way `str`
/// does, so that a value hashes like the `&str` it borrows as. Nothing is
/// stated of the hasher's state afterwards.
#[verifier::external_body]
pub(crate) fn hash_str<H: core::hash::Hasher>(s: &str, state: &mut H) {
    core::hash::Hash::hash(s, state)
}

/// Views valid UTF-8 bytes as a string slice.
pub fn bytes_as_str<'a>(bytes: &'a [u8]) -> (r: &'a str)
    requires
        valid_utf8(bytes@),
    ensures
        r.spec_bytes() == bytes@,
{
    match str_from_utf8(bytes) {
        Some(s) => s,
        None => unreached(),
    }
}

/// The bytes of a string slice are valid UTF-8.
pub proof fn lemma_str_bytes_valid(s: &str)
    ensures
        valid_utf8(s.spec_bytes()),
{
    encode_utf8_valid_utf8(s@);
}

/// Compares two byte slices element by element.
pub fn bytes_equal(a: &[u8], b: &[u8]) -> (r: bool)
    ensures
        r == (a@ == b@),
{
    let n = a.len();
    if n != b.len() {
        return false;
    }
    let mut i: usize = 0;
    while i < n
        invariant
            n == a@.len(),
            n == b@.len(),
            i <= n,
            forall|j: int| 0 <= j < i ==> a@[j] == b@[j],
        decreases n - i,
    {
        if a[i] != b[i] {
            return false;
        }
        i = i + 1;
    }
    assert(a@ =~= b@);
    true
}

} // verus!
