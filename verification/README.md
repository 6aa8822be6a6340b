# sinstr

A string type with inline storage for short strings, verified with Verus.
A string of at most
`NICHE_MAX_INT` bytes (7 on 64-bit targets, 3 on 32-bit ones) is stored
inline in the value; a longer one lives in a heap buffer; the empty string
holds no storage at all.

## Layout

- `src/discriminant.rs`: the word-size constants and the discriminant byte.
  A discriminant in `1..=NICHE_MAX_INT` is the length of an inline string;
  any other value (`HEAP_DISC` here) marks a heap string.
- `src/non_empty.rs`: `NonEmptySinStr` with its two representations
  (`InlinedRepr`, `HeapRepr`), the allocation size classes (`next_step`) and
  the type invariant that ties the representation to the string's bytes.
- `src/sinstr.rs`: `SinStr`, an optional `NonEmptySinStr`.
- `src/order.rs`: byte-wise lexicographic order, the `PartialOrd` impls, and
  the proof that the field order used by `derive(Ord)` is that order.
- `src/text.rs`: turning stored UTF-8 bytes back into `&str`, comparing bytes.

Everything is written in safe Rust, so a value is several words wide (an
inline word beside an optional `Vec`), not one tagged word. Where a pointer with tag bits would
hold the heap address, the model holds a `Vec<u8>` with exactly the string's
bytes; the size class of the allocation (`HeapRepr::capacity`) is computed
from the length, and `set_str` writes into the existing `Vec` when the new
string falls in the same class (the `Vec` may still grow its own allocation
when the new string is longer). For a heap string the inline data area keeps
the first bytes of the string, so that the fields of a value, read in order,
sort like the string itself (`order::lemma_field_order_is_string_order`).

The contracts speak of the string's bytes (`x@`, valid UTF-8); `as_str`
returns a `&str` with exactly those bytes.
