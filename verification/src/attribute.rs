//! Deterministic attribute derivation. An asset's category is a pure, total
//! function of its identity bytes: the parity of their length decides it, so
//! any party re-deriving the attribute from the same id gets the same answer.

use vstd::prelude::*;

verus! {

/// The categorical attribute an asset carries, decided by the parity of the
/// length of its identity bytes.
#[derive(Clone, Copy, Debug, PartialEq, Eq, Structural)]
pub enum Category {
    /// The identity has an even number of bytes.
    Even,
    /// The identity has an odd number of bytes.
    Odd,
}

/// The attribute that belongs to identity bytes `id`.
pub open spec fn spec_category_of(id: Seq<u8>) -> Category {
    if id.len() % 2 == 0 {
        Category::Even
    } else {
        Category::Odd
    }
}

/// Derives the category of the given identity bytes. Bit-for-bit reproducible
/// from the same input on every caller.
pub fn category_of(id: &[u8]) -> (c: Category)
    ensures
        c == spec_category_of(id@),
{
    if id.len() % 2 == 0 {
        Category::Even
    } else {
        Category::Odd
    }
}

} // verus!
