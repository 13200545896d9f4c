//! Comparing enum values by variant alone.
use vstd::prelude::*;

verus! {

/// An enum whose variants are numbered in declaration order.
pub trait Variant {
    /// The number of the value's variant.
    spec fn variant(&self) -> nat;

    /// The number of the value's variant.
    fn variant_index(&self) -> (r: u8)
        ensures
            r == self.variant(),
    ;
}

/// The two values are of the same variant, whatever the values they hold.
pub fn variants_equal<T: Variant>(a: &T, b: &T) -> (r: bool)
    ensures
        r == (a.variant() == b.variant()),
{
    a.variant_index() == b.variant_index()
}

} // verus!
