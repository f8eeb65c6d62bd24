//! Checked conversions between machine integers.

use vstd::prelude::*;

verus! {

/// `num_traits::ToPrimitive::to_u64` on a `u64`: every value converts to itself.
#[verifier::external_body]
pub(crate) fn to_u64(x: u64) -> (r: Option<u64>)
    ensures
        r == Some(x),
{
    num_traits::ToPrimitive::to_u64(&x)
}

/// `num_traits::ToPrimitive::to_usize` on a `u64`: a value that fits the
/// machine's word converts to itself, and no other converts.
#[verifier::external_body]
pub(crate) fn to_usize(x: u64) -> (r: Option<usize>)
    ensures
        r == if x <= usize::MAX {
            Some(x as usize)
        } else {
            None
        },
{
    num_traits::ToPrimitive::to_usize(&x)
}

} // verus!
