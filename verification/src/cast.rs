//! Checked conversions between integer types.

use vstd::prelude::*;

verus! {

/// Calls `num_traits::cast` from `i64` to `u64`: the value itself where it is
/// not negative, nothing otherwise.
#[verifier::external_body]
pub(crate) fn to_u64(v: i64) -> (r: Option<u64>)
    ensures
        r == (if v >= 0 {
            Some(v as u64)
        } else {
            None
        }),
{
    num_traits::cast::<i64, u64>(v)
}

/// Calls `num_traits::cast` from `i64` to `u8`: the value itself where a byte
/// can hold it, nothing otherwise.
#[verifier::external_body]
pub(crate) fn to_u8(v: i64) -> (r: Option<u8>)
    ensures
        r == (if 0 <= v <= 255 {
            Some(v as u8)
        } else {
            None
        }),
{
    num_traits::cast::<i64, u8>(v)
}

/// Calls `num_traits::cast` from `u32` to `usize`: the value itself where a
/// `usize` can hold it, nothing otherwise.
#[verifier::external_body]
pub(crate) fn to_usize(v: u32) -> (r: Option<usize>)
    ensures
        r == (if v <= usize::MAX {
            Some(v as usize)
        } else {
            None
        }),
{
    num_traits::cast::<u32, usize>(v)
}

} // verus!
