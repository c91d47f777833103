//! Random numbers, drawn by `fastrand`.
//!
//! Of a number drawn at random nothing is known but the range it lies in:
//! that is what these contracts state, and they are taken on trust from the
//! source of `fastrand`.

use vstd::prelude::*;

verus! {

/// `fastrand::u8` on the range from `low` up to, but without, `high`: some
/// number of that range. It panics on an empty range, so `low` is required
/// to be below `high`.
#[verifier::external_body]
pub(crate) fn random_u8(low: u8, high: u8) -> (drawn: u8)
    requires
        low < high,
    ensures
        low <= drawn < high,
{
    fastrand::u8(low..high)
}

/// `fastrand::u32` on the range from `low` up to, but without, `high`: some
/// number of that range. It panics on an empty range, so `low` is required
/// to be below `high`.
#[verifier::external_body]
pub(crate) fn random_u32(low: u32, high: u32) -> (drawn: u32)
    requires
        low < high,
    ensures
        low <= drawn < high,
{
    fastrand::u32(low..high)
}

/// `fastrand::usize` on the range of the numbers below `len`: some number
/// of that range. It panics on an empty range, so `len` is required not to
/// be zero.
#[verifier::external_body]
pub(crate) fn random_index(len: usize) -> (drawn: usize)
    requires
        len > 0,
    ensures
        drawn < len,
{
    fastrand::usize(..len)
}

} // verus!
