//! The crate's only source of randomness, behind thin trusted wrappers.
//!
//! Nothing can be promised about a random value itself; every caller states
//! only what holds of each possible outcome.

use vstd::prelude::*;

verus! {

/// Relies on rand::random_range over `lo..hi`: a draw from the half-open
/// range, which panics only when the range is empty.
#[verifier::external_body]
pub(crate) fn rand_range_i32(lo: i32, hi: i32) -> (r: i32)
    requires
        lo < hi,
    ensures
        lo <= r < hi,
{
    rand::random_range(lo..hi)
}

/// Relies on rand::random::<bool>: a coin flip; nothing is promised of the
/// outcome.
#[verifier::external_body]
pub(crate) fn rand_coin() -> (r: bool) {
    rand::random()
}

/// Relies on rand::random_ratio: true with probability `num` in `den`,
/// which panics only when `den` is zero or `num > den`. Nothing is promised
/// of the outcome.
#[verifier::external_body]
pub(crate) fn rand_chance(num: u32, den: u32) -> (r: bool)
    requires
        0 < den,
        num <= den,
{
    rand::random_ratio(num, den)
}

} // verus!
