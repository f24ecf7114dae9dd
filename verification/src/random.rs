//! Random numbers.

use vstd::prelude::*;

verus! {

/// `fastrand::u64` over an inclusive range: some number of the range, which the
/// generator picks.
#[verifier::external_body]
pub(crate) fn random_between(low: u64, high: u64) -> (r: u64)
    requires
        low <= high,
    ensures
        low <= r <= high,
{
    fastrand::u64(low..=high)
}

/// `fastrand::u16` over all numbers. Nothing is claimed of the one it picks.
#[verifier::external_body]
pub(crate) fn random_id() -> (r: u16) {
    fastrand::u16(..)
}

} // verus!
