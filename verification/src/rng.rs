use vstd::prelude::*;

verus! {

/// Calls `rand::random_range` on the inclusive range `lo..=hi`, drawing from
/// the thread-local generator. The contract claims only what holds of every
/// draw: the value lies in the range. `rand` panics on an empty range, which
/// `requires` leaves out.
#[verifier::external_body]
pub(crate) fn random_u64_in(lo: u64, hi: u64) -> (r: u64)
    requires
        lo <= hi,
    ensures
        lo <= r <= hi,
{
    rand::random_range(lo..=hi)
}

} // verus!
