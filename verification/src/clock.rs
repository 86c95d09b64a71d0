use vstd::prelude::*;

verus! {

/// Wall-clock timestamps as `std::time::SystemTime` keeps them.
#[verifier::external_type_specification]
#[verifier::external_body]
pub struct ExSystemTime(std::time::SystemTime);

/// Monotonic instants as `std::time::Instant` keeps them.
#[verifier::external_type_specification]
#[verifier::external_body]
pub struct ExInstant(std::time::Instant);

/// Calls `std::time::SystemTime::now`. The current time depends on the
/// machine's clock, so nothing is claimed of the returned value.
#[verifier::external_body]
pub(crate) fn system_time_now() -> std::time::SystemTime {
    std::time::SystemTime::now()
}

/// Calls `std::time::Instant::now`. The current instant depends on the
/// machine's clock, so nothing is claimed of the returned value.
#[verifier::external_body]
pub(crate) fn instant_now() -> std::time::Instant {
    std::time::Instant::now()
}

/// Calls `std::time::Instant::elapsed` on `since` and gives the time passed
/// in whole nanoseconds (`Duration::as_nanos`). It depends on the machine's
/// clock, so nothing is claimed of the returned value.
#[verifier::external_body]
pub(crate) fn nanos_since(since: &std::time::Instant) -> u128 {
    since.elapsed().as_nanos()
}

} // verus!
