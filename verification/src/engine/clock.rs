use vstd::prelude::*;

verus! {

/// `std::time::Instant`, a point in time that only the standard library
/// can read.
#[verifier::external_type_specification]
#[verifier::external_body]
pub struct ExInstant(std::time::Instant);

/// `Instant::now` returns the current point in time. Nothing is claimed
/// about it.
pub assume_specification[ std::time::Instant::now ]() -> (now: std::time::Instant);

/// `Instant::elapsed` returns the time that has passed since the instant
/// was taken. Nothing is claimed about its length.
pub assume_specification[ std::time::Instant::elapsed ](start: &std::time::Instant) -> (passed:
    core::time::Duration);

/// `Duration::as_millis` returns the whole milliseconds of a duration.
/// Nothing is claimed about the number.
pub assume_specification[ core::time::Duration::as_millis ](duration: &core::time::Duration) -> (millis:
    u128);

} // verus!
