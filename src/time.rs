use vstd::prelude::*;

verus! {

/// A monotonic clock reading; opaque here, only carried and compared
/// through the std functions below.
#[verifier::external_type_specification]
#[verifier::external_body]
pub struct ExInstant(std::time::Instant);

/// Relies on `Instant`'s `Clone`: `Instant` is `Copy`, so the clone is the
/// same reading.
pub assume_specification[ <std::time::Instant as Clone>::clone ](i: &std::time::Instant) -> (r: std::time::Instant)
    ensures
        r == *i,
;

/// Relies on `Instant::now`: a reading of the monotonic clock. Nothing is
/// promised of its value.
pub assume_specification[ std::time::Instant::now ]() -> std::time::Instant;

/// Relies on `Instant::saturating_duration_since`: the time from `earlier`
/// to `i`, zero when `earlier` is later; it does not panic.
pub assume_specification[ std::time::Instant::saturating_duration_since ](
    i: &std::time::Instant,
    earlier: std::time::Instant,
) -> std::time::Duration;

/// Relies on `Duration`'s `Clone`: `Duration` is `Copy`, so the clone is the
/// same duration.
pub assume_specification[ <core::time::Duration as Clone>::clone ](d: &core::time::Duration) -> (r: core::time::Duration)
    ensures
        r == *d,
;

/// Relies on `Duration::as_nanos`: the whole duration in nanoseconds.
pub assume_specification[ core::time::Duration::as_nanos ](d: &core::time::Duration) -> u128;

} // verus!
