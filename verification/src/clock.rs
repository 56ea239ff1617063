//! Time as the transport reads it: durations by their length in
//! nanoseconds, and the monotonic clock.

use vstd::prelude::*;

use std::time::{Duration, Instant};

verus! {

#[verifier::external_type_specification]
#[verifier::external_body]
pub struct ExInstant(Instant);

/// Names `Duration::as_nanos`: the whole length of a duration in
/// nanoseconds. Durations compare as these values do.
pub uninterp spec fn duration_nanos(duration: Duration) -> u128;

/// Calls `Duration::as_nanos`; the contract claims only that the result is
/// the named whole length of `duration` in nanoseconds.
#[verifier::external_body]
pub(crate) fn duration_as_nanos(duration: &Duration) -> (nanos: u128)
    ensures
        nanos == duration_nanos(*duration),
{
    duration.as_nanos()
}

/// Names `Instant::duration_since`: the time from `earlier` to `later`, or
/// zero when `earlier` is the later instant.
pub uninterp spec fn instant_gap(later: Instant, earlier: Instant) -> Duration;

/// Calls `Instant::duration_since`; the contract claims only that the
/// result is the named gap between the two instants.
#[verifier::external_body]
pub(crate) fn instant_duration_since(later: &Instant, earlier: &Instant) -> (gap: Duration)
    ensures
        gap == instant_gap(*later, *earlier),
{
    later.duration_since(*earlier)
}

/// Calls `Instant::now`. The reading depends on the moment of the call, so
/// nothing is stated about it.
#[verifier::external_body]
pub(crate) fn instant_now() -> Instant {
    Instant::now()
}

/// The nanoseconds from `earlier` to `later`.
pub open spec fn elapsed_nanos(later: Instant, earlier: Instant) -> u128 {
    duration_nanos(instant_gap(later, earlier))
}

/// The nanoseconds from `earlier` to `later`.
pub(crate) fn nanos_between(later: &Instant, earlier: &Instant) -> (nanos: u128)
    ensures
        nanos == elapsed_nanos(*later, *earlier),
{
    let gap = instant_duration_since(later, earlier);
    duration_as_nanos(&gap)
}

} // verus!
