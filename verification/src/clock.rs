//! Time as far as the library needs it.
use std::time::{Duration, Instant};
use vstd::prelude::*;

verus! {

/// A point in time of the standard library's monotonic clock.
#[verifier::external_type_specification]
#[verifier::external_body]
pub struct ExInstant(std::time::Instant);

/// The length of a duration in nanoseconds.
pub uninterp spec fn duration_nanos(d: Duration) -> nat;

/// `Duration::as_nanos` gives the length in nanoseconds.
pub assume_specification[ Duration::as_nanos ](d: &Duration) -> (n: u128)
    ensures
        n == duration_nanos(*d),
;

/// `Duration::from_secs` gives a duration of so many seconds.
pub assume_specification[ Duration::from_secs ](secs: u64) -> (d: Duration)
    ensures
        duration_nanos(d) == secs * 1_000_000_000,
;

/// `Instant::now`. Nothing is claimed of what the clock says.
#[verifier::external_body]
pub(crate) fn now() -> Instant {
    Instant::now()
}

/// Where a point in time stands on the clock, in nanoseconds from some start that
/// all points in time share.
pub uninterp spec fn clock_nanos(t: Instant) -> int;

/// Nanoseconds from one point in time to a later one; none if it is not later.
pub open spec fn nanos_between(later: Instant, earlier: Instant) -> nat {
    if clock_nanos(later) >= clock_nanos(earlier) {
        (clock_nanos(later) - clock_nanos(earlier)) as nat
    } else {
        0
    }
}

/// `Instant::saturating_duration_since`: the time that lies between two points in time of the
/// clock, or none if the second is the later one.
#[verifier::external_body]
pub(crate) fn between(later: &Instant, earlier: &Instant) -> (d: Duration)
    ensures
        duration_nanos(d) == if clock_nanos(*later) >= clock_nanos(*earlier) {
            clock_nanos(*later) - clock_nanos(*earlier)
        } else {
            0
        },
{
    later.saturating_duration_since(*earlier)
}

} // verus!
