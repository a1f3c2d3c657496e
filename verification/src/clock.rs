use vstd::prelude::*;
use std::time::{Duration, Instant};

verus! {

/// A wall-clock instant in UTC: whole seconds since the Unix epoch and the
/// nanoseconds past that second.
#[derive(Debug, Clone, Copy, PartialEq, Eq, Structural)]
pub struct UtcTime {
    pub secs: i64,
    pub subsec_nanos: u32,
}

/// std's monotonic clock reading.
#[verifier::external_type_specification]
#[verifier::external_body]
pub struct ExInstant(Instant);

/// Reads the monotonic clock through `std::time::Instant::now`.
/// Nothing is claimed of the value: it depends on the time of the call.
#[verifier::external_body]
pub(crate) fn instant_now() -> Instant {
    Instant::now()
}

/// What `std::time::Instant::duration_since` gives for `later` and `earlier`.
pub uninterp spec fn spec_duration_since(later: Instant, earlier: Instant) -> Duration;

/// What `std::time::Duration::as_nanos` gives for `d`.
pub uninterp spec fn spec_as_nanos(d: Duration) -> u128;

/// Time from `earlier` to `later`, through `std::time::Instant::duration_since`
/// (which gives zero when `earlier` is the later of the two). The result is
/// named, as a function of the two instants; nothing more is claimed of it.
#[verifier::external_body]
pub(crate) fn duration_between(later: &Instant, earlier: &Instant) -> (r: Duration)
    ensures
        r == spec_duration_since(*later, *earlier),
{
    later.duration_since(*earlier)
}

/// Whole nanoseconds in `d`, through `std::time::Duration::as_nanos`. The
/// result is named, as a function of `d`; nothing more is claimed of it.
#[verifier::external_body]
pub(crate) fn duration_nanos(d: &Duration) -> (r: u128)
    ensures
        r == spec_as_nanos(*d),
{
    d.as_nanos()
}

} // verus!
