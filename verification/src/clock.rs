//! Monotonic time, in nanoseconds since a clock was made.

use vstd::prelude::*;

use std::time::Instant;

verus! {

/// An instant of the system's monotonic clock.
#[verifier::external_type_specification]
#[verifier::external_body]
pub struct ExInstant(std::time::Instant);

pub const NANOS_PER_SEC: u128 = 1_000_000_000;

pub const NANOS_PER_MILLI: u128 = 1_000_000;

/// No clock reading is above this: a `Duration` holds fewer than 2^64 seconds.
pub const MAX_TIME: u128 = 0xffff_ffff_ffff_ffff_ffff_ffff;

/// A source of monotonic time.
#[derive(Debug)]
pub struct Clock {
    origin: Instant,
}

/// `Instant::now` of the standard library. Nothing is claimed of the instant.
#[verifier::external_body]
fn current_instant() -> (r: Instant) {
    Instant::now()
}

/// The nanoseconds from one instant to another, zero where the second is the earlier.
pub uninterp spec fn nanos_between(from: Instant, to: Instant) -> u128;

/// `Instant::saturating_duration_since` of the standard library, in nanoseconds. The
/// time from one instant to another is a function of the two and fits a `Duration`.
#[verifier::external_body]
fn nanos_from(from: &Instant, to: &Instant) -> (r: u128)
    ensures
        r == nanos_between(*from, *to),
        r <= MAX_TIME,
{
    to.saturating_duration_since(*from).as_nanos()
}

impl Clock {
    /// The instant at which the clock stands at zero.
    pub closed spec fn origin(&self) -> Instant {
        self.origin
    }

    /// What the clock shows at the given instant.
    pub open spec fn time_at(&self, instant: Instant) -> u128 {
        nanos_between(self.origin(), instant)
    }

    /// A clock that starts at zero at `origin`.
    pub(crate) fn starting_at(origin: Instant) -> (r: Clock)
        ensures
            r.origin() == origin,
    {
        Clock { origin }
    }

    /// A clock that starts at zero now.
    pub(crate) fn new() -> (r: Clock) {
        Clock::starting_at(current_instant())
    }

    /// Reads the clock at the given instant.
    pub(crate) fn at(&self, instant: &Instant) -> (r: u128)
        ensures
            r == self.time_at(*instant),
            r <= MAX_TIME,
    {
        nanos_from(&self.origin, instant)
    }

    /// Nanoseconds from the start of this clock to the present instant.
    pub(crate) fn now(&self) -> (r: u128)
        ensures
            exists|instant: Instant| r == #[trigger] self.time_at(instant),
            r <= MAX_TIME,
    {
        self.at(&current_instant())
    }
}

} // verus!
