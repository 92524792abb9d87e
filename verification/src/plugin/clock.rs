//! Monotonic clock access for the rolling-window breakers.
//!
//! The breakers keep their event timestamps as plain `u64` nanoseconds
//! measured from an [`Instant`] taken when the breaker is built.

use std::time::Instant;

use vstd::prelude::*;

verus! {

#[verifier::external_type_specification]
#[verifier::external_body]
pub struct ExInstant(Instant);

/// Wraps `std::time::Instant::now`: reads the monotonic clock. Nothing is
/// stated of the instant returned.
#[verifier::external_body]
pub(crate) fn instant_now() -> Instant {
    Instant::now()
}

/// A monotonic clock started at an origin, with a record of its latest
/// reading: the nanoseconds elapsed since the origin when it was last read.
#[derive(Clone, Copy)]
pub struct MonoClock {
    origin: Instant,
    reading: Ghost<u128>,
}

impl MonoClock {
    /// The latest reading, in nanoseconds since the origin.
    pub closed spec fn reading(&self) -> u128 {
        self.reading@
    }

    /// A clock started now; no time has been read on it yet.
    pub fn start() -> (c: Self)
        ensures
            c.reading() == 0,
    {
        MonoClock { origin: instant_now(), reading: Ghost(0) }
    }
}

/// Wraps `std::time::Instant::elapsed` on the clock's origin, as whole
/// nanoseconds: the reading becomes the clock's latest, and is no less than
/// the one before it, since `Instant` measures a monotonically
/// non-decreasing clock (as its documentation states). How far it advanced
/// depends on the time of the call and is not stated.
#[verifier::external_body]
fn elapsed_nanos(clock: &mut MonoClock) -> (r: u128)
    ensures
        r >= old(clock).reading(),
        final(clock).reading() == r,
{
    clock.origin.elapsed().as_nanos()
}

/// A reading in nanoseconds as a `u64`, saturated to `u64::MAX`.
pub open spec fn nanos_of(r: u128) -> u64 {
    if r > u64::MAX as u128 {
        u64::MAX
    } else {
        r as u64
    }
}

/// Read the clock: the nanoseconds elapsed since its origin, saturated to
/// `u64::MAX`; never less than the reading before.
pub(crate) fn nanos_since(clock: &mut MonoClock) -> (n: u64)
    ensures
        final(clock).reading() >= old(clock).reading(),
        n == nanos_of(final(clock).reading()),
        n >= nanos_of(old(clock).reading()),
{
    let n = elapsed_nanos(clock);
    if n > u64::MAX as u128 {
        u64::MAX
    } else {
        n as u64
    }
}

} // verus!
