//! Where the store learns what time it is.

use std::time::Duration;
use std::time::Instant;
use vstd::prelude::*;

verus! {

/// A source of timestamps, in nanoseconds since an origin of its own.
///
/// A store stamps every observation with the reading of the clock it was
/// built with. Nothing is promised of a reading: a store is correct for
/// whatever its clock returns.
pub trait Clock {
    /// The current time.
    fn now(&self) -> u64;
}

/// `std::time::Instant`, a reading of the machine's monotonic clock. Verus
/// sees nothing inside it.
#[verifier::external_type_specification]
#[verifier::external_body]
pub struct ExInstant(Instant);

/// Calls `Instant::now`, which reads the machine's monotonic clock. Nothing
/// is claimed of the reading.
#[verifier::external_body]
fn read_instant() -> Instant {
    Instant::now()
}

/// `Instant::elapsed` measures the time since the instant was taken. Nothing
/// is claimed of the measure.
pub assume_specification[ Instant::elapsed ](instant: &Instant) -> Duration;

/// `Duration::as_nanos` gives a duration in whole nanoseconds. Nothing is
/// claimed of the number.
pub assume_specification[ Duration::as_nanos ](duration: &Duration) -> u128;

/// The machine's monotonic clock, counted from the moment the value was made.
pub struct SystemClock {
    origin: Instant,
}

impl SystemClock {
    /// A clock whose origin is now.
    pub fn new() -> Self {
        SystemClock { origin: read_instant() }
    }
}

impl Default for SystemClock {
    fn default() -> Self {
        SystemClock::new()
    }
}

impl Clock for SystemClock {
    /// Nanoseconds since the clock was made; `u64::MAX` once they no longer fit.
    fn now(&self) -> u64 {
        let elapsed = self.origin.elapsed();
        timestamp_of(elapsed.as_nanos())
    }
}

/// A count of nanoseconds as a timestamp: the count itself, or the largest
/// timestamp where the count no longer fits.
pub open spec fn capped(nanos: u128) -> u64 {
    if nanos > u64::MAX {
        u64::MAX
    } else {
        nanos as u64
    }
}

/// The timestamp for a count of nanoseconds that a clock has measured.
pub fn timestamp_of(nanos: u128) -> (timestamp: u64)
    ensures
        timestamp == capped(nanos),
{
    if nanos > 0xffff_ffff_ffff_ffff {
        u64::MAX
    } else {
        nanos as u64
    }
}

} // verus!
