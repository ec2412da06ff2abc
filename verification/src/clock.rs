//! Points in time on the monotonic clock, as plain numbers.

use std::time::Instant;
use vstd::prelude::*;

verus! {

/// `std::time::Instant`, a reading of the monotonic clock. Opaque.
#[verifier::external_type_specification]
#[verifier::external_body]
pub struct ExInstant(std::time::Instant);

/// `Instant::now` of std: reads the clock. Nothing is claimed of the reading.
pub assume_specification[ Instant::now ]() -> Instant
;

/// `Instant::elapsed` of std, in nanoseconds: reads the clock. Nothing is
/// claimed of the reading, beyond that it is not negative, as its type says.
#[verifier::external_body]
fn nanos_since(origin: &Instant) -> (nanos: u128) {
    origin.elapsed().as_nanos()
}

/// A point in time: nanoseconds after the origin of a clock, or before it
/// when negative.
#[derive(Clone, Copy, Debug, PartialEq, Eq, Structural)]
pub struct Timestamp {
    pub nanos: i64,
}

impl Timestamp {
    /// Whether this can be the present moment on a clock: time only goes on
    /// from the origin, so a moment before it is past on every reading.
    pub open spec fn can_be_present(self) -> bool {
        self.nanos >= 0
    }

    /// The nanoseconds from this point to `now`, or zero when `now` is not
    /// later.
    pub open spec fn nanos_until(self, now: Timestamp) -> nat {
        if now.nanos > self.nanos {
            (now.nanos - self.nanos) as nat
        } else {
            0
        }
    }

    /// Whether at `now` at most `secs` seconds have gone by since this point.
    pub open spec fn within(self, secs: nat, now: Timestamp) -> bool {
        self.nanos_until(now) <= secs * 1_000_000_000
    }

    /// Whether at `now` at most `secs` seconds have gone by since this point.
    pub fn is_within(self, secs: u64, now: Timestamp) -> (yes: bool)
        ensures
            yes == self.within(secs as nat, now),
    {
        let passed: i128 = if now.nanos > self.nanos {
            now.nanos as i128 - self.nanos as i128
        } else {
            0
        };
        passed <= secs as i128 * 1_000_000_000
    }
}

/// A monotonic clock that counts from the moment it was made.
pub struct Clock {
    origin: Instant,
}

impl Clock {
    /// A clock that starts now.
    pub(crate) fn new() -> Self {
        Clock { origin: Instant::now() }
    }

    /// The present moment on this clock, which stands still at the last moment
    /// that can be numbered.
    pub(crate) fn now(&self) -> (now: Timestamp)
        ensures
            now.can_be_present(),
    {
        let nanos: u128 = nanos_since(&self.origin);
        if nanos <= i64::MAX as u128 {
            Timestamp { nanos: nanos as i64 }
        } else {
            Timestamp { nanos: i64::MAX }
        }
    }

    /// The present moment on this clock, which does not come before `earlier`,
    /// another reading.
    pub(crate) fn now_after(&self, earlier: Timestamp) -> (now: Timestamp)
        ensures
            now.nanos >= earlier.nanos,
            earlier.can_be_present() ==> now.can_be_present(),
    {
        let now = self.now();
        if now.nanos >= earlier.nanos {
            now
        } else {
            earlier
        }
    }
}

} // verus!
