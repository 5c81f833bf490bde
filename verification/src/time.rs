//! Points in time and spans of it, in nanoseconds.
//!
//! The logic never asks what time it is on its own account: a caller passes
//! the time in. `Clock` is where a caller gets it from.
use vstd::prelude::*;

verus! {

/// The standard library's monotonic instant, carried opaquely by `Clock`.
#[verifier::external_type_specification]
#[verifier::external_body]
pub struct ExStdInstant(std::time::Instant);

/// A span of time.
#[derive(Debug, Clone, Copy, PartialEq, Eq, PartialOrd, Ord, Structural)]
pub struct Duration {
    pub nanos: u64,
}

/// A point in time: nanoseconds since the clock that reported it was started.
#[derive(Debug, Clone, Copy, PartialEq, Eq, PartialOrd, Ord, Structural)]
pub struct Instant {
    pub nanos: u64,
}

pub const NANOS_PER_MILLI: u64 = 1_000_000;

pub const NANOS_PER_SEC: u64 = 1_000_000_000;

impl Duration {
    pub fn from_secs(secs: u64) -> (d: Duration)
        requires
            secs * NANOS_PER_SEC <= u64::MAX,
        ensures
            d.nanos == secs * NANOS_PER_SEC,
    {
        Duration { nanos: secs * NANOS_PER_SEC }
    }

    pub fn from_millis(millis: u64) -> (d: Duration)
        requires
            millis * NANOS_PER_MILLI <= u64::MAX,
        ensures
            d.nanos == millis * NANOS_PER_MILLI,
    {
        Duration { nanos: millis * NANOS_PER_MILLI }
    }
}

/// The time from `earlier` to `later`, or zero when they are the other way
/// round.
pub open spec fn since(later: Instant, earlier: Instant) -> nat {
    if later.nanos >= earlier.nanos {
        (later.nanos - earlier.nanos) as nat
    } else {
        0
    }
}

impl Instant {
    /// The instant `d` later, or the last representable one.
    pub fn after(self, d: Duration) -> (r: Instant)
        ensures
            r.nanos == if self.nanos + d.nanos <= u64::MAX {
                self.nanos + d.nanos
            } else {
                u64::MAX as int
            },
    {
        Instant { nanos: self.nanos.saturating_add(d.nanos) }
    }

    pub fn saturating_duration_since(self, earlier: Instant) -> (d: Duration)
        ensures
            d.nanos == since(self, earlier),
    {
        Duration { nanos: self.nanos.saturating_sub(earlier.nanos) }
    }
}

/// A monotonic clock. Its reading is the time since it was started.
pub struct Clock {
    start: std::time::Instant,
}

impl Clock {
    /// A clock that starts now.
    pub fn start() -> (c: Clock) {
        Clock { start: std_now() }
    }

    /// The time on this clock. Nothing is promised of the reading: two calls
    /// may differ.
    pub fn now(&self) -> (t: Instant) {
        Instant { nanos: std_elapsed_nanos(&self.start) }
    }
}

/// `std::time::Instant::now`. Nothing is claimed of the instant it returns.
#[verifier::external_body]
fn std_now() -> (t: std::time::Instant) {
    std::time::Instant::now()
}

/// `std::time::Instant::elapsed`, in nanoseconds. Nothing is claimed of it.
#[verifier::external_body]
fn std_elapsed_nanos(start: &std::time::Instant) -> (n: u64) {
    start.elapsed().as_nanos() as u64
}

/// A span that was added is the span that has gone by, unless time has run out; what
/// lies ahead has not gone by at all.
pub proof fn law_time_goes_by(t: Instant, u: Instant, v: Instant, d: u64)
    ensures
        t.nanos + d == u.nanos ==> since(u, t) == d,
        t.nanos >= u.nanos ==> since(u, t) == 0,
        t.nanos <= u.nanos <= v.nanos ==> since(v, u) + since(u, t) == since(v, t),
        NANOS_PER_SEC == 1000 * NANOS_PER_MILLI,
        NANOS_PER_SEC == 1_000_000_000,
{
}

} // verus!
