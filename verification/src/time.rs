//! Explicit time values shared by every subsystem.
//!
//! The core is sans-I/O: it never reads a clock.  The host hands in a
//! monotonic instant with every input, so an instant is modelled as the
//! number of milliseconds since an arbitrary epoch chosen by the host.

use vstd::prelude::*;

verus! {

/// A point on the host's monotonic clock, in milliseconds since its epoch.
#[derive(Clone, Copy, Debug, PartialEq, Eq, Structural, Hash)]
pub struct Instant {
    pub millis: u64,
}

/// A span of time in milliseconds.
#[derive(Clone, Copy, Debug, PartialEq, Eq, Structural, Hash)]
pub struct Duration {
    pub millis: u64,
}

/// The instant `d` milliseconds past `i`, saturating at the end of the
/// representable range.
pub open spec fn instant_plus(i: Instant, d: int) -> Instant {
    Instant {
        millis: if i.millis + d > u64::MAX {
            u64::MAX
        } else {
            (i.millis + d) as u64
        },
    }
}

impl Instant {
    pub fn new(millis: u64) -> (r: Instant)
        ensures
            r.millis == millis,
    {
        Instant { millis }
    }

    /// The instant `d` later, saturating at the end of the representable range.
    pub fn add(self, d: Duration) -> (r: Instant)
        ensures
            r == instant_plus(self, d.millis as int),
    {
        Instant { millis: self.millis.saturating_add(d.millis) }
    }

    /// The earlier of two instants.
    pub fn min(self, other: Instant) -> (r: Instant)
        ensures
            r.millis == if self.millis <= other.millis {
                self.millis
            } else {
                other.millis
            },
    {
        if self.millis <= other.millis {
            self
        } else {
            other
        }
    }
}

impl Duration {
    pub fn from_millis(millis: u64) -> (r: Duration)
        ensures
            r.millis == millis,
    {
        Duration { millis }
    }
}

} // verus!
