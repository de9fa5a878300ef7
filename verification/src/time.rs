//! Spans of time.
use vstd::prelude::*;

verus! {

/// A span of time: whole seconds and the nanoseconds beyond them.
#[derive(Debug, Clone, Copy, PartialEq, Eq)]
pub struct Duration {
    pub secs: u64,
    pub nanos: u32,
}

impl Duration {
    /// Whether there is less than a second beyond the whole seconds.
    pub open spec fn wf(self) -> bool {
        self.nanos < 1_000_000_000
    }

    /// The span in nanoseconds.
    pub open spec fn total_nanos(self) -> int {
        self.secs * 1_000_000_000 + self.nanos
    }

    /// The span in whole milliseconds.
    pub open spec fn total_millis(self) -> int {
        self.secs * 1000 + self.nanos / 1_000_000
    }

    /// A span of `millis` milliseconds.
    pub fn from_millis(millis: u64) -> (d: Duration)
        ensures
            d.wf(),
            d.total_nanos() == millis * 1_000_000,
            d.total_millis() == millis,
    {
        Duration { secs: millis / 1000, nanos: (millis % 1000) as u32 * 1_000_000 }
    }

    /// The span in whole milliseconds.
    pub fn as_millis(&self) -> (millis: u128)
        ensures
            millis == self.total_millis(),
            self.wf() ==> millis == self.total_nanos() / 1_000_000,
    {
        self.secs as u128 * 1000 + (self.nanos / 1_000_000) as u128
    }

    /// Whether this span is at least as long as `other`.
    pub fn reaches(&self, other: &Duration) -> (r: bool)
        requires
            self.wf(),
            other.wf(),
        ensures
            r == (self.total_nanos() >= other.total_nanos()),
    {
        self.secs > other.secs || (self.secs == other.secs && self.nanos >= other.nanos)
    }

    /// What is left of this span after `other`, a shorter one.
    pub fn minus(&self, other: &Duration) -> (d: Duration)
        requires
            self.wf(),
            other.wf(),
            self.total_nanos() >= other.total_nanos(),
        ensures
            d.wf(),
            d.total_nanos() == self.total_nanos() - other.total_nanos(),
    {
        if self.nanos >= other.nanos {
            Duration { secs: self.secs - other.secs, nanos: self.nanos - other.nanos }
        } else {
            Duration {
                secs: self.secs - other.secs - 1,
                nanos: 1_000_000_000 - (other.nanos - self.nanos),
            }
        }
    }
}

/// A second has a thousand milliseconds, and a millisecond a million nanoseconds; parts of a
/// millisecond are not counted in milliseconds.
pub proof fn law_units(d: Duration)
    requires
        d.nanos < 1_000_000_000,
    ensures
        d.wf(),
        d.total_nanos() == d.secs * 1_000_000_000 + d.nanos,
        d.total_millis() * 1_000_000 <= d.total_nanos() < (d.total_millis() + 1) * 1_000_000,
{
}

} // verus!
