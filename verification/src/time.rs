//! Instants used as file modification times and as the recorded
//! last-known-synchronized times.
//!
//! A `Timestamp` is a UTC instant split into whole seconds since the Unix
//! epoch and a sub-second nanosecond part. Comparisons are lexicographic on
//! `(secs, nanos)`, which agrees with the chronological order whenever the
//! nanosecond part is in range.

use vstd::prelude::*;

verus! {

/// One billion; the number of nanoseconds in a second.
pub const NANOS_PER_SEC: u32 = 1_000_000_000;

/// A UTC instant: seconds since the Unix epoch plus nanoseconds within the
/// second. Seconds may be negative for instants before the epoch.
#[derive(Clone, Copy, Debug, PartialEq, Eq, Structural)]
pub struct Timestamp {
    pub secs: i64,
    pub nanos: u32,
}

impl Timestamp {
    /// A timestamp is well formed when its nanosecond part does not spill
    /// into a whole second.
    pub open spec fn wf(self) -> bool {
        self.nanos < NANOS_PER_SEC
    }

    /// Chronological strict order: `self` is earlier than `other`.
    pub open spec fn spec_lt(self, other: Timestamp) -> bool {
        self.secs < other.secs || (self.secs == other.secs && self.nanos < other.nanos)
    }

    pub fn new(secs: i64, nanos: u32) -> (r: Timestamp)
        requires
            nanos < NANOS_PER_SEC,
        ensures
            r == (Timestamp { secs, nanos }),
            r.wf(),
    {
        Timestamp { secs, nanos }
    }

    /// Is `self` chronologically earlier than `other`?
    pub fn is_before(&self, other: &Timestamp) -> (r: bool)
        ensures
            r == self.spec_lt(*other),
    {
        self.secs < other.secs || (self.secs == other.secs && self.nanos < other.nanos)
    }

    /// Does `self` denote the same instant as `other`?
    pub fn is_same(&self, other: &Timestamp) -> (r: bool)
        ensures
            r == (*self == *other),
    {
        self.secs == other.secs && self.nanos == other.nanos
    }
}

impl View for Timestamp {
    type V = Timestamp;

    open spec fn view(&self) -> Timestamp {
        *self
    }
}

/// The strict order is total on distinct instants: of two distinct
/// timestamps, exactly one is earlier.
pub proof fn lemma_timestamp_order_total(a: Timestamp, b: Timestamp)
    ensures
        a.spec_lt(b) || b.spec_lt(a) || a == b,
        !(a.spec_lt(b) && b.spec_lt(a)),
        !(a.spec_lt(b) && a == b),
{
}

} // verus!
