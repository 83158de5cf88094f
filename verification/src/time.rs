//! Instants on the UTC time scale, counted as Unix time counts them.

use vstd::prelude::*;

verus! {

/// Nanoseconds in one second.
pub const NANOS_PER_SECOND: u32 = 1_000_000_000;

/// Seconds in one minute.
pub const SECONDS_PER_MINUTE: i64 = 60;

/// A UTC instant: whole seconds since 1970-01-01T00:00:00Z and the nanoseconds
/// that have passed within that second.
#[derive(Clone, Copy, Debug, PartialEq, Eq, Structural)]
pub struct Instant {
    pub seconds: i64,
    pub nanos: u32,
}

impl Instant {
    /// The nanosecond part stays within one second.
    pub open spec fn wf(self) -> bool {
        self.nanos < NANOS_PER_SECOND
    }

    /// The instant as a count of nanoseconds since the Unix epoch.
    pub open spec fn total_nanos(self) -> int {
        self.seconds * (NANOS_PER_SECOND as int) + self.nanos
    }

    /// `self` is not later than `other`.
    pub open spec fn at_or_before(self, other: Instant) -> bool {
        self.seconds < other.seconds || (self.seconds == other.seconds && self.nanos
            <= other.nanos)
    }

    /// `self` is earlier than `other`.
    pub open spec fn before(self, other: Instant) -> bool {
        self.seconds < other.seconds || (self.seconds == other.seconds && self.nanos
            < other.nanos)
    }

    /// The instant `delta` whole seconds after `self` (before it, if `delta` is negative).
    pub open spec fn shifted(self, delta: int) -> Instant
        recommends
            i64::MIN <= self.seconds + delta <= i64::MAX,
    {
        Instant { seconds: (self.seconds + delta) as i64, nanos: self.nanos }
    }

    /// Builds an instant from its parts; `None` when `nanos` does not fit within a second.
    pub fn new(seconds: i64, nanos: u32) -> (r: Option<Instant>)
        ensures
            nanos < NANOS_PER_SECOND ==> r == Some(Instant { seconds, nanos }),
            nanos >= NANOS_PER_SECOND ==> r.is_none(),
    {
        if nanos < NANOS_PER_SECOND {
            Some(Instant { seconds, nanos })
        } else {
            None
        }
    }

    /// Tells whether `self` is not later than `other`.
    pub fn is_at_or_before(&self, other: &Instant) -> (r: bool)
        ensures
            r == self.at_or_before(*other),
    {
        self.seconds < other.seconds || (self.seconds == other.seconds && self.nanos
            <= other.nanos)
    }

    /// Tells whether `self` is earlier than `other`.
    pub fn is_before(&self, other: &Instant) -> (r: bool)
        ensures
            r == self.before(*other),
    {
        self.seconds < other.seconds || (self.seconds == other.seconds && self.nanos
            < other.nanos)
    }

    /// The instant `delta` whole seconds away from `self`, or `None` when the
    /// seconds count would leave the range of `i64`.
    pub fn checked_shift(&self, delta: i64) -> (r: Option<Instant>)
        ensures
            i64::MIN <= self.seconds + delta <= i64::MAX ==> r == Some(self.shifted(delta as int)),
            !(i64::MIN <= self.seconds + delta <= i64::MAX) ==> r.is_none(),
    {
        match self.seconds.checked_add(delta) {
            Some(seconds) => Some(Instant { seconds, nanos: self.nanos }),
            None => None,
        }
    }
}

/// Ordering by `at_or_before` agrees with ordering by nanosecond count.
pub proof fn lemma_order_is_chronological(a: Instant, b: Instant)
    requires
        a.wf(),
        b.wf(),
    ensures
        a.at_or_before(b) <==> a.total_nanos() <= b.total_nanos(),
        a.before(b) <==> a.total_nanos() < b.total_nanos(),
{
    assert(a.seconds < b.seconds ==> a.seconds * 1_000_000_000 + 1_000_000_000 <= b.seconds
        * 1_000_000_000) by (nonlinear_arith);
    assert(b.seconds < a.seconds ==> b.seconds * 1_000_000_000 + 1_000_000_000 <= a.seconds
        * 1_000_000_000) by (nonlinear_arith);
}

} // verus!
