use vstd::prelude::*;

verus! {

/// Number of nanoseconds in one millisecond.
pub const NANOS_PER_MILLI: u64 = 1_000_000;

/// Number of nanoseconds in one second.
pub const NANOS_PER_SEC: u64 = 1_000_000_000;

/// A span of time, counted in whole nanoseconds.
#[derive(Clone, Copy, Debug, PartialEq, Eq, Structural, PartialOrd, Ord, Hash)]
pub struct Duration {
    pub nanos: u64,
}

impl View for Duration {
    type V = nat;

    /// The length of the span in nanoseconds.
    open spec fn view(&self) -> nat {
        self.nanos as nat
    }
}

impl Duration {
    pub fn from_nanos(nanos: u64) -> (r: Duration)
        ensures
            r@ == nanos,
    {
        Duration { nanos }
    }

    pub fn from_millis(millis: u64) -> (r: Duration)
        requires
            millis * NANOS_PER_MILLI <= u64::MAX,
        ensures
            r@ == millis * NANOS_PER_MILLI,
    {
        Duration { nanos: millis * NANOS_PER_MILLI }
    }

    pub fn as_nanos(&self) -> (r: u64)
        ensures
            r == self@,
    {
        self.nanos
    }

    /// `self + other`, or `None` where the sum does not fit.
    pub fn checked_add(self, other: Duration) -> (r: Option<Duration>)
        ensures
            self@ + other@ <= u64::MAX ==> r is Some && r->0@ == self@ + other@,
            self@ + other@ > u64::MAX ==> r is None,
    {
        match self.nanos.checked_add(other.nanos) {
            Some(nanos) => Some(Duration { nanos }),
            None => None,
        }
    }

    /// `self - other`, or `None` where `other` is the longer span.
    pub fn checked_sub(self, other: Duration) -> (r: Option<Duration>)
        ensures
            other@ <= self@ ==> r is Some && r->0@ == self@ - other@,
            other@ > self@ ==> r is None,
    {
        if other.nanos <= self.nanos {
            Some(Duration { nanos: self.nanos - other.nanos })
        } else {
            None
        }
    }
}

/// `a - b` over the naturals, floored at zero.
pub open spec fn sat_sub(a: nat, b: nat) -> nat {
    if b <= a {
        (a - b) as nat
    } else {
        0
    }
}

/// A point in time, counted in whole nanoseconds from an origin that the clock chooses.
#[derive(Clone, Copy, Debug, PartialEq, Eq, Structural, PartialOrd, Ord, Hash)]
pub struct Instant {
    pub nanos: u64,
}

impl View for Instant {
    type V = nat;

    /// Nanoseconds since the clock's origin.
    open spec fn view(&self) -> nat {
        self.nanos as nat
    }
}

impl Instant {
    pub fn from_nanos(nanos: u64) -> (r: Instant)
        ensures
            r@ == nanos,
    {
        Instant { nanos }
    }

    pub fn as_nanos(&self) -> (r: u64)
        ensures
            r == self@,
    {
        self.nanos
    }

    /// Time elapsed from `earlier` to `self`, or zero where `earlier` is the later one.
    pub fn saturating_duration_since(self, earlier: Instant) -> (r: Duration)
        ensures
            r@ == sat_sub(self@, earlier@),
    {
        if earlier.nanos <= self.nanos {
            Duration::from_nanos(self.nanos - earlier.nanos)
        } else {
            Duration::from_nanos(0)
        }
    }
}

} // verus!
