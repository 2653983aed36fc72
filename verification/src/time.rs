//! Spans and moments of time, counted in nanoseconds.

use vstd::prelude::*;

verus! {

/// A span of time with nanosecond precision.
#[derive(Clone, Copy, PartialEq, Eq, PartialOrd, Ord, Hash, Debug, Structural)]
pub struct Duration {
    nanos: u64,
}

impl View for Duration {
    type V = nat;

    closed spec fn view(&self) -> nat {
        self.nanos as nat
    }
}

impl Duration {
    pub fn from_nanos(nanos: u64) -> (res: Duration)
        ensures
            res@ == nanos,
    {
        Duration { nanos }
    }

    pub fn from_micros(micros: u64) -> (res: Duration)
        requires
            micros * 1_000 <= u64::MAX,
        ensures
            res@ == micros * 1_000,
    {
        Duration { nanos: micros * 1_000 }
    }

    pub fn from_millis(millis: u64) -> (res: Duration)
        requires
            millis * 1_000_000 <= u64::MAX,
        ensures
            res@ == millis * 1_000_000,
    {
        Duration { nanos: millis * 1_000_000 }
    }

    pub fn from_secs(secs: u64) -> (res: Duration)
        requires
            secs * 1_000_000_000 <= u64::MAX,
        ensures
            res@ == secs * 1_000_000_000,
    {
        Duration { nanos: secs * 1_000_000_000 }
    }

    pub fn as_nanos(&self) -> (res: u64)
        ensures
            res == self@,
    {
        self.nanos
    }

    /// The number of whole milliseconds in this span.
    pub fn as_millis(&self) -> (res: u64)
        ensures
            res == self@ / 1_000_000,
    {
        self.nanos / 1_000_000
    }

    /// Two durations are equal exactly when they are equally long.
    pub proof fn lemma_view_injective(a: Duration, b: Duration)
        ensures
            (a@ == b@) <==> a == b,
    {
    }
}

/// A moment on a monotonic clock, counted in nanoseconds from an origin that the clock chose.
#[derive(Clone, Copy, PartialEq, Eq, Hash, Debug, Structural)]
pub struct Instant {
    nanos: u64,
}

impl View for Instant {
    type V = nat;

    closed spec fn view(&self) -> nat {
        self.nanos as nat
    }
}

impl Instant {
    pub fn from_nanos(nanos: u64) -> (res: Instant)
        ensures
            res@ == nanos,
    {
        Instant { nanos }
    }

    pub fn as_nanos(&self) -> (res: u64)
        ensures
            res == self@,
    {
        self.nanos
    }

    /// Whether this moment is not later than `other`.
    pub fn is_not_after(&self, other: &Instant) -> (res: bool)
        ensures
            res == (self@ <= other@),
    {
        self.nanos <= other.nanos
    }

    /// The moment that lies `delay` after this one, or None if the clock cannot count that far.
    pub fn checked_add(&self, delay: Duration) -> (res: Option<Instant>)
        ensures
            match res {
                Some(t) => t@ == self@ + delay@,
                None => self@ + delay@ > u64::MAX,
            },
    {
        match self.nanos.checked_add(delay.as_nanos()) {
            Some(n) => Some(Instant { nanos: n }),
            None => None,
        }
    }

    /// The time that passed from `earlier` to this moment, or None if `earlier` is later.
    pub fn checked_duration_since(&self, earlier: &Instant) -> (res: Option<Duration>)
        ensures
            match res {
                Some(d) => d@ == self@ - earlier@,
                None => self@ < earlier@,
            },
    {
        if self.nanos >= earlier.nanos {
            Some(Duration::from_nanos(self.nanos - earlier.nanos))
        } else {
            None
        }
    }

    /// Two moments are equal exactly when they lie equally far from the origin.
    pub proof fn lemma_view_injective(a: Instant, b: Instant)
        ensures
            (a@ == b@) <==> a == b,
    {
    }
}

} // verus!
