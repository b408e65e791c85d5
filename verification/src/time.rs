//! Time spans with nanosecond resolution and saturating arithmetic.

use vstd::prelude::*;

verus! {

/// Nanoseconds in one second.
pub const NANOS_PER_SEC: u128 = 1_000_000_000;

/// Nanoseconds in one millisecond.
pub const NANOS_PER_MILLI: u128 = 1_000_000;

/// The longest representable span: `u64::MAX` whole seconds plus 999_999_999 nanoseconds.
pub const MAX_NANOS: u128 = 18_446_744_073_709_551_615_999_999_999;

/// A span of time, exact to the nanosecond, bounded by [`MAX_NANOS`].
#[derive(Clone, Copy, Debug, PartialEq, Eq, Hash, PartialOrd, Ord)]
pub struct Duration {
    nanos: u128,
}

impl View for Duration {
    type V = nat;

    closed spec fn view(&self) -> nat {
        if self.nanos <= MAX_NANOS {
            self.nanos as nat
        } else {
            MAX_NANOS as nat
        }
    }
}

impl Duration {
    #[verifier::type_invariant]
    spec fn bounded(self) -> bool {
        self.nanos <= MAX_NANOS
    }

    /// Every span is at most [`MAX_NANOS`] long.
    pub proof fn lemma_bounded(self)
        ensures
            self@ <= MAX_NANOS,
    {
    }

    /// The empty span.
    pub fn zero() -> (d: Duration)
        ensures
            d@ == 0,
    {
        Duration { nanos: 0 }
    }

    /// A span of `secs` whole seconds.
    pub fn from_secs(secs: u64) -> (d: Duration)
        ensures
            d@ == secs * NANOS_PER_SEC,
    {
        assert(secs * NANOS_PER_SEC <= MAX_NANOS) by (nonlinear_arith)
            requires
                secs <= u64::MAX,
        ;
        Duration { nanos: secs as u128 * NANOS_PER_SEC }
    }

    /// A span of `millis` milliseconds.
    pub fn from_millis(millis: u64) -> (d: Duration)
        ensures
            d@ == millis * NANOS_PER_MILLI,
    {
        assert(millis * NANOS_PER_MILLI <= MAX_NANOS) by (nonlinear_arith)
            requires
                millis <= u64::MAX,
        ;
        Duration { nanos: millis as u128 * NANOS_PER_MILLI }
    }

    /// A span of `nanos` nanoseconds.
    pub fn from_nanos(nanos: u64) -> (d: Duration)
        ensures
            d@ == nanos,
    {
        Duration { nanos: nanos as u128 }
    }

    /// The span's length in nanoseconds.
    pub fn as_nanos(&self) -> (n: u128)
        ensures
            n == self@,
            n <= MAX_NANOS,
    {
        proof {
            use_type_invariant(self);
        }
        self.nanos
    }

    /// The span's length in whole milliseconds, rounded down.
    pub fn as_millis(&self) -> (n: u128)
        ensures
            n == self@ / NANOS_PER_MILLI as nat,
    {
        proof {
            use_type_invariant(self);
        }
        self.nanos / NANOS_PER_MILLI
    }

    /// `true` when the span is empty.
    pub fn is_zero(&self) -> (b: bool)
        ensures
            b == (self@ == 0),
    {
        proof {
            use_type_invariant(self);
        }
        self.nanos == 0
    }

    /// `self * rhs`, or the longest representable span when the product exceeds it.
    pub fn saturating_mul(self, rhs: u32) -> (d: Duration)
        ensures
            d@ == (if self@ * rhs > MAX_NANOS { MAX_NANOS as int } else { self@ * rhs }),
    {
        proof {
            use_type_invariant(&self);
            assert(self.nanos * rhs <= MAX_NANOS * u32::MAX) by (nonlinear_arith)
                requires
                    self.nanos <= MAX_NANOS,
                    rhs <= u32::MAX,
            ;
        }
        let product = self.nanos * rhs as u128;
        if product > MAX_NANOS {
            Duration { nanos: MAX_NANOS }
        } else {
            Duration { nanos: product }
        }
    }

    /// The shorter of the two spans.
    pub fn min(self, other: Duration) -> (d: Duration)
        ensures
            d@ == (if self@ <= other@ { self@ } else { other@ }),
    {
        proof {
            use_type_invariant(&self);
            use_type_invariant(&other);
        }
        if self.nanos <= other.nanos {
            self
        } else {
            other
        }
    }

    /// The longer of the two spans.
    pub fn max(self, other: Duration) -> (d: Duration)
        ensures
            d@ == (if self@ >= other@ { self@ } else { other@ }),
    {
        proof {
            use_type_invariant(&self);
            use_type_invariant(&other);
        }
        if self.nanos >= other.nanos {
            self
        } else {
            other
        }
    }

    /// `true` when `self` is strictly longer than `other`.
    pub fn exceeds(&self, other: &Duration) -> (b: bool)
        ensures
            b == (self@ > other@),
    {
        proof {
            use_type_invariant(self);
            use_type_invariant(other);
        }
        self.nanos > other.nanos
    }
}

/// When a scheduled task runs: once after a delay, or repeatedly at a period.
#[derive(Debug, Clone, Copy, PartialEq, Eq)]
pub enum TimerSchedule {
    Once { delay: Duration },
    Interval { period: Duration },
}

impl TimerSchedule {
    /// The period at which a repeating schedule ticks: its period, but never shorter than
    /// one millisecond; `None` for a one-shot schedule.
    pub fn tick_period(&self) -> (p: Option<Duration>)
        ensures
            match *self {
                TimerSchedule::Once { .. } => p is None,
                TimerSchedule::Interval { period } => p matches Some(d) && d@ == (if period@
                    >= NANOS_PER_MILLI {
                    period@
                } else {
                    NANOS_PER_MILLI as nat
                }),
            },
    {
        match self {
            TimerSchedule::Once { .. } => None,
            TimerSchedule::Interval { period } => Some(Duration::max(*period, Duration::from_millis(1))),
        }
    }
}

} // verus!
