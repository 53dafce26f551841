//! Spans and points of the clock that drives a gate.
//!
//! The library never reads a clock: each step takes the instant at which it happens.

use vstd::prelude::*;

verus! {

pub const NANOS_PER_SEC: u64 = 1_000_000_000;

pub const NANOS_PER_MILLI: u64 = 1_000_000;

/// Nanoseconds of the longest span: `u64::MAX` seconds and 999,999,999 nanoseconds.
pub const MAX_SPAN_NANOS: u128 = 18_446_744_073_709_551_615_999_999_999;

/// A span of time in whole nanoseconds.
#[derive(Clone, Copy, Debug, PartialEq, Eq, Structural)]
pub struct Duration {
    pub nanos: u128,
}

/// A point of the policy gate's clock, in nanoseconds since the origin of that clock.
#[derive(Clone, Copy, Debug, PartialEq, Eq, Structural)]
pub struct Instant {
    pub nanos: u128,
}

/// The smaller of two integers.
pub open spec fn least(a: int, b: int) -> int {
    if a <= b {
        a
    } else {
        b
    }
}

/// `a - b`, or zero where that is negative.
pub open spec fn monus(a: int, b: int) -> int {
    if a >= b {
        a - b
    } else {
        0
    }
}

impl Duration {
    /// The empty span.
    pub fn zero() -> (span: Duration)
        ensures
            span.nanos == 0,
    {
        Duration { nanos: 0 }
    }

    /// The longest span.
    pub fn longest() -> (span: Duration)
        ensures
            span.nanos == MAX_SPAN_NANOS,
    {
        Duration { nanos: MAX_SPAN_NANOS }
    }

    pub fn from_secs(secs: u64) -> (span: Duration)
        ensures
            span.nanos == secs * NANOS_PER_SEC,
            span.nanos <= MAX_SPAN_NANOS,
    {
        Duration { nanos: secs as u128 * 1_000_000_000u128 }
    }

    pub fn from_millis(millis: u64) -> (span: Duration)
        ensures
            span.nanos == millis * NANOS_PER_MILLI,
            span.nanos <= MAX_SPAN_NANOS,
    {
        Duration { nanos: millis as u128 * 1_000_000u128 }
    }

    pub fn from_nanos(nanos: u128) -> (span: Duration)
        ensures
            span.nanos == nanos,
    {
        Duration { nanos }
    }

    pub fn as_nanos(&self) -> (nanos: u128)
        ensures
            nanos == self.nanos,
    {
        self.nanos
    }

    /// Whole seconds of this span, or `u64::MAX` where they need more bits.
    pub fn as_secs(&self) -> (secs: u64)
        ensures
            secs == least(self.nanos as int / NANOS_PER_SEC as int, u64::MAX as int),
    {
        let secs: u128 = self.nanos / 1_000_000_000;
        if secs <= 0xffff_ffff_ffff_ffffu128 {
            secs as u64
        } else {
            u64::MAX
        }
    }

    /// Nanoseconds of this span beyond its whole seconds.
    pub fn subsec_nanos(&self) -> (nanos: u32)
        ensures
            nanos == self.nanos as int % NANOS_PER_SEC as int,
            nanos < NANOS_PER_SEC,
    {
        (self.nanos % 1_000_000_000) as u32
    }

    pub fn is_zero(&self) -> (zero: bool)
        ensures
            zero == (self.nanos == 0),
    {
        self.nanos == 0
    }

    /// Twice this span, or the longest span where that is shorter.
    pub fn saturating_double(&self) -> (span: Duration)
        ensures
            span.nanos == least(2 * self.nanos, MAX_SPAN_NANOS as int),
    {
        if self.nanos > MAX_SPAN_NANOS / 2 {
            Duration { nanos: MAX_SPAN_NANOS }
        } else {
            Duration { nanos: self.nanos * 2 }
        }
    }

    /// The shorter of two spans.
    pub fn at_most(&self, limit: Duration) -> (span: Duration)
        ensures
            span.nanos == least(self.nanos as int, limit.nanos as int),
    {
        if self.nanos <= limit.nanos {
            *self
        } else {
            limit
        }
    }

    /// Nanoseconds of this span, or `u64::MAX` where they need more bits.
    pub fn clamped_nanos(&self) -> (nanos: u64)
        ensures
            nanos == least(self.nanos as int, u64::MAX as int),
    {
        if self.nanos <= 0xffff_ffff_ffff_ffffu128 {
            self.nanos as u64
        } else {
            u64::MAX
        }
    }
}

impl Instant {
    pub fn from_nanos(nanos: u128) -> (instant: Instant)
        ensures
            instant.nanos == nanos,
    {
        Instant { nanos }
    }

    /// The last instant that can be written down.
    pub fn last() -> (instant: Instant)
        ensures
            instant.nanos == u128::MAX,
    {
        Instant { nanos: u128::MAX }
    }

    /// The instant `span` later, unless it lies beyond the `end` of the clock.
    pub fn checked_add(&self, span: Duration, end: Instant) -> (later: Option<Instant>)
        ensures
            match later {
                Some(later) => later.nanos == self.nanos + span.nanos && later.nanos <= end.nanos,
                None => self.nanos + span.nanos > end.nanos,
            },
    {
        if self.nanos > end.nanos || span.nanos > end.nanos - self.nanos {
            None
        } else {
            Some(Instant { nanos: self.nanos + span.nanos })
        }
    }

    /// Time elapsed since `earlier`, or zero where `earlier` lies ahead.
    pub fn saturating_duration_since(&self, earlier: Instant) -> (span: Duration)
        ensures
            span.nanos == monus(self.nanos as int, earlier.nanos as int),
    {
        if self.nanos >= earlier.nanos {
            Duration { nanos: self.nanos - earlier.nanos }
        } else {
            Duration { nanos: 0 }
        }
    }
}

/// The earlier of two instants that may be missing.
pub open spec fn spec_earlier(current: Option<Instant>, candidate: Option<Instant>) -> Option<
    Instant,
> {
    match (current, candidate) {
        (Some(current), Some(candidate)) => if current.nanos <= candidate.nanos {
            Some(current)
        } else {
            Some(candidate)
        },
        (Some(current), None) => Some(current),
        (None, candidate) => candidate,
    }
}

/// Returns the earlier of two instants that may be missing.
pub fn earlier(current: Option<Instant>, candidate: Option<Instant>) -> (first: Option<Instant>)
    ensures
        first == spec_earlier(current, candidate),
{
    match (current, candidate) {
        (Some(current), Some(candidate)) => if current.nanos <= candidate.nanos {
            Some(current)
        } else {
            Some(candidate)
        },
        (Some(current), None) => Some(current),
        (None, candidate) => candidate,
    }
}

/// Error returned when a deadline elapses.
#[derive(Clone, Copy, Debug, PartialEq, Eq, Structural)]
pub struct TimeoutElapsed;

impl TimeoutElapsed {
    /// Describes this error in one sentence.
    pub fn message(&self) -> (message: &'static str)
        ensures
            message@ == "deadline elapsed"@,
    {
        "deadline elapsed"
    }
}

/// Selects the Tokio clock.
#[derive(Clone, Copy, Debug, Default)]
pub struct TokioTimeDriver;

/// Returns how a wait that is bounded by a deadline stands after a poll. Once the deadline has come
/// the timeout wins, whatever the wait has brought; `None` goes on waiting.
pub fn resolve_timeout<T>(elapsed: bool, output: Option<T>) -> (resolved: Option<
    Result<T, TimeoutElapsed>,
>)
    ensures
        resolved == if elapsed {
            Some(Err::<T, TimeoutElapsed>(TimeoutElapsed))
        } else {
            match output {
                Some(output) => Some(Ok::<T, TimeoutElapsed>(output)),
                None => None,
            }
        },
{
    if elapsed {
        return Some(Err(TimeoutElapsed));
    }
    match output {
        Some(output) => Some(Ok(output)),
        None => None,
    }
}

} // verus!
