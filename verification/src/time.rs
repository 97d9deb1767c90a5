//! Spans of time, measured in whole nanoseconds.

use vstd::prelude::*;

verus! {

/// Nanoseconds in one second.
pub const NANOS_PER_SECOND: u128 = 1_000_000_000;

/// Nanoseconds in one millisecond.
pub const NANOS_PER_MILLISECOND: u128 = 1_000_000;

/// The longest representable span: `u64::MAX` seconds and just short of one
/// second more.
pub const MAX_NANOS: u128 = 18_446_744_073_709_551_615_999_999_999;

/// A non-negative span of time.
#[derive(Clone, Copy, Debug, PartialEq, Eq, Structural)]
pub struct Duration {
    pub nanos: u128,
}

impl Duration {
    /// The empty span.
    pub fn zero() -> (span: Duration)
        ensures
            span.nanos == 0,
    {
        Duration { nanos: 0 }
    }

    /// Whether the span is one that the platform's clock can name.
    pub open spec fn valid(self) -> bool {
        self.nanos <= MAX_NANOS
    }

    pub fn from_secs(seconds: u64) -> (span: Duration)
        ensures
            span.nanos == seconds * NANOS_PER_SECOND,
            span.valid(),
    {
        Duration { nanos: seconds as u128 * NANOS_PER_SECOND }
    }

    pub fn from_millis(millis: u64) -> (span: Duration)
        ensures
            span.nanos == millis * NANOS_PER_MILLISECOND,
            span.valid(),
    {
        Duration { nanos: millis as u128 * NANOS_PER_MILLISECOND }
    }

    /// The sum of two spans.
    pub fn plus(self, other: Duration) -> (span: Duration)
        requires
            self.nanos + other.nanos <= MAX_NANOS,
        ensures
            span.nanos == self.nanos + other.nanos,
    {
        Duration { nanos: self.nanos + other.nanos }
    }

    /// Whether `self` is at least as long as `other`.
    pub fn reached(self, other: Duration) -> (r: bool)
        ensures
            r == (self.nanos >= other.nanos),
    {
        self.nanos >= other.nanos
    }
}

} // verus!
