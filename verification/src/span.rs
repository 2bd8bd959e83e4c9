//! Lengths of time, in whole nanoseconds.
use vstd::prelude::*;

verus! {

/// A length of time.
#[derive(Debug, Clone, Copy, PartialEq, Eq, PartialOrd, Ord, Structural)]
pub struct Span {
    /// Its nanoseconds.
    pub nanos: u128,
}

/// The instant `at` (in nanoseconds) and `nanos` later, at most the last
/// instant that there is.
pub open spec fn later_spec(at: u64, nanos: u128) -> u64 {
    if at + nanos > u64::MAX {
        u64::MAX
    } else {
        (at + nanos) as u64
    }
}

impl Span {
    /// No time at all.
    pub fn zero() -> (r: Span)
        ensures
            r.nanos == 0,
    {
        Span { nanos: 0 }
    }

    /// Whole seconds.
    pub fn from_secs(secs: u64) -> (r: Span)
        ensures
            r.nanos == secs * 1_000_000_000,
    {
        Span { nanos: secs as u128 * 1_000_000_000 }
    }

    /// Milliseconds.
    pub fn from_millis(millis: u64) -> (r: Span)
        ensures
            r.nanos == millis * 1_000_000,
    {
        Span { nanos: millis as u128 * 1_000_000 }
    }

    /// Nanoseconds.
    pub fn from_nanos(nanos: u64) -> (r: Span)
        ensures
            r.nanos == nanos,
    {
        Span { nanos: nanos as u128 }
    }

    /// The instant this much after `at`.
    pub fn after(self, at: u64) -> (r: u64)
        ensures
            r == later_spec(at, self.nanos),
    {
        if self.nanos > (u64::MAX - at) as u128 {
            u64::MAX
        } else {
            at + self.nanos as u64
        }
    }
}

} // verus!
