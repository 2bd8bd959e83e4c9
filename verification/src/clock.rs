//! Receive timestamps: process-monotonic ns (ordering, latency math) and
//! UNIX wall ns (cross-process alignment). Both are captured at socket read.
use std::time::{Duration, Instant, SystemTime};
use vstd::prelude::*;

verus! {

/// A reading of the monotonic clock.
#[verifier::external_type_specification]
#[verifier::external_body]
pub struct ExInstant(std::time::Instant);

/// A reading of the wall clock.
#[verifier::external_type_specification]
#[verifier::external_body]
pub struct ExSystemTime(std::time::SystemTime);

/// `Instant::now` reads the monotonic clock: nothing is known of the reading.
pub assume_specification[ Instant::now ]() -> Instant
;

/// `Instant::elapsed` is the time since the reading: it depends on the clock.
pub assume_specification[ Instant::elapsed ](at: &Instant) -> Duration
;

/// `Duration::as_nanos` counts the nanoseconds of a length of time, which is
/// opaque here.
pub assume_specification[ Duration::as_nanos ](d: &Duration) -> u128
;

/// `SystemTime::now` reads the wall clock: nothing is known of the reading.
pub assume_specification[ SystemTime::now ]() -> SystemTime
;

/// `SystemTime::duration_since` the UNIX epoch, and `None` for a reading from
/// before it.
#[verifier::external_body]
fn since_epoch(t: &SystemTime) -> (r: Option<Duration>) {
    t.duration_since(SystemTime::UNIX_EPOCH).ok()
}

/// A timestamp of so many nanoseconds, at most the last that there is.
pub open spec fn clamped(nanos: u128) -> u64 {
    if nanos > u64::MAX {
        u64::MAX
    } else {
        nanos as u64
    }
}

/// A timestamp of so many nanoseconds.
pub fn clamp_ns(nanos: u128) -> (r: u64)
    ensures
        r == clamped(nanos),
{
    if nanos > u64::MAX as u128 {
        u64::MAX
    } else {
        nanos as u64
    }
}

/// The process clock: monotonic timestamps count from its anchor.
#[derive(Debug, Clone, Copy)]
pub struct Clock {
    anchor: Instant,
}

/// Anchor the monotonic clock; call once at process start.
pub fn init() -> Clock {
    Clock { anchor: Instant::now() }
}

/// Nanoseconds since the process clock anchor (monotonic, never goes back).
/// Only comparable within one process run.
pub fn mono_ns(clock: &Clock) -> u64 {
    clamp_ns(clock.anchor.elapsed().as_nanos())
}

/// Nanoseconds since UNIX epoch (wall clock; can step under NTP); zero for a
/// clock that is set to before it. Which reading it is rests on the clock;
/// [`wall_stamp`] says what each reading comes to.
pub fn wall_ns() -> u64 {
    wall_stamp(
        match since_epoch(&SystemTime::now()) {
            Some(d) => Some(d.as_nanos()),
            None => None,
        },
    )
}

/// The wall timestamp of a reading so many nanoseconds after the UNIX epoch,
/// or of one from before it.
pub fn wall_stamp(nanos: Option<u128>) -> (r: u64)
    ensures
        r == match nanos {
            Some(n) => clamped(n),
            None => 0,
        },
{
    match nanos {
        Some(n) => clamp_ns(n),
        None => 0,
    }
}

} // verus!
