//! Bit flags for the `flags` byte of an event.
use vstd::prelude::*;

verus! {

/// Trade aggressor was a seller.
pub const TAKER_SELL: u8 = 1;

/// Event was derived from a snapshot (vs incremental delta).
pub const FROM_SNAPSHOT: u8 = 2;

/// Event synthesized locally (e.g. from a REST poll), not venue-pushed.
pub const SYNTHETIC: u8 = 4;

} // verus!
