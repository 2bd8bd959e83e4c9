//! Record kinds of a raw log.
use vstd::prelude::*;

verus! {

/// A WebSocket text frame payload, verbatim.
pub const WS_TEXT: u8 = 1;

/// A WebSocket binary frame payload, verbatim.
pub const WS_BINARY: u8 = 2;

/// A REST book-snapshot response body (JSON), verbatim.
pub const REST_SNAPSHOT: u8 = 3;

/// Operational note (JSON): connects, disconnects, gaps, subscribe acks.
pub const NOTE: u8 = 4;

} // verus!
