//! The venue codec contract: raw WS text frame -> [`Event`]s.
//!
//! Every venue implements [`VenueCodec`] twice over the same semantics:
//! `parse` is the hand-rolled fast path; `parse_slow` is the JSON reference
//! implementation. `parse_slow` is simultaneously (a) the fallback when
//! `parse` meets an unexpected shape, (b) the differential-testing oracle,
//! and (c) the naive baseline that the benchmarks compare against.
use crate::event::{Event, Venue};
use crate::fixed;
use crate::fixed::{parse_fixed, ParseFixedError};
use crate::text;
use vstd::prelude::*;
use vstd::utf8::*;

verus! {

/// Non-error outcome of parsing one frame.
#[derive(Debug, Clone, Copy, PartialEq, Eq, Structural)]
pub enum Signal {
    /// Events were (possibly) emitted; nothing else to do.
    Nothing,
    /// Control-plane message (subscription ack, status, pong); no events.
    Control,
    /// Message type this codec intentionally ignores.
    Ignored,
    /// Sequence break detected. Events (a Gap marker) were emitted; the
    /// connection layer must trigger this venue's documented resync
    /// procedure for `instrument`.
    NeedResync {
        /// Instrument that lost sync.
        instrument: u32,
    },
    /// The venue is about to close this connection; the connection layer
    /// should reconnect as soon as possible. No events.
    Reconnect,
}

/// Parse failure. The connection layer's policy on `Structure` errors from
/// the fast path is: retry the same payload via `parse_slow` (counting a
/// fallback); if that also fails, count a parse error and log the payload.
#[derive(Debug, Clone, Copy)]
pub enum CodecError {
    /// Payload didn't match the expected JSON shape.
    Structure(&'static str),
    /// A price/qty token failed exact fixed-point conversion.
    Fixed(ParseFixedError),
    /// Message referenced a symbol we didn't subscribe to.
    UnknownInstrument,
}

impl CodecError {
    /// The message of this error.
    pub open spec fn message_spec(self) -> Seq<char> {
        match self {
            CodecError::Structure(s) => "json structure: "@ + s@,
            CodecError::Fixed(e) => "fixed-point: "@ + e.message_spec(),
            CodecError::UnknownInstrument => "unknown instrument"@,
        }
    }

    /// The message of this error, for logs.
    pub fn message(&self) -> (r: String)
        ensures
            r@ == self.message_spec(),
    {
        match self {
            CodecError::Structure(s) => "json structure: ".to_owned().concat(s),
            CodecError::Fixed(e) => "fixed-point: ".to_owned().concat(e.message()),
            CodecError::UnknownInstrument => "unknown instrument".to_owned(),
        }
    }
}

/// Steady-state counters, read by the capture stats emitter. They wrap.
#[derive(Debug, Clone, Copy, PartialEq, Eq, Structural)]
pub struct CodecStats {
    /// Frames parsed by the fast path.
    pub fast_msgs: u64,
    /// Frames that fell back to `parse_slow` after a fast-path Structure error.
    pub fallbacks: u64,
    /// Frames neither path could parse.
    pub errors: u64,
    /// Sequence gaps detected.
    pub gaps: u64,
    /// Events emitted.
    pub events: u64,
}

impl CodecStats {
    /// Nothing counted yet.
    pub open spec fn zero() -> CodecStats {
        CodecStats { fast_msgs: 0, fallbacks: 0, errors: 0, gaps: 0, events: 0 }
    }

    /// With the given frames, gaps and events on top.
    pub open spec fn plus(self, fast_msgs: u64, gaps: u64, events: u64) -> CodecStats {
        CodecStats {
            fast_msgs: self.fast_msgs.wrapping_add(fast_msgs),
            gaps: self.gaps.wrapping_add(gaps),
            events: self.events.wrapping_add(events),
            ..self
        }
    }

    /// Count frames, gaps and events.
    pub fn count(&mut self, fast_msgs: u64, gaps: u64, events: u64)
        ensures
            *final(self) == old(self).plus(fast_msgs, gaps, events),
    {
        self.fast_msgs = self.fast_msgs.wrapping_add(fast_msgs);
        self.gaps = self.gaps.wrapping_add(gaps);
        self.events = self.events.wrapping_add(events);
    }
}

impl Default for CodecStats {
    fn default() -> (r: Self)
        ensures
            r == CodecStats::zero(),
    {
        CodecStats { fast_msgs: 0, fallbacks: 0, errors: 0, gaps: 0, events: 0 }
    }
}

/// The bytes of a string literal.
pub open spec fn lit(s: &str) -> Seq<u8> {
    encode_utf8(s@)
}

/// The price and quantity of two decimal tokens, if both are exact.
pub open spec fn fixed_pair_spec(p: Seq<u8>, q: Seq<u8>) -> Result<(i64, i64), CodecError> {
    match (fixed::parse_fixed_spec(p), fixed::parse_fixed_spec(q)) {
        (Err(e), _) => Err(CodecError::Fixed(e)),
        (_, Err(e)) => Err(CodecError::Fixed(e)),
        (Ok(p), Ok(q)) => Ok((p, q)),
    }
}

/// The price and quantity of two decimal tokens.
pub fn fixed_pair(p: &[u8], q: &[u8]) -> (r: Result<(i64, i64), CodecError>)
    ensures
        r == fixed_pair_spec(p@, q@),
{
    match parse_fixed(p) {
        Err(e) => Err(CodecError::Fixed(e)),
        Ok(price) => match parse_fixed(q) {
            Err(e) => Err(CodecError::Fixed(e)),
            Ok(qty) => Ok((price, qty)),
        },
    }
}

/// What parsing one frame comes to: a signal and the events to append, or an
/// error.
pub type Outcome = Result<(Signal, Seq<Event>), CodecError>;

/// `r` and the buffer `after` are what an outcome makes of the buffer
/// `before`: on success the events are appended, on an error nothing is.
pub open spec fn delivers(
    o: Outcome,
    before: Seq<Event>,
    after: Seq<Event>,
    r: Result<Signal, CodecError>,
) -> bool {
    match o {
        Ok(x) => r == Ok::<Signal, CodecError>(x.0) && after == before + x.1,
        Err(e) => r == Err::<Signal, CodecError>(e) && after == before,
    }
}

/// What an outcome appends to a buffer does not depend on the buffer.
pub proof fn lemma_delivered_alike(
    o: Outcome,
    before: Seq<Event>,
    after: Seq<Event>,
    r: Result<Signal, CodecError>,
)
    requires
        delivers(o, before, after, r),
    ensures
        after.skip(before.len() as int) == (match o {
            Ok(x) => x.1,
            Err(_) => Seq::empty(),
        }),
{
    match o {
        Ok(x) => {
            assert((before + x.1).skip(before.len() as int) =~= x.1);
        },
        Err(_) => {
            assert(before.skip(before.len() as int) =~= Seq::empty());
        },
    }
}

/// A per-venue streaming codec. Implementations are stateful (per-symbol
/// sequence tracking) and single-connection: create one codec per WS
/// connection, and a fresh one after a reconnect.
pub trait VenueCodec: Sized {
    /// The codec is in a state that its constructor and methods leave. An
    /// implementation that says nothing more may be in any state.
    open spec fn wf(&self) -> bool {
        true
    }

    /// `parse` may take the codec `self` to `post`, returning `r` and leaving
    /// `after` of the buffer `before`. An implementation that says nothing more
    /// may do anything.
    open spec fn may_parse(
        &self,
        payload: Seq<u8>,
        recv_mono_ns: u64,
        recv_wall_ns: u64,
        before: Seq<Event>,
        post: Self,
        after: Seq<Event>,
        r: Result<Signal, CodecError>,
    ) -> bool {
        true
    }

    /// `parse_slow` may do the same.
    open spec fn may_parse_slow(
        &self,
        payload: Seq<u8>,
        recv_mono_ns: u64,
        recv_wall_ns: u64,
        before: Seq<Event>,
        post: Self,
        after: Seq<Event>,
        r: Result<Signal, CodecError>,
    ) -> bool {
        true
    }

    /// `parse_rest_snapshot` may do the same.
    open spec fn may_parse_rest(
        &self,
        instrument: u32,
        body: Seq<u8>,
        recv_mono_ns: u64,
        recv_wall_ns: u64,
        before: Seq<Event>,
        post: Self,
        after: Seq<Event>,
        r: Result<Signal, CodecError>,
    ) -> bool {
        true
    }

    /// Which venue this codec speaks.
    fn venue(&self) -> Venue;

    /// WebSocket URL to connect to (may encode the subscription, e.g.
    /// Binance combined streams).
    fn ws_url(&self) -> String;

    /// Messages to send after connect to subscribe (empty if URL-encoded).
    fn subscribe_messages(&self) -> Vec<String>;

    /// Hand-rolled fast parse. Appends events to `out` and returns a
    /// [`Signal`].
    fn parse(
        &mut self,
        payload: &[u8],
        recv_mono_ns: u64,
        recv_wall_ns: u64,
        out: &mut Vec<Event>,
    ) -> (r: Result<Signal, CodecError>)
        requires
            old(self).wf(),
        ensures
            final(self).wf(),
            old(out)@.is_prefix_of(final(out)@),
            old(self).may_parse(
                payload@,
                recv_mono_ns,
                recv_wall_ns,
                old(out)@,
                *final(self),
                final(out)@,
                r,
            ),
    ;

    /// Reference parse with identical semantics and event output.
    fn parse_slow(
        &mut self,
        payload: &[u8],
        recv_mono_ns: u64,
        recv_wall_ns: u64,
        out: &mut Vec<Event>,
    ) -> (r: Result<Signal, CodecError>)
        requires
            old(self).wf(),
        ensures
            final(self).wf(),
            old(out)@.is_prefix_of(final(out)@),
            old(self).may_parse_slow(
                payload@,
                recv_mono_ns,
                recv_wall_ns,
                old(out)@,
                *final(self),
                final(out)@,
                r,
            ),
    ;

    /// Parse a REST book-snapshot body (venues that resync via REST).
    /// Emits SnapBegin / SnapBid / SnapAsk / SnapEnd events. `instrument`
    /// is passed by the caller because REST bodies don't self-identify
    /// (neither Coinbase's `/book` nor Binance's `/depth` echo the symbol).
    fn parse_rest_snapshot(
        &mut self,
        instrument: u32,
        body: &[u8],
        recv_mono_ns: u64,
        recv_wall_ns: u64,
        out: &mut Vec<Event>,
    ) -> (r: Result<Signal, CodecError>)
        requires
            old(self).wf(),
        ensures
            final(self).wf(),
            old(out)@.is_prefix_of(final(out)@),
            old(self).may_parse_rest(
                instrument,
                body@,
                recv_mono_ns,
                recv_wall_ns,
                old(out)@,
                *final(self),
                final(out)@,
                r,
            ),
    ;

    /// Steady-state counters.
    fn stats(&self) -> &CodecStats;
}

/// Small fixed symbol table: venue symbol bytes -> instrument id, allocation-
/// free lookup (linear over a handful of subscribed symbols).
#[derive(Debug, Clone)]
pub struct SymbolTable {
    entries: Vec<(String, u32)>,
}

/// The id of the first entry of `t` for `sym`.
pub open spec fn lookup_in(t: Seq<(Seq<u8>, u32)>, sym: Seq<u8>) -> Option<u32>
    decreases t.len(),
{
    if t.len() == 0 {
        None
    } else if t[0].0 == sym {
        Some(t[0].1)
    } else {
        lookup_in(t.drop_first(), sym)
    }
}

impl View for SymbolTable {
    type V = Seq<(Seq<u8>, u32)>;

    closed spec fn view(&self) -> Seq<(Seq<u8>, u32)> {
        self.entries@.map_values(|e: (String, u32)| (encode_utf8(e.0@), e.1))
    }
}

impl Default for SymbolTable {
    fn default() -> (r: Self)
        ensures
            r@ == Seq::<(Seq<u8>, u32)>::empty(),
    {
        let r = SymbolTable { entries: Vec::new() };
        assert(r@ =~= Seq::<(Seq<u8>, u32)>::empty());
        r
    }
}

impl SymbolTable {
    /// Build from (venue_symbol, instrument_id) pairs.
    pub fn new(pairs: Vec<(String, u32)>) -> (r: Self)
        ensures
            r@ == pairs@.map_values(|p: (String, u32)| (encode_utf8(p.0@), p.1)),
    {
        let r = SymbolTable { entries: pairs };
        assert(r@ =~= pairs@.map_values(|p: (String, u32)| (encode_utf8(p.0@), p.1)));
        r
    }

    /// Look up a symbol token (exact bytes).
    pub fn lookup(&self, sym: &[u8]) -> (r: Option<u32>)
        ensures
            r == lookup_in(self@, sym@),
    {
        let mut i: usize = 0;
        assert(self@.skip(0) =~= self@);
        while i < self.entries.len()
            invariant
                i <= self.entries.len(),
                self@.len() == self.entries@.len(),
                lookup_in(self@, sym@) == lookup_in(self@.skip(i as int), sym@),
            decreases self.entries.len() - i,
        {
            let e: &(String, u32) = &self.entries[i];
            assert(self@.skip(i as int)[0] == (encode_utf8(e.0@), e.1));
            if text::same_bytes(e.0.as_str().as_bytes(), sym) {
                return Some(e.1);
            }
            assert(self@.skip(i as int).drop_first() =~= self@.skip(i + 1));
            i += 1;
        }
        None
    }

    /// Number of symbols.
    pub fn len(&self) -> (r: usize)
        ensures
            r == self@.len(),
    {
        self.entries.len()
    }

    /// True if empty.
    pub fn is_empty(&self) -> (r: bool)
        ensures
            r == (self@.len() == 0),
    {
        self.entries.len() == 0
    }

    /// The symbol of the entry `i`.
    pub(crate) fn symbol(&self, i: usize) -> (r: &str)
        requires
            i < self@.len(),
        ensures
            encode_utf8(r@) == self@[i as int].0,
    {
        self.entries[i].0.as_str()
    }

    /// The (symbol, id) pairs, in table order.
    pub fn iter(&self) -> (r: Vec<(&[u8], u32)>)
        ensures
            r@.len() == self@.len(),
            forall|i: int|
                0 <= i < r@.len() ==> (#[trigger] r@[i]).0@ == self@[i].0 && r@[i].1 == self@[i].1,
    {
        let mut out: Vec<(&[u8], u32)> = Vec::new();
        let mut i: usize = 0;
        while i < self.entries.len()
            invariant
                i <= self.entries.len(),
                self@.len() == self.entries@.len(),
                out@.len() == i,
                forall|k: int|
                    0 <= k < i ==> (#[trigger] out@[k]).0@ == self@[k].0 && out@[k].1 == self@[k].1,
            decreases self.entries.len() - i,
        {
            out.push((self.entries[i].0.as_str().as_bytes(), self.entries[i].1));
            i += 1;
        }
        out
    }
}

} // verus!
