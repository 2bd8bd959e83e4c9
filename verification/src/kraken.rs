//! Kraken spot WebSocket v2 codec.
//!
//! Channels: `book` (snapshot + update; every book message carries a CRC32
//! checksum over the top-10 levels, see [`crate::kraken_crc`]) and `trade`.
//! Control plane: `status`, method acks, `heartbeat`.
//!
//! Kraken v2 has no per-message sequence numbers; book integrity is
//! guaranteed by the per-message checksum. A mismatch (detected downstream
//! by the book engine) is repaired by re-subscribing, so this codec never
//! emits `Gap` events and there is no REST resync path.
//!
//! Prices and quantities arrive as JSON *number* tokens (e.g. `63501.6`,
//! `0.00005100` - Kraken emits trailing zeros). Both paths hand the raw
//! token bytes to [`crate::fixed::parse_fixed`]; nothing ever goes through a
//! float. The slow path pre-quotes the `"price":`/`"qty":` number tokens (a
//! pure textual transform), so that the JSON parser hands the untouched token
//! back as a string.
pub mod frame;
pub mod pairs;
pub mod slow;
pub mod space;
pub mod trade_wire;
pub mod wire;

use crate::codec;
use crate::codec::{CodecError, CodecStats, Signal, SymbolTable, VenueCodec};
use crate::emit;
use crate::emit::Stamp;
use crate::event::{flags, Event, EventKind, Venue};
use crate::json;
use crate::json::{parse_json, quote_json, Json};
use crate::scan;
use crate::scan::{parse_rfc3339_ns, Cursor};
use crate::text;
use memchr::memmem::Finder;
use slow::Route;
use vstd::prelude::*;
use vstd::string::*;
use vstd::utf8::*;

verus! {

/// Kraken spot v2 codec. One instance per WS connection.
#[derive(Debug)]
pub struct KrakenCodec {
    table: SymbolTable,
    stats: CodecStats,
    f_type: Finder<'static>,
    f_data: Finder<'static>,
    f_symbol: Finder<'static>,
}

/// Step on in a JSON list: true behind its closing bracket, false at its next
/// item.
fn list_next(c: &mut Cursor<'_>, first: bool, separator: &'static str) -> (r: Result<
    bool,
    CodecError,
>)
    requires
        old(c).wf(),
    ensures
        final(c).wf(),
        final(c).bytes() == old(c).bytes(),
        match frame::list_at(old(c).bytes(), old(c).at(), first, separator) {
            Ok(x) => r == Ok::<bool, CodecError>(x.0) && final(c).at() == x.1,
            Err(e) => r == Err::<bool, CodecError>(e),
        },
{
    proof {
        scan::lemma_ws_end(c.bytes(), c.at());
    }
    c.skip_ws();
    if c.eat(0x5d) {
        return Ok(true);
    }
    if !first && !c.eat(0x2c) {
        return Err(CodecError::Structure(separator));
    }
    c.skip_ws();
    Ok(false)
}

/// One level (cursor at its opening brace).
fn fast_level(c: &mut Cursor<'_>) -> (r: Result<(i64, i64), CodecError>)
    requires
        old(c).wf(),
    ensures
        final(c).wf(),
        final(c).bytes() == old(c).bytes(),
        match frame::level_at(old(c).bytes(), old(c).at()) {
            Ok(x) => r == Ok::<(i64, i64), CodecError>(x.0) && final(c).at() == x.1,
            Err(e) => r == Err::<(i64, i64), CodecError>(e),
        },
{
    if !c.eat_lit("{\"price\":".as_bytes()) {
        return Err(CodecError::Structure("level price"));
    }
    let p: &[u8] = match c.read_number() {
        Some(p) => p,
        None => {
            return Err(CodecError::Structure("price token"));
        },
    };
    if !c.eat_lit(",\"qty\":".as_bytes()) {
        return Err(CodecError::Structure("level qty"));
    }
    let q: &[u8] = match c.read_number() {
        Some(q) => q,
        None => {
            return Err(CodecError::Structure("qty token"));
        },
    };
    if !c.eat(0x7d) {
        return Err(CodecError::Structure("level end"));
    }
    codec::fixed_pair(p, q)
}

/// One `[{"price":N,"qty":N},...]` levels array (cursor just past `[`).
/// Appends one event per level and returns the level count.
fn fast_levels(c: &mut Cursor<'_>, stamp: Stamp, kind: EventKind, out: &mut Vec<Event>) -> (r:
    Result<u64, CodecError>)
    requires
        old(c).wf(),
    ensures
        final(c).wf(),
        final(c).bytes() == old(c).bytes(),
        old(out)@.is_prefix_of(final(out)@),
        match frame::levels_at(old(c).bytes(), old(c).at(), Seq::empty()) {
            Ok(x) => r matches Ok(n) && n == x.0.len() && final(c).at() == x.1 && final(out)@
                == old(out)@ + emit::level_events(stamp, kind, x.0),
            Err(e) => r == Err::<u64, CodecError>(e),
        },
{
    let ghost b = c.bytes();
    let ghost i0 = c.at();
    let ghost mut acc: Seq<(i64, i64)> = Seq::empty();
    let mut n: u64 = 0;
    assert(out@ =~= old(out)@ + emit::level_events(stamp, kind, acc));
    loop
        invariant
            c.wf(),
            c.bytes() == b,
            b == old(c).bytes(),
            i0 == old(c).at(),
            n == acc.len(),
            n <= c.at(),
            out@ == old(out)@ + emit::level_events(stamp, kind, acc),
            frame::levels_at(b, c.at(), acc) == frame::levels_at(b, i0, Seq::empty()),
        decreases b.len() - c.at(),
    {
        proof {
            frame::lemma_list_at(b, c.at(), n == 0, "level separator");
        }
        match list_next(c, n == 0, "level separator") {
            Err(e) => {
                return Err(e);
            },
            Ok(true) => {
                return Ok(n);
            },
            Ok(false) => {},
        }
        proof {
            frame::lemma_level_at(b, c.at());
        }
        let l: (i64, i64) = match fast_level(c) {
            Err(e) => {
                return Err(e);
            },
            Ok(l) => l,
        };
        out.push(stamp.ev(kind, l.0, l.1, 0));
        proof {
            emit::lemma_level_events_push(stamp, kind, acc, l);
            assert(out@ =~= old(out)@ + emit::level_events(stamp, kind, acc.push(l)));
            acc = acc.push(l);
        }
        n += 1;
    }
}

/// Read `"type":"snapshot"|"update"`; true for snapshot.
fn fast_msg_type(c: &mut Cursor<'_>, f_type: &Finder<'static>) -> (r: Result<bool, CodecError>)
    requires
        old(c).wf(),
        scan::finder_needle(*f_type) == codec::lit("\"type\":"),
    ensures
        final(c).wf(),
        final(c).bytes() == old(c).bytes(),
        match frame::type_at(old(c).bytes(), old(c).at()) {
            Ok(x) => r == Ok::<bool, CodecError>(x.0) && final(c).at() == x.1,
            Err(e) => r == Err::<bool, CodecError>(e),
        },
{
    if c.skip_past_finder(f_type).is_none() {
        return Err(CodecError::Structure("msg type"));
    }
    match c.read_string() {
        Some(s) => if text::same_bytes(s, "snapshot".as_bytes()) {
            Ok(true)
        } else if text::same_bytes(s, "update".as_bytes()) {
            Ok(false)
        } else {
            Err(CodecError::Structure("msg type value"))
        },
        None => Err(CodecError::Structure("msg type value")),
    }
}

/// The checksum and the timestamp of a book entry, up to and with its
/// closing brace. The timestamp is `None` where there is none or, in a
/// snapshot, where it was skipped.
fn fast_entry_tail(c: &mut Cursor<'_>, snapshot: bool) -> (r: Result<
    (u64, Option<u64>),
    CodecError,
>)
    requires
        old(c).wf(),
    ensures
        final(c).wf(),
        final(c).bytes() == old(c).bytes(),
        forall|instrument: u32, bids: Seq<(i64, i64)>, asks: Seq<(i64, i64)>|
            match #[trigger] frame::entry_tail_at(
                old(c).bytes(),
                old(c).at(),
                instrument,
                snapshot,
                bids,
                asks,
            ) {
                Ok(x) => r matches Ok(y) && y.0 == x.0.checksum && (snapshot ==> y.1 is None) && (
                !snapshot ==> y.1 == Some(x.0.ts)) && final(c).at() == x.1 && x.0
                    == (frame::BookEntry {
                    instrument,
                    bids,
                    asks,
                    checksum: x.0.checksum,
                    ts: x.0.ts,
                }),
                Err(e) => r == Err::<(u64, Option<u64>), CodecError>(e),
            },
{
    if !c.eat_lit(",\"checksum\":".as_bytes()) {
        return Err(CodecError::Structure("book checksum"));
    }
    let checksum: u64 = match c.read_u64() {
        Some(v) => v,
        None => {
            return Err(CodecError::Structure("book checksum value"));
        },
    };
    // Optional trailing timestamp (updates always carry one; some snapshot
    // captures do too - for snapshots it is skipped and the venue timestamp
    // stays 0, matching the convention).
    let mut venue_ts: Option<u64> = None;
    if c.eat_lit(",\"timestamp\":".as_bytes()) {
        let ts: &[u8] = match c.read_string() {
            Some(s) => s,
            None => {
                return Err(CodecError::Structure("book timestamp"));
            },
        };
        if !snapshot {
            venue_ts = parse_rfc3339_ns(ts);
            if venue_ts.is_none() {
                return Err(CodecError::Structure("bad timestamp"));
            }
        }
    }
    c.skip_ws();
    if !c.eat(0x7d) {
        return Err(CodecError::Structure("book entry end"));
    }
    if !snapshot && venue_ts.is_none() {
        return Err(CodecError::Structure("update missing timestamp"));
    }
    Ok((checksum, venue_ts))
}

/// The bids and the asks of a book entry (cursor just past its symbol).
/// Appends one event per level and returns the level count.
fn fast_sides(
    c: &mut Cursor<'_>,
    stamp: Stamp,
    bid_kind: EventKind,
    ask_kind: EventKind,
    out: &mut Vec<Event>,
) -> (r: Result<u64, CodecError>)
    requires
        old(c).wf(),
    ensures
        final(c).wf(),
        final(c).bytes() == old(c).bytes(),
        old(out)@.is_prefix_of(final(out)@),
        match frame::sides_at(old(c).bytes(), old(c).at()) {
            Ok(x) => r matches Ok(n) && n == x.0.len() + x.1.len() && final(c).at() == x.2
                && final(out)@ == old(out)@ + emit::level_events(stamp, bid_kind, x.0)
                + emit::level_events(stamp, ask_kind, x.1),
            Err(e) => r == Err::<u64, CodecError>(e),
        },
{
    proof {
        frame::lemma_sides_at(c.bytes(), c.at());
    }
    if !c.eat_lit(",\"bids\":[".as_bytes()) {
        return Err(CodecError::Structure("book bids"));
    }
    let nb: u64 = match fast_levels(c, stamp, bid_kind, out) {
        Ok(n) => n,
        Err(e) => {
            return Err(e);
        },
    };
    if !c.eat_lit(",\"asks\":[".as_bytes()) {
        return Err(CodecError::Structure("book asks"));
    }
    match fast_levels(c, stamp, ask_kind, out) {
        Ok(na) => Ok(nb + na),
        Err(e) => Err(e),
    }
}

/// Put the venue timestamp on the events of `out` from `first` on.
fn restamp(out: &mut Vec<Event>, first: usize, ts: u64)
    requires
        first <= old(out)@.len(),
    ensures
        final(out)@.len() == old(out)@.len(),
        forall|k: int| 0 <= k < first ==> #[trigger] final(out)@[k] == old(out)@[k],
        forall|k: int|
            first <= k < old(out)@.len() ==> #[trigger] final(out)@[k] == (Event {
                venue_ts_ns: ts,
                ..old(out)@[k]
            }),
{
    let mut i: usize = first;
    while i < out.len()
        invariant
            first <= i <= out@.len(),
            out@.len() == old(out)@.len(),
            forall|k: int| 0 <= k < first ==> #[trigger] out@[k] == old(out)@[k],
            forall|k: int|
                first <= k < i ==> #[trigger] out@[k] == (Event {
                    venue_ts_ns: ts,
                    ..old(out)@[k]
                }),
            forall|k: int| i <= k < out@.len() ==> #[trigger] out@[k] == old(out)@[k],
        decreases out@.len() - i,
    {
        let mut e: Event = out[i];
        e.venue_ts_ns = ts;
        out.set(i, e);
        i += 1;
    }
}

/// Side of the taker of a trade (cursor just past its symbol); true where it
/// sold.
fn fast_side(c: &mut Cursor<'_>) -> (r: Result<bool, CodecError>)
    requires
        old(c).wf(),
    ensures
        final(c).wf(),
        final(c).bytes() == old(c).bytes(),
        match frame::side_at(old(c).bytes(), old(c).at()) {
            Ok(x) => r == Ok::<bool, CodecError>(x.0) && final(c).at() == x.1,
            Err(e) => r == Err::<bool, CodecError>(e),
        },
{
    if !c.eat_lit(",\"side\":".as_bytes()) {
        return Err(CodecError::Structure("trade side"));
    }
    match c.read_string() {
        Some(s) => if text::same_bytes(s, "sell".as_bytes()) {
            Ok(true)
        } else if text::same_bytes(s, "buy".as_bytes()) {
            Ok(false)
        } else {
            Err(CodecError::Structure("trade side value"))
        },
        None => Err(CodecError::Structure("trade side string")),
    }
}

/// Price and quantity tokens of a trade.
fn fast_price_qty<'a>(c: &mut Cursor<'a>) -> (r: Result<(&'a [u8], &'a [u8]), CodecError>)
    requires
        old(c).wf(),
    ensures
        final(c).wf(),
        final(c).bytes() == old(c).bytes(),
        match frame::price_qty_at(old(c).bytes(), old(c).at()) {
            Ok(x) => r matches Ok(y) && y.0@ == x.0 && y.1@ == x.1 && final(c).at() == x.2,
            Err(e) => r matches Err(f) && f == e,
        },
{
    if !c.eat_lit(",\"price\":".as_bytes()) {
        return Err(CodecError::Structure("trade price"));
    }
    let p: &'a [u8] = match c.read_number() {
        Some(p) => p,
        None => {
            return Err(CodecError::Structure("price token"));
        },
    };
    if !c.eat_lit(",\"qty\":".as_bytes()) {
        return Err(CodecError::Structure("trade qty"));
    }
    match c.read_number() {
        Some(q) => Ok((p, q)),
        None => Err(CodecError::Structure("qty token")),
    }
}

/// Id and timestamp of a trade, up to and with its closing brace.
fn fast_id_ts(c: &mut Cursor<'_>) -> (r: Result<(u64, u64), CodecError>)
    requires
        old(c).wf(),
    ensures
        final(c).wf(),
        final(c).bytes() == old(c).bytes(),
        match frame::id_ts_at(old(c).bytes(), old(c).at()) {
            Ok(x) => r == Ok::<(u64, u64), CodecError>((x.0, x.1)) && final(c).at() == x.2,
            Err(e) => r == Err::<(u64, u64), CodecError>(e),
        },
{
    if !c.eat_lit(",\"ord_type\":".as_bytes()) {
        return Err(CodecError::Structure("trade ord_type"));
    }
    if c.read_string().is_none() {
        return Err(CodecError::Structure("ord_type string"));
    }
    if !c.eat_lit(",\"trade_id\":".as_bytes()) {
        return Err(CodecError::Structure("trade id"));
    }
    let id: u64 = match c.read_u64() {
        Some(v) => v,
        None => {
            return Err(CodecError::Structure("trade id value"));
        },
    };
    if !c.eat_lit(",\"timestamp\":".as_bytes()) {
        return Err(CodecError::Structure("trade timestamp"));
    }
    let ts: u64 = match c.read_string() {
        Some(t) => match parse_rfc3339_ns(t) {
            Some(ts) => ts,
            None => {
                return Err(CodecError::Structure("bad timestamp"));
            },
        },
        None => {
            return Err(CodecError::Structure("timestamp string"));
        },
    };
    c.skip_ws();
    if !c.eat(0x7d) {
        return Err(CodecError::Structure("trade entry end"));
    }
    Ok((id, ts))
}

/// The event of one trade.
pub(crate) fn trade_ev(
    snapshot: bool,
    taker_sell: bool,
    instrument: u32,
    id: u64,
    ts: u64,
    pq: (i64, i64),
    recv_mono_ns: u64,
    recv_wall_ns: u64,
) -> (r: Event)
    ensures
        r == frame::trade_event(
            snapshot,
            (frame::TradeEntry { instrument, taker_sell, price: pq.0, qty: pq.1, id, ts }),
            recv_mono_ns,
            recv_wall_ns,
        ),
{
    assert(flags::FROM_SNAPSHOT | flags::TAKER_SELL == 3) by (bit_vector);
    let fl: u8 = if snapshot {
        if taker_sell {
            flags::FROM_SNAPSHOT | flags::TAKER_SELL
        } else {
            flags::FROM_SNAPSHOT
        }
    } else if taker_sell {
        flags::TAKER_SELL
    } else {
        0
    };
    let stamp = Stamp {
        recv_mono_ns,
        recv_wall_ns,
        venue_ts_ns: ts,
        venue_seq: id,
        instrument,
        venue: Venue::Kraken,
        flags: fl,
    };
    stamp.ev(EventKind::Trade, pq.0, pq.1, id)
}

impl KrakenCodec {
    /// The subscribed symbols.
    pub closed spec fn table_spec(&self) -> Seq<(Seq<u8>, u32)> {
        self.table@
    }

    /// The counters.
    pub closed spec fn stats_spec(&self) -> CodecStats {
        self.stats
    }

    /// The searchers are those of the codec.
    pub closed spec fn searchers(&self) -> bool {
        &&& scan::finder_needle(self.f_type) == codec::lit("\"type\":")
        &&& scan::finder_needle(self.f_data) == codec::lit("\"data\":")
        &&& scan::finder_needle(self.f_symbol) == codec::lit("\"symbol\":")
    }

    /// Build a codec over the subscribed symbol universe.
    pub fn new(table: SymbolTable) -> (r: Self)
        ensures
            r.searchers(),
            r.table_spec() == table@,
            r.stats_spec() == CodecStats::zero(),
    {
        KrakenCodec {
            table,
            stats: CodecStats::default(),
            f_type: scan::finder("\"type\":".as_bytes()),
            f_data: scan::finder("\"data\":".as_bytes()),
            f_symbol: scan::finder("\"symbol\":".as_bytes()),
        }
    }

    /// One `book` data entry (cursor at its opening brace).
    fn fast_entry(
        &self,
        c: &mut Cursor<'_>,
        snapshot: bool,
        recv_mono_ns: u64,
        recv_wall_ns: u64,
        out: &mut Vec<Event>,
    ) -> (r: Result<(), CodecError>)
        requires
            self.searchers(),
            old(c).wf(),
        ensures
            final(c).wf(),
            final(c).bytes() == old(c).bytes(),
            old(out)@.is_prefix_of(final(out)@),
            match frame::entry_at(old(c).bytes(), old(c).at(), self.table_spec(), snapshot) {
                Ok(x) => r is Ok && final(c).at() == x.1 && final(out)@ == old(out)@
                    + frame::book_events(snapshot, x.0, recv_mono_ns, recv_wall_ns),
                Err(e) => r == Err::<(), CodecError>(e),
            },
    {
        reveal(frame::entry_at);
        if !c.eat(0x7b) {
            return Err(CodecError::Structure("book entry"));
        }
        if c.skip_past_finder(&self.f_symbol).is_none() {
            return Err(CodecError::Structure("book symbol"));
        }
        let instrument: u32 = match c.read_string() {
            Some(sym) => match self.table.lookup(sym) {
                Some(id) => id,
                None => {
                    return Err(CodecError::UnknownInstrument);
                },
            },
            None => {
                return Err(CodecError::Structure("book symbol string"));
            },
        };
        self.fast_entry_body(c, instrument, snapshot, recv_mono_ns, recv_wall_ns, out)
    }

    /// The levels, checksum and timestamp of a `book` data entry (cursor just
    /// past its symbol).
    fn fast_entry_body(
        &self,
        c: &mut Cursor<'_>,
        instrument: u32,
        snapshot: bool,
        recv_mono_ns: u64,
        recv_wall_ns: u64,
        out: &mut Vec<Event>,
    ) -> (r: Result<(), CodecError>)
        requires
            old(c).wf(),
        ensures
            final(c).wf(),
            final(c).bytes() == old(c).bytes(),
            old(out)@.is_prefix_of(final(out)@),
            match frame::entry_body_at(old(c).bytes(), old(c).at(), instrument, snapshot) {
                Ok(x) => r is Ok && final(c).at() == x.1 && final(out)@ == old(out)@
                    + frame::book_events(snapshot, x.0, recv_mono_ns, recv_wall_ns),
                Err(e) => r == Err::<(), CodecError>(e),
            },
    {
        let stamp = Stamp {
            recv_mono_ns,
            recv_wall_ns,
            venue_ts_ns: 0,
            venue_seq: 0,
            instrument,
            venue: Venue::Kraken,
            flags: if snapshot {
                flags::FROM_SNAPSHOT
            } else {
                0
            },
        };
        let first: usize = out.len();
        if snapshot {
            out.push(stamp.ev(EventKind::Clear, 0, 0, 0));
            out.push(stamp.ev(EventKind::SnapBegin, 0, 0, 0));
        }
        let (bid_kind, ask_kind): (EventKind, EventKind) = if snapshot {
            (EventKind::SnapBid, EventKind::SnapAsk)
        } else {
            (EventKind::BidSet, EventKind::AskSet)
        };
        let ghost sides = frame::sides_at(c.bytes(), c.at());
        let n: u64 = match fast_sides(c, stamp, bid_kind, ask_kind, out) {
            Ok(n) => n,
            Err(e) => {
                return Err(e);
            },
        };
        let ghost bids = sides->Ok_0.0;
        let ghost asks = sides->Ok_0.1;
        let (checksum, venue_ts): (u64, Option<u64>) = match fast_entry_tail(c, snapshot) {
            Ok(x) => x,
            Err(e) => {
                return Err(e);
            },
        };
        if snapshot {
            assert(first + 1 < out.len());
            let begin: Event = stamp.ev(EventKind::SnapBegin, 0, 0, n);
            out.set(first + 1, begin);
            out.push(stamp.ev(EventKind::SnapEnd, 0, 0, checksum));
            assert(out@ =~= old(out)@ + emit::snapshot_events(stamp, bids, asks, checksum));
        } else {
            let ts: u64 = match venue_ts {
                Some(t) => t,
                None => 0,
            };
            out.push(stamp.ev(EventKind::Checksum, 0, 0, checksum));
            restamp(out, first, ts);
            let ghost s = frame::stamp(instrument, ts, 0, 0, recv_mono_ns, recv_wall_ns);
            assert(out@ =~= old(out)@ + (emit::level_events(s, EventKind::BidSet, bids)
                + emit::level_events(s, EventKind::AskSet, asks) + seq![
                s.ev_spec(EventKind::Checksum, 0, 0, checksum),
            ]));
        }
        Ok(())
    }

    /// The entries of a `book` message (cursor just past `[`).
    fn fast_entries(
        &self,
        c: &mut Cursor<'_>,
        snapshot: bool,
        recv_mono_ns: u64,
        recv_wall_ns: u64,
        out: &mut Vec<Event>,
    ) -> (r: Result<(), CodecError>)
        requires
            self.searchers(),
            old(c).wf(),
        ensures
            final(c).wf(),
            old(out)@.is_prefix_of(final(out)@),
            match frame::entries_at(
                old(c).bytes(),
                old(c).at(),
                self.table_spec(),
                snapshot,
                Seq::empty(),
            ) {
                Ok(es) => r is Ok && final(out)@ == old(out)@ + frame::all_book_events(
                    snapshot,
                    es,
                    recv_mono_ns,
                    recv_wall_ns,
                ),
                Err(e) => r == Err::<(), CodecError>(e),
            },
    {
        let ghost b = c.bytes();
        let ghost i0 = c.at();
        let ghost table = self.table_spec();
        let ghost mut acc: Seq<frame::BookEntry> = Seq::empty();
        let mut first_entry: bool = true;
        assert(out@ =~= old(out)@ + frame::all_book_events(
            snapshot,
            acc,
            recv_mono_ns,
            recv_wall_ns,
        ));
        loop
            invariant
                c.wf(),
                c.bytes() == b,
                b == old(c).bytes(),
                i0 == old(c).at(),
                0 <= i0 <= b.len(),
                self.searchers(),
                table == self.table_spec(),
                first_entry == (acc.len() == 0),
                out@ == old(out)@ + frame::all_book_events(
                    snapshot,
                    acc,
                    recv_mono_ns,
                    recv_wall_ns,
                ),
                frame::entries_at(b, c.at(), table, snapshot, acc) == frame::entries_at(
                    b,
                    i0,
                    table,
                    snapshot,
                    Seq::empty(),
                ),
            decreases b.len() - c.at(),
        {
            proof {
                frame::lemma_list_at(b, c.at(), first_entry, "book entry separator");
            }
            match list_next(c, first_entry, "book entry separator") {
                Err(e) => {
                    return Err(e);
                },
                Ok(true) => {
                    return Ok(());
                },
                Ok(false) => {},
            }
            first_entry = false;
            proof {
                frame::lemma_entry_at(b, c.at(), table, snapshot);
            }
            let ghost e = frame::entry_at(b, c.at(), table, snapshot);
            match self.fast_entry(c, snapshot, recv_mono_ns, recv_wall_ns, out) {
                Err(e) => {
                    return Err(e);
                },
                Ok(_) => {},
            }
            proof {
                let x = e->Ok_0.0;
                assert(acc.push(x).drop_last() =~= acc);
                assert(out@ =~= old(out)@ + frame::all_book_events(
                    snapshot,
                    acc.push(x),
                    recv_mono_ns,
                    recv_wall_ns,
                ));
                acc = acc.push(x);
            }
        }
    }

    /// `book` snapshot/update message (cursor at `{`).
    fn fast_book(
        &self,
        c: &mut Cursor<'_>,
        recv_mono_ns: u64,
        recv_wall_ns: u64,
        out: &mut Vec<Event>,
    ) -> (r: Result<Signal, CodecError>)
        requires
            self.searchers(),
            old(c).wf(),
        ensures
            old(out)@.is_prefix_of(final(out)@),
            match frame::book_at(old(c).bytes(), old(c).at(), self.table_spec()) {
                Ok(f) => r == Ok::<Signal, CodecError>(frame::frame_signal(f)) && final(out)@
                    == old(out)@ + frame::frame_events(f, recv_mono_ns, recv_wall_ns),
                Err(e) => r == Err::<Signal, CodecError>(e),
            },
    {
        let snapshot: bool = match fast_msg_type(c, &self.f_type) {
            Ok(s) => s,
            Err(e) => {
                return Err(e);
            },
        };
        if c.skip_past_finder(&self.f_data).is_none() {
            return Err(CodecError::Structure("book data"));
        }
        if !c.eat(0x5b) {
            return Err(CodecError::Structure("book data array"));
        }
        match self.fast_entries(c, snapshot, recv_mono_ns, recv_wall_ns, out) {
            Ok(_) => Ok(Signal::Nothing),
            Err(e) => Err(e),
        }
    }

    /// One `trade` data entry (cursor at its opening brace).
    fn fast_trade_entry(
        &self,
        c: &mut Cursor<'_>,
        snapshot: bool,
        recv_mono_ns: u64,
        recv_wall_ns: u64,
    ) -> (r: Result<Event, CodecError>)
        requires
            old(c).wf(),
        ensures
            final(c).wf(),
            final(c).bytes() == old(c).bytes(),
            match frame::trade_at(old(c).bytes(), old(c).at(), self.table_spec()) {
                Ok(x) => r matches Ok(e) && e == frame::trade_event(
                    snapshot,
                    x.0,
                    recv_mono_ns,
                    recv_wall_ns,
                ) && final(c).at() == x.1,
                Err(e) => r == Err::<Event, CodecError>(e),
            },
    {
        reveal(frame::trade_at);
        if !c.eat(0x7b) || !c.eat_lit("\"symbol\":".as_bytes()) {
            return Err(CodecError::Structure("trade symbol"));
        }
        let instrument: u32 = match c.read_string() {
            Some(sym) => match self.table.lookup(sym) {
                Some(id) => id,
                None => {
                    return Err(CodecError::UnknownInstrument);
                },
            },
            None => {
                return Err(CodecError::Structure("trade symbol string"));
            },
        };
        let taker_sell: bool = match fast_side(c) {
            Ok(s) => s,
            Err(e) => {
                return Err(e);
            },
        };
        let (p, q): (&[u8], &[u8]) = match fast_price_qty(c) {
            Ok(x) => x,
            Err(e) => {
                return Err(e);
            },
        };
        let (id, ts): (u64, u64) = match fast_id_ts(c) {
            Ok(x) => x,
            Err(e) => {
                return Err(e);
            },
        };
        match codec::fixed_pair(p, q) {
            Ok(pq) => Ok(
                trade_ev(snapshot, taker_sell, instrument, id, ts, pq, recv_mono_ns, recv_wall_ns),
            ),
            Err(e) => Err(e),
        }
    }

    /// The entries of a `trade` message (cursor just past `[`).
    fn fast_trades(
        &self,
        c: &mut Cursor<'_>,
        snapshot: bool,
        recv_mono_ns: u64,
        recv_wall_ns: u64,
        out: &mut Vec<Event>,
    ) -> (r: Result<(), CodecError>)
        requires
            old(c).wf(),
        ensures
            final(c).wf(),
            old(out)@.is_prefix_of(final(out)@),
            match frame::trades_at(old(c).bytes(), old(c).at(), self.table_spec(), Seq::empty()) {
                Ok(es) => r is Ok && final(out)@ == old(out)@ + frame::frame_events(
                    frame::Frame::Trade(snapshot, es),
                    recv_mono_ns,
                    recv_wall_ns,
                ),
                Err(e) => r == Err::<(), CodecError>(e),
            },
    {
        let ghost b = c.bytes();
        let ghost i0 = c.at();
        let ghost table = self.table_spec();
        let ghost mut acc: Seq<frame::TradeEntry> = Seq::empty();
        let mut first_entry: bool = true;
        assert(out@ =~= old(out)@ + frame::frame_events(
            frame::Frame::Trade(snapshot, acc),
            recv_mono_ns,
            recv_wall_ns,
        ));
        loop
            invariant
                c.wf(),
                c.bytes() == b,
                b == old(c).bytes(),
                i0 == old(c).at(),
                0 <= i0 <= b.len(),
                table == self.table_spec(),
                first_entry == (acc.len() == 0),
                out@ == old(out)@ + frame::frame_events(
                    frame::Frame::Trade(snapshot, acc),
                    recv_mono_ns,
                    recv_wall_ns,
                ),
                frame::trades_at(b, c.at(), table, acc) == frame::trades_at(
                    b,
                    i0,
                    table,
                    Seq::empty(),
                ),
            decreases b.len() - c.at(),
        {
            proof {
                frame::lemma_list_at(b, c.at(), first_entry, "trade separator");
            }
            match list_next(c, first_entry, "trade separator") {
                Err(e) => {
                    return Err(e);
                },
                Ok(true) => {
                    return Ok(());
                },
                Ok(false) => {},
            }
            first_entry = false;
            proof {
                frame::lemma_trade_at(b, c.at(), table);
            }
            let ghost x = frame::trade_at(b, c.at(), table)->Ok_0.0;
            match self.fast_trade_entry(c, snapshot, recv_mono_ns, recv_wall_ns) {
                Err(e) => {
                    return Err(e);
                },
                Ok(e) => {
                    out.push(e);
                },
            }
            proof {
                assert(out@ =~= old(out)@ + frame::frame_events(
                    frame::Frame::Trade(snapshot, acc.push(x)),
                    recv_mono_ns,
                    recv_wall_ns,
                ));
                acc = acc.push(x);
            }
        }
    }

    /// `trade` snapshot/update message (cursor at `{`).
    fn fast_trade(
        &self,
        c: &mut Cursor<'_>,
        recv_mono_ns: u64,
        recv_wall_ns: u64,
        out: &mut Vec<Event>,
    ) -> (r: Result<Signal, CodecError>)
        requires
            self.searchers(),
            old(c).wf(),
        ensures
            old(out)@.is_prefix_of(final(out)@),
            match frame::trade_frame_at(old(c).bytes(), old(c).at(), self.table_spec()) {
                Ok(f) => r == Ok::<Signal, CodecError>(frame::frame_signal(f)) && final(out)@
                    == old(out)@ + frame::frame_events(f, recv_mono_ns, recv_wall_ns),
                Err(e) => r == Err::<Signal, CodecError>(e),
            },
    {
        let snapshot: bool = match fast_msg_type(c, &self.f_type) {
            Ok(s) => s,
            Err(e) => {
                return Err(e);
            },
        };
        if c.skip_past_finder(&self.f_data).is_none() {
            return Err(CodecError::Structure("trade data"));
        }
        if !c.eat(0x5b) {
            return Err(CodecError::Structure("trade data array"));
        }
        match self.fast_trades(c, snapshot, recv_mono_ns, recv_wall_ns, out) {
            Ok(_) => Ok(Signal::Nothing),
            Err(e) => Err(e),
        }
    }

    /// A heartbeat of the connection.
    fn heartbeat(recv_mono_ns: u64, recv_wall_ns: u64) -> (r: Event)
        ensures
            seq![r] == frame::frame_events(frame::Frame::Heartbeat, recv_mono_ns, recv_wall_ns),
    {
        Stamp {
            recv_mono_ns,
            recv_wall_ns,
            venue_ts_ns: 0,
            venue_seq: 0,
            instrument: 0,
            venue: Venue::Kraken,
            flags: 0,
        }.ev(EventKind::Heartbeat, 0, 0, 0)
    }

    /// Fast path body; `parse` wraps it with stats + buffer-restore.
    fn fast_inner(
        &self,
        payload: &[u8],
        recv_mono_ns: u64,
        recv_wall_ns: u64,
        out: &mut Vec<Event>,
    ) -> (r: Result<Signal, CodecError>)
        requires
            self.searchers(),
        ensures
            old(out)@.is_prefix_of(final(out)@),
            match frame::fast_frame(payload@, self.table_spec()) {
                Ok(f) => r == Ok::<Signal, CodecError>(frame::frame_signal(f)) && final(out)@
                    == old(out)@ + frame::frame_events(f, recv_mono_ns, recv_wall_ns),
                Err(e) => r == Err::<Signal, CodecError>(e),
            },
    {
        let mut c = Cursor::new(payload);
        c.skip_ws();
        if c.looking_at("{\"channel\":\"book\"".as_bytes()) {
            self.fast_book(&mut c, recv_mono_ns, recv_wall_ns, out)
        } else if c.looking_at("{\"channel\":\"trade\"".as_bytes()) {
            self.fast_trade(&mut c, recv_mono_ns, recv_wall_ns, out)
        } else if c.looking_at("{\"channel\":\"heartbeat\"".as_bytes()) {
            out.push(Self::heartbeat(recv_mono_ns, recv_wall_ns));
            Ok(Signal::Nothing)
        } else if c.looking_at("{\"channel\":\"status\"".as_bytes()) || c.looking_at(
            "{\"method\":".as_bytes(),
        ) {
            assert(out@ =~= old(out)@ + Seq::<Event>::empty());
            Ok(Signal::Control)
        } else if c.looking_at("{\"channel\":\"".as_bytes()) {
            assert(out@ =~= old(out)@ + Seq::<Event>::empty());
            Ok(Signal::Ignored)
        } else {
            Err(CodecError::Structure("unrecognized frame"))
        }
    }

    /// Slow path body; `parse_slow` wraps it with stats + buffer-restore.
    fn slow_inner(
        &self,
        payload: &[u8],
        recv_mono_ns: u64,
        recv_wall_ns: u64,
        out: &mut Vec<Event>,
    ) -> (r: Result<Signal, CodecError>)
        ensures
            old(out)@.is_prefix_of(final(out)@),
            match slow::slow_frame(payload@, self.table_spec()) {
                Ok(f) => r == Ok::<Signal, CodecError>(frame::frame_signal(f)) && final(out)@
                    == old(out)@ + frame::frame_events(f, recv_mono_ns, recv_wall_ns),
                Err(e) => r == Err::<Signal, CodecError>(e),
            },
    {
        match text::utf8_str(payload) {
            Some(s) => {
                proof {
                    encode_utf8_valid_utf8(s@);
                }
            },
            None => {
                return Err(CodecError::Structure("not utf-8"));
            },
        }
        let doc: Json = match parse_json(payload) {
            Ok(d) => d,
            Err(_) => {
                return Err(CodecError::Structure("envelope"));
            },
        };
        match slow::dispatch(&doc) {
            Err(e) => Err(e),
            Ok(Route::Control) => {
                assert(out@ =~= old(out)@ + Seq::<Event>::empty());
                Ok(Signal::Control)
            },
            Ok(Route::Ignored) => {
                assert(out@ =~= old(out)@ + Seq::<Event>::empty());
                Ok(Signal::Ignored)
            },
            Ok(Route::Heartbeat) => {
                out.push(Self::heartbeat(recv_mono_ns, recv_wall_ns));
                Ok(Signal::Nothing)
            },
            Ok(Route::Book { snapshot }) => {
                let quoted: Vec<u8> = slow::quote_numeric_tokens(payload);
                match parse_json(quoted.as_slice()) {
                    Err(_) => Err(CodecError::Structure("book entries")),
                    Ok(d) => match slow::emit_book(
                        &self.table,
                        &d,
                        snapshot,
                        recv_mono_ns,
                        recv_wall_ns,
                        out,
                    ) {
                        Ok(_) => Ok(Signal::Nothing),
                        Err(e) => Err(e),
                    },
                }
            },
            Ok(Route::Trade { snapshot }) => {
                let quoted: Vec<u8> = slow::quote_numeric_tokens(payload);
                match parse_json(quoted.as_slice()) {
                    Err(_) => Err(CodecError::Structure("trade entries")),
                    Ok(d) => match slow::emit_trades(
                        &self.table,
                        &d,
                        snapshot,
                        recv_mono_ns,
                        recv_wall_ns,
                        out,
                    ) {
                        Ok(_) => Ok(Signal::Nothing),
                        Err(e) => Err(e),
                    },
                }
            },
        }
    }
}

/// The codec `post` is `pre` with the counters of an outcome on top: on
/// success `fast` frames and the events, on an error nothing.
pub open spec fn counted(
    pre: KrakenCodec,
    fast: u64,
    o: codec::Outcome,
    post: KrakenCodec,
) -> bool {
    &&& post.table_spec() == pre.table_spec()
    &&& post.stats_spec() == (match o {
        Ok(x) => pre.stats_spec().plus(fast, 0, x.1.len() as u64),
        Err(_) => pre.stats_spec(),
    })
}

/// The symbols of `table` from `k` on, as a JSON list's items.
pub open spec fn symbol_items(table: Seq<(Seq<u8>, u32)>, k: int) -> Seq<char>
    decreases table.len() - k,
{
    if !(0 <= k < table.len()) {
        Seq::empty()
    } else {
        (if k > 0 {
            ","@
        } else {
            Seq::empty()
        }) + json::json_quoted(decode_utf8(table[k].0)) + symbol_items(table, k + 1)
    }
}

/// The two paths differ in nothing but how they read a payload. Where both
/// read the same message in it, a codec that takes the fast path and one in
/// the same state that takes the slow path return the same result, append the
/// same events and are in the same state again.
pub proof fn lemma_paths_agree(
    a: KrakenCodec,
    b: KrakenCodec,
    payload: Seq<u8>,
    recv_mono_ns: u64,
    recv_wall_ns: u64,
    before_a: Seq<Event>,
    before_b: Seq<Event>,
    a1: KrakenCodec,
    b1: KrakenCodec,
    after_a: Seq<Event>,
    after_b: Seq<Event>,
    ra: Result<Signal, CodecError>,
    rb: Result<Signal, CodecError>,
)
    requires
        a.table_spec() == b.table_spec(),
        frame::fast_frame(payload, a.table_spec()) == slow::slow_frame(payload, a.table_spec()),
        a.may_parse(payload, recv_mono_ns, recv_wall_ns, before_a, a1, after_a, ra),
        b.may_parse_slow(payload, recv_mono_ns, recv_wall_ns, before_b, b1, after_b, rb),
    ensures
        ra == rb,
        after_a.skip(before_a.len() as int) == after_b.skip(before_b.len() as int),
        a1.table_spec() == b1.table_spec(),
{
    codec::lemma_delivered_alike(fast_outcome(a, payload, recv_mono_ns, recv_wall_ns), before_a, after_a, ra);
    codec::lemma_delivered_alike(fast_outcome(a, payload, recv_mono_ns, recv_wall_ns), before_b, after_b, rb);
}

/// A replay is deterministic: two codecs in the same state that parse the
/// same payload return the same result, append the same events and are in the
/// same state again.
pub proof fn lemma_replay_is_determined(
    a: KrakenCodec,
    b: KrakenCodec,
    payload: Seq<u8>,
    recv_mono_ns: u64,
    recv_wall_ns: u64,
    before_a: Seq<Event>,
    before_b: Seq<Event>,
    a1: KrakenCodec,
    b1: KrakenCodec,
    after_a: Seq<Event>,
    after_b: Seq<Event>,
    ra: Result<Signal, CodecError>,
    rb: Result<Signal, CodecError>,
)
    requires
        a.table_spec() == b.table_spec(),
        a.stats_spec() == b.stats_spec(),
        a.may_parse(payload, recv_mono_ns, recv_wall_ns, before_a, a1, after_a, ra),
        b.may_parse(payload, recv_mono_ns, recv_wall_ns, before_b, b1, after_b, rb),
    ensures
        ra == rb,
        after_a.skip(before_a.len() as int) == after_b.skip(before_b.len() as int),
        a1.table_spec() == b1.table_spec(),
        a1.stats_spec() == b1.stats_spec(),
{
    codec::lemma_delivered_alike(fast_outcome(a, payload, recv_mono_ns, recv_wall_ns), before_a, after_a, ra);
    codec::lemma_delivered_alike(fast_outcome(a, payload, recv_mono_ns, recv_wall_ns), before_b, after_b, rb);
}

/// What the fast path makes of a payload.
pub open spec fn fast_outcome(
    c: KrakenCodec,
    payload: Seq<u8>,
    recv_mono_ns: u64,
    recv_wall_ns: u64,
) -> codec::Outcome {
    frame::frame_outcome(
        frame::fast_frame(payload, c.table_spec()),
        recv_mono_ns,
        recv_wall_ns,
    )
}

impl VenueCodec for KrakenCodec {
    open spec fn wf(&self) -> bool {
        self.searchers()
    }

    open spec fn may_parse(
        &self,
        payload: Seq<u8>,
        recv_mono_ns: u64,
        recv_wall_ns: u64,
        before: Seq<Event>,
        post: Self,
        after: Seq<Event>,
        r: Result<Signal, CodecError>,
    ) -> bool {
        let o = frame::frame_outcome(
            frame::fast_frame(payload, self.table_spec()),
            recv_mono_ns,
            recv_wall_ns,
        );
        codec::delivers(o, before, after, r) && counted(*self, 1, o, post)
    }

    open spec fn may_parse_slow(
        &self,
        payload: Seq<u8>,
        recv_mono_ns: u64,
        recv_wall_ns: u64,
        before: Seq<Event>,
        post: Self,
        after: Seq<Event>,
        r: Result<Signal, CodecError>,
    ) -> bool {
        let o = frame::frame_outcome(
            slow::slow_frame(payload, self.table_spec()),
            recv_mono_ns,
            recv_wall_ns,
        );
        codec::delivers(o, before, after, r) && counted(*self, 0, o, post)
    }

    open spec fn may_parse_rest(
        &self,
        instrument: u32,
        body: Seq<u8>,
        recv_mono_ns: u64,
        recv_wall_ns: u64,
        before: Seq<Event>,
        post: Self,
        after: Seq<Event>,
        r: Result<Signal, CodecError>,
    ) -> bool {
        codec::delivers(Ok((Signal::Ignored, Seq::empty())), before, after, r) && post == *self
    }

    fn venue(&self) -> (r: Venue)
        ensures
            r == Venue::Kraken,
    {
        Venue::Kraken
    }

    fn ws_url(&self) -> (r: String)
        ensures
            r@ == "wss://ws.kraken.com/v2"@,
    {
        "wss://ws.kraken.com/v2".to_owned()
    }

    fn subscribe_messages(&self) -> (r: Vec<String>)
        ensures
            r@.len() == 2,
            r@[0]@
                == "{\"method\":\"subscribe\",\"params\":{\"channel\":\"book\",\"depth\":100,\"symbol\":["@
                + symbol_items(self.table_spec(), 0) + "]}}"@,
            r@[1]@
                == "{\"method\":\"subscribe\",\"params\":{\"channel\":\"trade\",\"snapshot\":false,\"symbol\":["@
                + symbol_items(self.table_spec(), 0) + "]}}"@,
    {
        let mut items: String = "".to_owned();
        let ghost t = self.table_spec();
        let mut i: usize = 0;
        proof {
            reveal_strlit("");
            assert(items@ + symbol_items(t, 0) =~= symbol_items(t, 0));
        }
        while i < self.table.len()
            invariant
                i <= t.len(),
                t == self.table@,
                items@ + symbol_items(t, i as int) == symbol_items(t, 0),
            decreases t.len() - i,
        {
            let ghost before = items@;
            if i > 0 {
                items.append(",");
            }
            let sym: &str = self.table.symbol(i);
            proof {
                encode_utf8_decode_utf8(sym@);
            }
            items.append(quote_json(sym).as_str());
            assert(items@ + symbol_items(t, i + 1) =~= before + symbol_items(t, i as int));
            i += 1;
        }
        assert(items@ =~= symbol_items(t, 0));
        // Historical trades are not asked for on subscribe, only live ones.
        vec![
            "{\"method\":\"subscribe\",\"params\":{\"channel\":\"book\",\"depth\":100,\"symbol\":["
                .to_owned().concat(items.as_str()).concat("]}}"),
            "{\"method\":\"subscribe\",\"params\":{\"channel\":\"trade\",\"snapshot\":false,\"symbol\":["
                .to_owned().concat(items.as_str()).concat("]}}"),
        ]
    }

    fn parse(
        &mut self,
        payload: &[u8],
        recv_mono_ns: u64,
        recv_wall_ns: u64,
        out: &mut Vec<Event>,
    ) -> (r: Result<Signal, CodecError>) {
        let start: usize = out.len();
        match self.fast_inner(payload, recv_mono_ns, recv_wall_ns, out) {
            Ok(sig) => {
                self.stats.count(1, 0, (out.len() - start) as u64);
                Ok(sig)
            },
            Err(e) => {
                out.truncate(start);
                assert(out@ =~= old(out)@);
                Err(e)
            },
        }
    }

    fn parse_slow(
        &mut self,
        payload: &[u8],
        recv_mono_ns: u64,
        recv_wall_ns: u64,
        out: &mut Vec<Event>,
    ) -> (r: Result<Signal, CodecError>) {
        let start: usize = out.len();
        match self.slow_inner(payload, recv_mono_ns, recv_wall_ns, out) {
            Ok(sig) => {
                self.stats.count(0, 0, (out.len() - start) as u64);
                Ok(sig)
            },
            Err(e) => {
                out.truncate(start);
                assert(out@ =~= old(out)@);
                Err(e)
            },
        }
    }

    fn parse_rest_snapshot(
        &mut self,
        instrument: u32,
        body: &[u8],
        recv_mono_ns: u64,
        recv_wall_ns: u64,
        out: &mut Vec<Event>,
    ) -> (r: Result<Signal, CodecError>) {
        assert(out@ =~= old(out)@ + Seq::<Event>::empty());
        Ok(Signal::Ignored)
    }

    fn stats(&self) -> (r: &CodecStats)
        ensures
            *r == self.stats_spec(),
    {
        &self.stats
    }
}

} // verus!
