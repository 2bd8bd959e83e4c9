//! Coinbase Exchange codec: `level2_batch` (snapshot + l2update), `matches`,
//! and `heartbeat` channels -> normalized events.
//!
//! Message dispatch is on the leading `"type"` key:
//!
//! - `snapshot` -> `Clear` + `SnapBegin` + `SnapBid`* + `SnapAsk`* + `SnapEnd`
//!   (canonical bids-then-asks even though the JSON carries asks first), all
//!   flagged `FROM_SNAPSHOT`.
//! - `l2update` -> `BidSet`/`AskSet` per change, in payload order (Coinbase's
//!   `changes` list interleaves sides; that exact order is preserved).
//! - `match` / `last_match` -> `Trade` (plus a leading `Gap` on a trade-id
//!   jump). `last_match` seeds the per-instrument trade-id baseline and is
//!   never gap-checked.
//! - `heartbeat` -> `Heartbeat` (plus a trailing `Gap` when the venue's
//!   `last_trade_id` ran ahead of the trades we saw).
//! - `subscriptions` / `error` -> `Control`; anything else -> `Ignored`.
//!
//! Coinbase documents that dropped messages do occur, and `l2update`
//! carries no per-message sequence, so a trade-id or heartbeat gap is the
//! only in-band evidence that the book may have silently lost updates. Any
//! detected gap therefore returns `NeedResync` for the affected instrument;
//! the connection layer re-snapshots it via REST `/book?level=2`.
//! Out-of-order matches (lower trade ids, which Coinbase says "can be ignored
//! or represent a message that has arrived out of order") are still emitted
//! as `Trade`s but never lower the gap baseline, so a gap is reported (and a
//! resync requested) exactly once.
pub mod fast;
pub mod msg;
pub mod slow;
pub mod wire;

use crate::codec;
use crate::codec::{CodecError, CodecStats, Signal, SymbolTable, VenueCodec};
use crate::emit::Stamp;
use crate::event::{flags, Event, EventKind, Venue};
use crate::json;
use crate::json::{parse_json, Json};
use crate::text;
use fast::Keys;
use msg::{Heartbeat, Match};
use std::collections::HashMap;
use vstd::prelude::*;
use vstd::string::*;
use vstd::utf8::*;

verus! {

broadcast use vstd::std_specs::hash::group_hash_axioms;

/// The constants of one message's events.
pub(crate) fn make_stamp(
    instrument: u32,
    ts: u64,
    seq: u64,
    fl: u8,
    recv_mono_ns: u64,
    recv_wall_ns: u64,
) -> (r: Stamp)
    ensures
        r == msg::stamp(instrument, ts, seq, fl, recv_mono_ns, recv_wall_ns),
{
    Stamp {
        recv_mono_ns,
        recv_wall_ns,
        venue_ts_ns: ts,
        venue_seq: seq,
        instrument,
        venue: Venue::Coinbase,
        flags: fl,
    }
}

/// Codec for the Coinbase Exchange WebSocket feed. Stateful: tracks the last
/// seen trade id per instrument for trade-gap and heartbeat cross-checks.
/// One instance per connection; recreate after a reconnect.
#[derive(Debug)]
pub struct CoinbaseCodec {
    table: SymbolTable,
    stats: CodecStats,
    /// Per-instrument last seen trade id.
    last_trade: HashMap<u32, u64>,
    keys: Keys,
}

/// The codec `post` is `pre` after an effect: its baselines and its counters
/// are those of the effect, with `fast` frames where it succeeded.
pub open spec fn follows(
    pre: CoinbaseCodec,
    fast: u64,
    e: msg::Effect,
    post: CoinbaseCodec,
) -> bool {
    &&& post.table_spec() == pre.table_spec()
    &&& post.baselines() == e.baselines
    &&& post.stats_spec() == (match e.outcome {
        Ok(x) => pre.stats_spec().plus(fast, e.gaps, x.1.len() as u64),
        Err(_) => pre.stats_spec(),
    })
}

/// The symbols of `table` from `k` on, in quotes and separated by commas.
pub open spec fn product_list(table: Seq<(Seq<u8>, u32)>, k: int) -> Seq<char>
    decreases table.len() - k,
{
    if !(0 <= k < table.len()) {
        Seq::empty()
    } else {
        (if k > 0 {
            ","@
        } else {
            Seq::empty()
        }) + "\""@ + decode_utf8(table[k].0) + "\""@ + product_list(table, k + 1)
    }
}

impl CoinbaseCodec {
    /// The subscribed symbols.
    pub closed spec fn table_spec(&self) -> Seq<(Seq<u8>, u32)> {
        self.table@
    }

    /// The counters.
    pub closed spec fn stats_spec(&self) -> CodecStats {
        self.stats
    }

    /// The last seen trade id of each instrument that has one.
    pub closed spec fn baselines(&self) -> Map<u32, u64> {
        self.last_trade@
    }

    /// The searchers are those of the codec.
    pub closed spec fn searchers(&self) -> bool {
        self.keys.wf()
    }

    /// New codec over the given symbol table (venue symbol -> instrument id).
    pub fn new(table: SymbolTable) -> (r: Self)
        ensures
            r.searchers(),
            r.table_spec() == table@,
            r.stats_spec() == CodecStats::zero(),
            r.baselines() == Map::<u32, u64>::empty(),
    {
        CoinbaseCodec {
            table,
            stats: CodecStats::default(),
            last_trade: HashMap::new(),
            keys: Keys::new(),
        }
    }

    /// The baseline of an instrument.
    fn last_id(&self, instrument: u32) -> (r: Option<u64>)
        ensures
            r == msg::baseline(self.baselines(), instrument),
    {
        match self.last_trade.get(&instrument) {
            Some(v) => Some(*v),
            None => None,
        }
    }

    /// Record a trade id; returns the missed count when a gap-checked trade
    /// id jumps past `last + 1`. `last_match` messages pass
    /// `gap_check = false`: they seed the baseline (first message after
    /// subscribe) but never trigger a gap themselves. The baseline is
    /// advance-only: an out-of-order match with `trade_id <= last` never
    /// lowers it, so an already-reported gap is not re-reported when the
    /// straggler (or the next heartbeat) arrives.
    fn note_trade(&mut self, instrument: u32, trade_id: u64, gap_check: bool) -> (r: Option<u64>)
        ensures
            r == msg::missed_trades(
                msg::baseline(old(self).baselines(), instrument),
                trade_id,
                gap_check,
            ),
            final(self).baselines() == old(self).baselines().insert(
                instrument,
                msg::advanced(msg::baseline(old(self).baselines(), instrument), trade_id),
            ),
            final(self).table_spec() == old(self).table_spec(),
            final(self).stats_spec() == old(self).stats_spec(),
            final(self).searchers() == old(self).searchers(),
    {
        match self.last_id(instrument) {
            Some(last) => {
                let missed: Option<u64> = if gap_check && trade_id > last && trade_id - last > 1 {
                    Some(trade_id - last - 1)
                } else {
                    None
                };
                let next: u64 = if trade_id > last {
                    trade_id
                } else {
                    last
                };
                self.last_trade.insert(instrument, next);
                missed
            },
            None => {
                // No baseline yet: the first (last_)match never triggers a gap.
                self.last_trade.insert(instrument, trade_id);
                None
            },
        }
    }

    /// Cross-check a heartbeat's `last_trade_id` against the trades we saw.
    /// Returns the missed count (and advances the baseline so the same gap
    /// is reported once) when the venue ran ahead of us. No-op until a
    /// (last_)match established a baseline.
    fn note_heartbeat(&mut self, instrument: u32, last_trade_id: u64) -> (r: Option<u64>)
        ensures
            r == msg::missed_by_heartbeat(
                msg::baseline(old(self).baselines(), instrument),
                last_trade_id,
            ),
            final(self).baselines() == (if r is Some {
                old(self).baselines().insert(instrument, last_trade_id)
            } else {
                old(self).baselines()
            }),
            final(self).table_spec() == old(self).table_spec(),
            final(self).stats_spec() == old(self).stats_spec(),
            final(self).searchers() == old(self).searchers(),
    {
        match self.last_id(instrument) {
            Some(last) => if last_trade_id > last {
                self.last_trade.insert(instrument, last_trade_id);
                Some(last_trade_id - last)
            } else {
                None
            },
            None => None,
        }
    }

    /// Shared match emission (fast + slow paths): optional `Gap` (aux =
    /// missed count, flags cleared) BEFORE the `Trade` (aux = trade id).
    /// A gap means the book may have silently dropped messages too, so it
    /// asks for a resync of the instrument. `fast` frames are counted.
    fn emit_match(
        &mut self,
        m: Match,
        fast: u64,
        recv_mono_ns: u64,
        recv_wall_ns: u64,
        out: &mut Vec<Event>,
    ) -> (r: Signal)
        requires
            old(self).searchers(),
        ensures
            final(self).searchers(),
            ({
                let e = msg::match_effect(m, old(self).baselines(), recv_mono_ns, recv_wall_ns);
                &&& codec::delivers(e.outcome, old(out)@, final(out)@, Ok(r))
                &&& follows(*old(self), fast, e, *final(self))
            }),
    {
        let fl: u8 = if m.taker_sell {
            flags::TAKER_SELL
        } else {
            0
        };
        let stamp: Stamp = make_stamp(m.instrument, m.ts, m.seq, fl, recv_mono_ns, recv_wall_ns);
        match self.note_trade(m.instrument, m.id, m.gap_check) {
            Some(missed) => {
                let gap: Stamp = make_stamp(
                    m.instrument,
                    m.ts,
                    m.seq,
                    0,
                    recv_mono_ns,
                    recv_wall_ns,
                );
                out.push(gap.ev(EventKind::Gap, 0, 0, missed));
                out.push(stamp.ev(EventKind::Trade, m.price, m.qty, m.id));
                self.stats.count(fast, 1, 2);
                assert(out@ =~= old(out)@ + seq![
                    gap.ev_spec(EventKind::Gap, 0, 0, missed),
                    stamp.ev_spec(EventKind::Trade, m.price, m.qty, m.id),
                ]);
                Signal::NeedResync { instrument: m.instrument }
            },
            None => {
                out.push(stamp.ev(EventKind::Trade, m.price, m.qty, m.id));
                self.stats.count(fast, 0, 1);
                assert(out@ =~= old(out)@ + seq![
                    stamp.ev_spec(EventKind::Trade, m.price, m.qty, m.id),
                ]);
                Signal::Nothing
            },
        }
    }

    /// Shared heartbeat emission (fast + slow paths): `Heartbeat` (aux =
    /// venue `last_trade_id`), then a `Gap` (aux = missed trades) AFTER it
    /// when the venue reports trades we never received. A gap asks for a
    /// resync of the instrument. `fast` frames are counted.
    fn emit_heartbeat(
        &mut self,
        h: Heartbeat,
        fast: u64,
        recv_mono_ns: u64,
        recv_wall_ns: u64,
        out: &mut Vec<Event>,
    ) -> (r: Signal)
        requires
            old(self).searchers(),
        ensures
            final(self).searchers(),
            ({
                let e = msg::heartbeat_effect(
                    h,
                    old(self).baselines(),
                    recv_mono_ns,
                    recv_wall_ns,
                );
                &&& codec::delivers(e.outcome, old(out)@, final(out)@, Ok(r))
                &&& follows(*old(self), fast, e, *final(self))
            }),
    {
        let stamp: Stamp = make_stamp(h.instrument, h.ts, h.seq, 0, recv_mono_ns, recv_wall_ns);
        out.push(stamp.ev(EventKind::Heartbeat, 0, 0, h.last_trade_id));
        match self.note_heartbeat(h.instrument, h.last_trade_id) {
            Some(missed) => {
                out.push(stamp.ev(EventKind::Gap, 0, 0, missed));
                self.stats.count(fast, 1, 2);
                assert(out@ =~= old(out)@ + seq![
                    stamp.ev_spec(EventKind::Heartbeat, 0, 0, h.last_trade_id),
                    stamp.ev_spec(EventKind::Gap, 0, 0, missed),
                ]);
                Signal::NeedResync { instrument: h.instrument }
            },
            None => {
                self.stats.count(fast, 0, 1);
                assert(out@ =~= old(out)@ + seq![
                    stamp.ev_spec(EventKind::Heartbeat, 0, 0, h.last_trade_id),
                ]);
                Signal::Nothing
            },
        }
    }

    /// Count a message that left the baselines alone, or take back what an
    /// error left in the buffer.
    fn settle(
        &mut self,
        r: Result<Signal, CodecError>,
        fast: u64,
        start: usize,
        out: &mut Vec<Event>,
    )
        requires
            old(self).searchers(),
            start <= old(out)@.len(),
        ensures
            final(self).searchers(),
            final(self).table_spec() == old(self).table_spec(),
            final(self).baselines() == old(self).baselines(),
            match r {
                Ok(_) => final(out)@ == old(out)@ && final(self).stats_spec() == old(
                    self,
                ).stats_spec().plus(fast, 0, (old(out)@.len() - start) as u64),
                Err(_) => final(out)@ == old(out)@.take(start as int)
                    && final(self).stats_spec() == old(self).stats_spec(),
            },
    {
        match r {
            Ok(_) => {
                self.stats.count(fast, 0, (out.len() - start) as u64);
            },
            Err(_) => {
                out.truncate(start);
                assert(out@ =~= old(out)@.take(start as int));
            },
        }
    }

    /// Read the message with the document `doc`.
    pub fn parse_document(
        &mut self,
        doc: &Json,
        recv_mono_ns: u64,
        recv_wall_ns: u64,
        out: &mut Vec<Event>,
    ) -> (r: Result<Signal, CodecError>)
        requires
            old(self).wf(),
        ensures
            final(self).wf(),
            ({
                let e = msg::effect(
                    slow::doc_msg(doc.view(), old(self).table_spec()),
                    old(self).baselines(),
                    recv_mono_ns,
                    recv_wall_ns,
                );
                &&& codec::delivers(e.outcome, old(out)@, final(out)@, r)
                &&& follows(*old(self), 0, e, *final(self))
            }),
    {
        let start: usize = out.len();
        let ty: &str = match slow::slow_str(doc, "type") {
            Ok(s) => s,
            Err(e) => {
                return Err(e);
            },
        };
        let r: Result<Signal, CodecError> = if json::same_str(ty, "l2update") {
            match slow::slow_l2update(&self.table, doc, recv_mono_ns, recv_wall_ns, out) {
                Ok(_) => Ok(Signal::Nothing),
                Err(e) => Err(e),
            }
        } else if json::same_str(ty, "match") {
            match slow::slow_match(&self.table, doc, true) {
                Ok(m) => {
                    return Ok(self.emit_match(m, 0, recv_mono_ns, recv_wall_ns, out));
                },
                Err(e) => Err(e),
            }
        } else if json::same_str(ty, "last_match") {
            match slow::slow_match(&self.table, doc, false) {
                Ok(m) => {
                    return Ok(self.emit_match(m, 0, recv_mono_ns, recv_wall_ns, out));
                },
                Err(e) => Err(e),
            }
        } else if json::same_str(ty, "heartbeat") {
            match slow::slow_heartbeat(&self.table, doc) {
                Ok(h) => {
                    return Ok(self.emit_heartbeat(h, 0, recv_mono_ns, recv_wall_ns, out));
                },
                Err(e) => Err(e),
            }
        } else if json::same_str(ty, "snapshot") {
            match slow::slow_snapshot(&self.table, doc, recv_mono_ns, recv_wall_ns, out) {
                Ok(_) => Ok(Signal::Nothing),
                Err(e) => Err(e),
            }
        } else if json::same_str(ty, "subscriptions") || json::same_str(ty, "error") {
            assert(out@ =~= old(out)@ + Seq::<Event>::empty());
            Ok(Signal::Control)
        } else {
            assert(out@ =~= old(out)@ + Seq::<Event>::empty());
            Ok(Signal::Ignored)
        };
        self.settle(r, 0, start, out);
        assert(r is Err ==> out@ =~= old(out)@);
        r
    }
}

/// The two paths differ in nothing but how they read a payload. Where both
/// read the same message in it, a codec that takes the fast path and one in
/// the same state that takes the slow path return the same result, append the
/// same events and are in the same state again.
pub proof fn lemma_paths_agree(
    a: CoinbaseCodec,
    b: CoinbaseCodec,
    payload: Seq<u8>,
    recv_mono_ns: u64,
    recv_wall_ns: u64,
    before_a: Seq<Event>,
    before_b: Seq<Event>,
    a1: CoinbaseCodec,
    b1: CoinbaseCodec,
    after_a: Seq<Event>,
    after_b: Seq<Event>,
    ra: Result<Signal, CodecError>,
    rb: Result<Signal, CodecError>,
)
    requires
        a.table_spec() == b.table_spec(),
        a.baselines() == b.baselines(),
        fast::fast_msg(payload, a.table_spec()) == slow::slow_msg(payload, a.table_spec()),
        a.may_parse(payload, recv_mono_ns, recv_wall_ns, before_a, a1, after_a, ra),
        b.may_parse_slow(payload, recv_mono_ns, recv_wall_ns, before_b, b1, after_b, rb),
    ensures
        ra == rb,
        after_a.skip(before_a.len() as int) == after_b.skip(before_b.len() as int),
        a1.table_spec() == b1.table_spec(),
        a1.baselines() == b1.baselines(),
{
    codec::lemma_delivered_alike(fast_outcome(a, payload, recv_mono_ns, recv_wall_ns), before_a, after_a, ra);
    codec::lemma_delivered_alike(fast_outcome(a, payload, recv_mono_ns, recv_wall_ns), before_b, after_b, rb);
}

/// A replay is deterministic: two codecs in the same state that parse the
/// same payload return the same result, append the same events and are in the
/// same state again.
pub proof fn lemma_replay_is_determined(
    a: CoinbaseCodec,
    b: CoinbaseCodec,
    payload: Seq<u8>,
    recv_mono_ns: u64,
    recv_wall_ns: u64,
    before_a: Seq<Event>,
    before_b: Seq<Event>,
    a1: CoinbaseCodec,
    b1: CoinbaseCodec,
    after_a: Seq<Event>,
    after_b: Seq<Event>,
    ra: Result<Signal, CodecError>,
    rb: Result<Signal, CodecError>,
)
    requires
        a.table_spec() == b.table_spec(),
        a.baselines() == b.baselines(),
        a.stats_spec() == b.stats_spec(),
        a.may_parse(payload, recv_mono_ns, recv_wall_ns, before_a, a1, after_a, ra),
        b.may_parse(payload, recv_mono_ns, recv_wall_ns, before_b, b1, after_b, rb),
    ensures
        ra == rb,
        after_a.skip(before_a.len() as int) == after_b.skip(before_b.len() as int),
        a1.table_spec() == b1.table_spec(),
        a1.baselines() == b1.baselines(),
        a1.stats_spec() == b1.stats_spec(),
{
    codec::lemma_delivered_alike(fast_outcome(a, payload, recv_mono_ns, recv_wall_ns), before_a, after_a, ra);
    codec::lemma_delivered_alike(fast_outcome(a, payload, recv_mono_ns, recv_wall_ns), before_b, after_b, rb);
}

/// What the fast path makes of a payload.
pub open spec fn fast_outcome(
    c: CoinbaseCodec,
    payload: Seq<u8>,
    recv_mono_ns: u64,
    recv_wall_ns: u64,
) -> codec::Outcome {
    msg::effect(
        fast::fast_msg(payload, c.table_spec()),
        c.baselines(),
        recv_mono_ns,
        recv_wall_ns,
    ).outcome
}

impl VenueCodec for CoinbaseCodec {
    open spec fn wf(&self) -> bool {
        self.searchers()
    }

    open spec fn may_parse(
        &self,
        payload: Seq<u8>,
        recv_mono_ns: u64,
        recv_wall_ns: u64,
        before: Seq<Event>,
        post: Self,
        after: Seq<Event>,
        r: Result<Signal, CodecError>,
    ) -> bool {
        let e = msg::effect(
            fast::fast_msg(payload, self.table_spec()),
            self.baselines(),
            recv_mono_ns,
            recv_wall_ns,
        );
        codec::delivers(e.outcome, before, after, r) && follows(*self, 1, e, post)
    }

    open spec fn may_parse_slow(
        &self,
        payload: Seq<u8>,
        recv_mono_ns: u64,
        recv_wall_ns: u64,
        before: Seq<Event>,
        post: Self,
        after: Seq<Event>,
        r: Result<Signal, CodecError>,
    ) -> bool {
        let e = msg::effect(
            slow::slow_msg(payload, self.table_spec()),
            self.baselines(),
            recv_mono_ns,
            recv_wall_ns,
        );
        codec::delivers(e.outcome, before, after, r) && follows(*self, 0, e, post)
    }

    open spec fn may_parse_rest(
        &self,
        instrument: u32,
        body: Seq<u8>,
        recv_mono_ns: u64,
        recv_wall_ns: u64,
        before: Seq<Event>,
        post: Self,
        after: Seq<Event>,
        r: Result<Signal, CodecError>,
    ) -> bool {
        let e = msg::effect(
            fast::rest_msg(body, instrument),
            self.baselines(),
            recv_mono_ns,
            recv_wall_ns,
        );
        codec::delivers(e.outcome, before, after, r) && follows(*self, 0, e, post)
    }

    fn venue(&self) -> (r: Venue)
        ensures
            r == Venue::Coinbase,
    {
        Venue::Coinbase
    }

    fn ws_url(&self) -> (r: String)
        ensures
            r@ == "wss://ws-feed.exchange.coinbase.com"@,
    {
        "wss://ws-feed.exchange.coinbase.com".to_owned()
    }

    fn subscribe_messages(&self) -> (r: Vec<String>)
        ensures
            r@.len() == 1,
            r@[0]@ == "{\"type\":\"subscribe\",\"product_ids\":["@ + product_list(
                self.table_spec(),
                0,
            ) + "],\"channels\":[\"level2_batch\",\"matches\",\"heartbeat\"]}"@,
    {
        let mut ids: String = "".to_owned();
        let ghost t = self.table_spec();
        let mut i: usize = 0;
        proof {
            reveal_strlit("");
            assert(ids@ + product_list(t, 0) =~= product_list(t, 0));
        }
        while i < self.table.len()
            invariant
                i <= t.len(),
                t == self.table@,
                ids@ + product_list(t, i as int) == product_list(t, 0),
            decreases t.len() - i,
        {
            let ghost before = ids@;
            if i > 0 {
                ids.append(",");
            }
            let sym: &str = self.table.symbol(i);
            proof {
                encode_utf8_decode_utf8(sym@);
            }
            ids.append("\"");
            ids.append(sym);
            ids.append("\"");
            assert(ids@ + product_list(t, i + 1) =~= before + product_list(t, i as int));
            i += 1;
        }
        assert(ids@ =~= product_list(t, 0));
        vec![
            "{\"type\":\"subscribe\",\"product_ids\":[".to_owned().concat(ids.as_str()).concat(
                "],\"channels\":[\"level2_batch\",\"matches\",\"heartbeat\"]}",
            ),
        ]
    }

    fn parse(
        &mut self,
        payload: &[u8],
        recv_mono_ns: u64,
        recv_wall_ns: u64,
        out: &mut Vec<Event>,
    ) -> (r: Result<Signal, CodecError>) {
        let start: usize = out.len();
        let ty: &[u8] = match fast::fast_type(&self.keys, payload) {
            Ok(s) => s,
            Err(e) => {
                return Err(e);
            },
        };
        let r: Result<Signal, CodecError> = if text::same_bytes(ty, "l2update".as_bytes()) {
            match fast::fast_l2update(
                &self.keys,
                &self.table,
                payload,
                recv_mono_ns,
                recv_wall_ns,
                out,
            ) {
                Ok(_) => Ok(Signal::Nothing),
                Err(e) => Err(e),
            }
        } else if text::same_bytes(ty, "match".as_bytes()) {
            match fast::fast_match(&self.keys, &self.table, payload, true) {
                Ok(m) => {
                    return Ok(self.emit_match(m, 1, recv_mono_ns, recv_wall_ns, out));
                },
                Err(e) => Err(e),
            }
        } else if text::same_bytes(ty, "last_match".as_bytes()) {
            match fast::fast_match(&self.keys, &self.table, payload, false) {
                Ok(m) => {
                    return Ok(self.emit_match(m, 1, recv_mono_ns, recv_wall_ns, out));
                },
                Err(e) => Err(e),
            }
        } else if text::same_bytes(ty, "heartbeat".as_bytes()) {
            match fast::fast_heartbeat(&self.keys, &self.table, payload) {
                Ok(h) => {
                    return Ok(self.emit_heartbeat(h, 1, recv_mono_ns, recv_wall_ns, out));
                },
                Err(e) => Err(e),
            }
        } else if text::same_bytes(ty, "snapshot".as_bytes()) {
            match fast::fast_snapshot(
                &self.keys,
                &self.table,
                payload,
                recv_mono_ns,
                recv_wall_ns,
                out,
            ) {
                Ok(_) => Ok(Signal::Nothing),
                Err(e) => Err(e),
            }
        } else if text::same_bytes(ty, "subscriptions".as_bytes()) || text::same_bytes(
            ty,
            "error".as_bytes(),
        ) {
            assert(out@ =~= old(out)@ + Seq::<Event>::empty());
            Ok(Signal::Control)
        } else {
            assert(out@ =~= old(out)@ + Seq::<Event>::empty());
            Ok(Signal::Ignored)
        };
        self.settle(r, 1, start, out);
        assert(r is Err ==> out@ =~= old(out)@);
        r
    }

    fn parse_slow(
        &mut self,
        payload: &[u8],
        recv_mono_ns: u64,
        recv_wall_ns: u64,
        out: &mut Vec<Event>,
    ) -> (r: Result<Signal, CodecError>) {
        match parse_json(payload) {
            Ok(doc) => self.parse_document(&doc, recv_mono_ns, recv_wall_ns, out),
            Err(_) => Err(CodecError::Structure("invalid json")),
        }
    }

    fn parse_rest_snapshot(
        &mut self,
        instrument: u32,
        body: &[u8],
        recv_mono_ns: u64,
        recv_wall_ns: u64,
        out: &mut Vec<Event>,
    ) -> (r: Result<Signal, CodecError>) {
        let start: usize = out.len();
        let r: Result<Signal, CodecError> = match fast::rest_snapshot(
            &self.keys,
            instrument,
            body,
            recv_mono_ns,
            recv_wall_ns,
            out,
        ) {
            Ok(_) => Ok(Signal::Nothing),
            Err(e) => Err(e),
        };
        self.settle(r, 0, start, out);
        assert(r is Err ==> out@ =~= old(out)@);
        r
    }

    fn stats(&self) -> (r: &CodecStats)
        ensures
            *r == self.stats_spec(),
    {
        &self.stats
    }
}

} // verus!
