//! Binance spot codec.
//!
//! Speaks the combined-stream endpoint (`/stream?streams=...`) with
//! `<sym>@depth@100ms` diff-depth updates and `<sym>@trade` trade prints,
//! wrapped in a `{"stream":...,"data":{...}}` envelope. Book sync follows
//! Binance's documented diff-depth protocol: a REST `/api/v3/depth` snapshot
//! (`lastUpdateId`) anchors a per-instrument synced state; diffs with
//! `u <= last_u` are stale duplicates, a diff whose `U` exceeds `last_u + 1`
//! is a sequence gap that forces a resync, and everything else (the
//! documented first-diff straddle of `lastUpdateId + 1` too) applies with
//! absolute-quantity semantics. While unsynced, the highest diff `u` is
//! tracked, and a snapshot older than that is rejected. A `serverShutdown`
//! event asks for a reconnect.
pub mod diff_wire;
pub mod fast;
pub mod msg;
pub mod slow;
pub mod wire;

use crate::codec;
use crate::codec::{CodecError, CodecStats, Signal, SymbolTable, VenueCodec};
use crate::emit;
use crate::emit::Stamp;
use crate::event::{flags, Event, EventKind, Venue};
use crate::json;
use crate::json::{parse_json, Json};
use crate::scan::Cursor;
use crate::strings;
use fast::Keys;
use msg::{Depth, DiffHead, Inst, TradeMsg};
use std::collections::HashMap;
use vstd::prelude::*;
use vstd::string::*;
use vstd::utf8::*;

verus! {

broadcast use vstd::std_specs::hash::group_hash_axioms;

/// The constants of one message's events.
pub(crate) fn make_stamp(
    instrument: u32,
    ts: u64,
    seq: u64,
    fl: u8,
    recv_mono_ns: u64,
    recv_wall_ns: u64,
) -> (r: Stamp)
    ensures
        r == msg::stamp(instrument, ts, seq, fl, recv_mono_ns, recv_wall_ns),
{
    Stamp {
        recv_mono_ns,
        recv_wall_ns,
        venue_ts_ns: ts,
        venue_seq: seq,
        instrument,
        venue: Venue::Binance,
        flags: fl,
    }
}

/// Milliseconds as nanoseconds, saturating.
pub(crate) fn to_ns(ms: u64) -> (r: u64)
    ensures
        r == msg::ms_to_ns(ms),
{
    match ms.checked_mul(1_000_000) {
        Some(ns) => ns,
        None => u64::MAX,
    }
}

/// Binance spot codec: combined-stream WS frames -> normalized events.
///
/// Stateful per instrument (depth sync + trade-id continuity); create one
/// per WS connection and a fresh one after reconnect.
#[derive(Debug)]
pub struct BinanceCodec {
    table: SymbolTable,
    stats: CodecStats,
    states: HashMap<u32, Inst>,
    keys: Keys,
}

/// The codec `post` is `pre` after an effect: its states and its counters are
/// those of the effect, with `fast` frames where it succeeded.
pub open spec fn follows(
    pre: BinanceCodec,
    fast: u64,
    e: msg::Effect,
    post: BinanceCodec,
) -> bool {
    &&& post.table_spec() == pre.table_spec()
    &&& post.states_spec() == e.states
    &&& post.stats_spec() == (match e.outcome {
        Ok(x) => pre.stats_spec().plus(fast, e.gaps, x.1.len() as u64),
        Err(_) => pre.stats_spec(),
    })
}

/// An instrument that nothing has been seen of.
pub open spec fn fresh() -> Inst {
    Inst { depth: Depth::Unsynced { mark: None }, last_trade: None }
}

/// `states` holds the instruments of the first `n` entries of `table`, all
/// of them fresh.
pub open spec fn all_fresh(states: Map<u32, Inst>, table: Seq<(Seq<u8>, u32)>, n: int) -> bool {
    &&& forall|i: int| 0 <= i < n ==> states.contains_key(#[trigger] table[i].1)
    &&& forall|id: u32| #[trigger]
        states.contains_key(id) ==> states[id] == fresh() && exists|i: int|
            0 <= i < n && (#[trigger] table[i]).1 == id
}

/// The lowercase form of `s`.
pub uninterp spec fn lowercase_of(s: Seq<char>) -> Seq<char>;

/// `str::to_lowercase`: the lowercase form of the text. Of ASCII text it is
/// that of each letter; of other text only its name is given, for it depends
/// on the text alone.
#[verifier::external_body]
fn to_lowercase(s: &str) -> (r: String)
    ensures
        r@ == lowercase_of(s@),
        is_ascii_chars(s@) ==> r@ == strings::lowered(s@),
{
    s.to_lowercase()
}

/// The stream names of the symbols of `table` from `k` on.
pub open spec fn stream_list(table: Seq<(Seq<u8>, u32)>, k: int) -> Seq<char>
    decreases table.len() - k,
{
    if !(0 <= k < table.len()) {
        Seq::empty()
    } else {
        let sym = lowercase_of(decode_utf8(table[k].0));
        (if k > 0 {
            "/"@
        } else {
            Seq::empty()
        }) + sym + "@depth@100ms/"@ + sym + "@trade"@ + stream_list(table, k + 1)
    }
}

impl BinanceCodec {
    /// The subscribed symbols.
    pub closed spec fn table_spec(&self) -> Seq<(Seq<u8>, u32)> {
        self.table@
    }

    /// The counters.
    pub closed spec fn stats_spec(&self) -> CodecStats {
        self.stats
    }

    /// The state of each instrument.
    pub closed spec fn states_spec(&self) -> Map<u32, Inst> {
        self.states@
    }

    /// The searchers are those of the codec.
    pub closed spec fn searchers(&self) -> bool {
        self.keys.wf()
    }

    /// New codec over `table` (venue symbols are UPPERCASE, e.g. `BTCUSDT`,
    /// matching the `"s"` field).
    pub fn new(table: SymbolTable) -> (r: Self)
        ensures
            r.searchers(),
            r.table_spec() == table@,
            r.stats_spec() == CodecStats::zero(),
            all_fresh(r.states_spec(), table@, table@.len() as int),
    {
        let mut states: HashMap<u32, Inst> = HashMap::new();
        let pairs: Vec<(&[u8], u32)> = table.iter();
        let mut i: usize = 0;
        while i < pairs.len()
            invariant
                i <= pairs@.len(),
                pairs@.len() == table@.len(),
                forall|k: int|
                    0 <= k < pairs@.len() ==> (#[trigger] pairs@[k]).1 == table@[k].1,
                all_fresh(states@, table@, i as int),
            decreases pairs@.len() - i,
        {
            let id: u32 = pairs[i].1;
            let ghost before = states@;
            states.insert(id, Inst { depth: Depth::Unsynced { mark: None }, last_trade: None });
            assert(table@[i as int].1 == id);
            assert forall|k: u32| #[trigger] states@.contains_key(k) implies states@[k] == fresh()
                && exists|j: int| 0 <= j < i + 1 && (#[trigger] table@[j]).1 == k by {
                if k != id {
                    assert(before.contains_key(k));
                }
            }
            i += 1;
        }
        BinanceCodec { table, stats: CodecStats::default(), states, keys: Keys::new() }
    }

    /// Shared depth decision: the events for this diff were already appended
    /// to `out` from `start` on; keep, drop, or replace them with a Gap
    /// according to the sync state machine. `fast` frames are counted.
    fn finish_depth(
        &mut self,
        h: DiffHead,
        fast: u64,
        recv_mono_ns: u64,
        recv_wall_ns: u64,
        out: &mut Vec<Event>,
        start: usize,
    ) -> (r: Result<Signal, CodecError>)
        requires
            old(self).searchers(),
            start <= old(out)@.len(),
        ensures
            final(self).searchers(),
            forall|bids: Seq<(i64, i64)>, asks: Seq<(i64, i64)>|
                old(out)@ == old(out)@.take(start as int) + #[trigger] msg::diff_events(
                    h,
                    bids,
                    asks,
                    recv_mono_ns,
                    recv_wall_ns,
                ) ==> ({
                    let e = msg::diff_effect(
                        h,
                        bids,
                        asks,
                        old(self).states_spec(),
                        recv_mono_ns,
                        recv_wall_ns,
                    );
                    &&& codec::delivers(
                        e.outcome,
                        old(out)@.take(start as int),
                        final(out)@,
                        r,
                    )
                    &&& follows(*old(self), fast, e, *final(self))
                }),
    {
        let ghost before = out@.take(start as int);
        let mut inst: Inst = match self.states.get(&h.instrument) {
            Some(i) => *i,
            None => {
                out.truncate(start);
                assert(out@ =~= before);
                return Err(CodecError::UnknownInstrument);
            },
        };
        let r: Signal = match inst.depth {
            Depth::Unsynced { mark } => {
                // Fully validated but not applied: replay re-runs this same
                // state machine, so dropping pre-snapshot diffs is
                // deterministic.
                let next: u64 = match mark {
                    Some(m) => if m >= h.final_u {
                        m
                    } else {
                        h.final_u
                    },
                    None => h.final_u,
                };
                inst.depth = Depth::Unsynced { mark: Some(next) };
                out.truncate(start);
                self.stats.count(fast, 0, 0);
                assert(out@ =~= before + Seq::<Event>::empty());
                Signal::Nothing
            },
            Depth::Synced { last_u } => if h.final_u <= last_u {
                // Stale duplicate (covers pre-snapshot diffs after a REST
                // resync).
                out.truncate(start);
                self.stats.count(fast, 0, 0);
                assert(out@ =~= before + Seq::<Event>::empty());
                Signal::Nothing
            } else if h.first_u > last_u && h.first_u - last_u > 1 {
                // Sequence gap: never apply across it.
                let stamp: Stamp = make_stamp(
                    h.instrument,
                    h.ts,
                    h.final_u,
                    0,
                    recv_mono_ns,
                    recv_wall_ns,
                );
                out.truncate(start);
                out.push(stamp.ev(EventKind::Gap, 0, 0, h.first_u - last_u - 1));
                inst.depth = Depth::Unsynced { mark: Some(h.final_u) };
                self.stats.count(fast, 1, 1);
                assert(out@ =~= before + seq![
                    stamp.ev_spec(EventKind::Gap, 0, 0, (h.first_u - last_u - 1) as u64),
                ]);
                Signal::NeedResync { instrument: h.instrument }
            } else {
                // U <= last_u + 1 <= u: applies (covers the documented
                // first-diff straddle of lastUpdateId + 1).
                inst.depth = Depth::Synced { last_u: h.final_u };
                self.stats.count(fast, 0, (out.len() - start) as u64);
                Signal::Nothing
            },
        };
        self.states.insert(h.instrument, inst);
        Ok(r)
    }

    /// Shared trade emission: trade-id continuity Gap (no resync) + Trade.
    /// `fast` frames are counted.
    fn finish_trade(
        &mut self,
        t: TradeMsg,
        fast: u64,
        recv_mono_ns: u64,
        recv_wall_ns: u64,
        out: &mut Vec<Event>,
    ) -> (r: Result<Signal, CodecError>)
        requires
            old(self).searchers(),
        ensures
            final(self).searchers(),
            ({
                let e = msg::trade_effect(
                    t,
                    old(self).states_spec(),
                    recv_mono_ns,
                    recv_wall_ns,
                );
                &&& codec::delivers(e.outcome, old(out)@, final(out)@, r)
                &&& follows(*old(self), fast, e, *final(self))
            }),
    {
        let mut inst: Inst = match self.states.get(&t.instrument) {
            Some(i) => *i,
            None => {
                return Err(CodecError::UnknownInstrument);
            },
        };
        let fl: u8 = if t.taker_sell {
            flags::TAKER_SELL
        } else {
            0
        };
        let stamp: Stamp = make_stamp(t.instrument, t.ts, t.id, fl, recv_mono_ns, recv_wall_ns);
        let missed: Option<u64> = match inst.last_trade {
            Some(prev) => if t.id > prev && t.id - prev > 1 {
                Some(t.id - prev - 1)
            } else {
                None
            },
            None => None,
        };
        match missed {
            Some(n) => {
                let gap: Stamp = make_stamp(
                    t.instrument,
                    t.ts,
                    t.id,
                    0,
                    recv_mono_ns,
                    recv_wall_ns,
                );
                out.push(gap.ev(EventKind::Gap, 0, 0, n));
                out.push(stamp.ev(EventKind::Trade, t.price, t.qty, t.id));
                self.stats.count(fast, 1, 2);
                assert(out@ =~= old(out)@ + seq![
                    gap.ev_spec(EventKind::Gap, 0, 0, n),
                    stamp.ev_spec(EventKind::Trade, t.price, t.qty, t.id),
                ]);
            },
            None => {
                out.push(stamp.ev(EventKind::Trade, t.price, t.qty, t.id));
                self.stats.count(fast, 0, 1);
                assert(out@ =~= old(out)@ + seq![
                    stamp.ev_spec(EventKind::Trade, t.price, t.qty, t.id),
                ]);
            },
        }
        inst.last_trade = Some(t.id);
        self.states.insert(t.instrument, inst);
        Ok(Signal::Nothing)
    }

    /// Read the depth diff or trade in the `data` member of a frame.
    fn parse_data(
        &mut self,
        data: &Json,
        recv_mono_ns: u64,
        recv_wall_ns: u64,
        out: &mut Vec<Event>,
    ) -> (r: Result<Signal, CodecError>)
        requires
            old(self).searchers(),
        ensures
            final(self).searchers(),
            ({
                let m = match json::str_member(data.view(), "e"@) {
                    None => Ok(msg::Msg::Ignored),
                    Some(e) => slow::data_msg(e, data.view(), old(self).table_spec()),
                };
                let e = msg::effect(m, old(self).states_spec(), recv_mono_ns, recv_wall_ns);
                &&& codec::delivers(e.outcome, old(out)@, final(out)@, r)
                &&& follows(*old(self), 0, e, *final(self))
            }),
    {
        let start: usize = out.len();
        let e: &str = match data.get_str("e") {
            Some(e) => e,
            None => {
                self.stats.count(0, 0, 0);
                assert(out@ =~= old(out)@ + Seq::<Event>::empty());
                return Ok(Signal::Ignored);
            },
        };
        if json::same_str(e, "depthUpdate") {
            let h: DiffHead = match slow::slow_depth(
                data,
                &self.table,
                recv_mono_ns,
                recv_wall_ns,
                out,
            ) {
                Ok(h) => h,
                Err(e) => {
                    out.truncate(start);
                    assert(out@ =~= old(out)@);
                    return Err(e);
                },
            };
            assert(out@.take(start as int) =~= old(out)@);
            return self.finish_depth(h, 0, recv_mono_ns, recv_wall_ns, out, start);
        }
        if json::same_str(e, "trade") {
            return match slow::slow_trade(data, &self.table) {
                Ok(t) => self.finish_trade(t, 0, recv_mono_ns, recv_wall_ns, out),
                Err(e) => Err(e),
            };
        }
        self.stats.count(0, 0, 0);
        assert(out@ =~= old(out)@ + Seq::<Event>::empty());
        if json::same_str(e, "serverShutdown") {
            Ok(Signal::Reconnect)
        } else {
            Ok(Signal::Ignored)
        }
    }

    /// Read the message with the document `doc`.
    pub fn parse_document(
        &mut self,
        doc: &Json,
        recv_mono_ns: u64,
        recv_wall_ns: u64,
        out: &mut Vec<Event>,
    ) -> (r: Result<Signal, CodecError>)
        requires
            old(self).wf(),
        ensures
            final(self).wf(),
            ({
                let e = msg::effect(
                    slow::doc_msg(doc.view(), old(self).table_spec()),
                    old(self).states_spec(),
                    recv_mono_ns,
                    recv_wall_ns,
                );
                &&& codec::delivers(e.outcome, old(out)@, final(out)@, r)
                &&& follows(*old(self), 0, e, *final(self))
            }),
    {
        if doc.as_obj().is_none() {
            return Err(CodecError::Structure("slow: not an object"));
        }
        match doc.get("result") {
            Some(Json::Null) => {
                if doc.get_u64("id").is_some() {
                    self.stats.count(0, 0, 0);
                    assert(out@ =~= old(out)@ + Seq::<Event>::empty());
                    return Ok(Signal::Control);
                }
                return Err(CodecError::Structure("slow: control shape"));
            },
            Some(_) => {
                return Err(CodecError::Structure("slow: control shape"));
            },
            None => {},
        }
        if doc.get_str("stream").is_none() {
            return Err(CodecError::Structure("slow: no stream"));
        }
        match doc.get("data") {
            Some(data) => {
                if data.as_obj().is_none() {
                    return Err(CodecError::Structure("slow: no data"));
                }
                self.parse_data(data, recv_mono_ns, recv_wall_ns, out)
            },
            None => Err(CodecError::Structure("slow: no data")),
        }
    }

    /// Take the REST `/api/v3/depth` document `doc` as a snapshot of
    /// `instrument`: a snapshot event run and a new anchor.
    pub fn parse_snapshot_document(
        &mut self,
        instrument: u32,
        doc: &Json,
        recv_mono_ns: u64,
        recv_wall_ns: u64,
        out: &mut Vec<Event>,
    ) -> (r: Result<Signal, CodecError>)
        requires
            old(self).wf(),
        ensures
            final(self).wf(),
            ({
                let e = msg::snapshot_effect(
                    instrument,
                    slow::snapshot_doc(doc.view(), old(self).states_spec()[instrument].depth),
                    old(self).states_spec(),
                    recv_mono_ns,
                    recv_wall_ns,
                );
                &&& codec::delivers(e.outcome, old(out)@, final(out)@, r)
                &&& follows(*old(self), 0, e, *final(self))
            }),
    {
        let start: usize = out.len();
        let mut inst: Inst = match self.states.get(&instrument) {
            Some(i) => *i,
            None => {
                return Err(CodecError::UnknownInstrument);
            },
        };
        let last_update_id: u64 = match doc.get_u64("lastUpdateId") {
            Some(v) => v,
            None => {
                return Err(CodecError::Structure("snapshot: lastUpdateId"));
            },
        };
        let bids: &Vec<Json> = match doc.get_arr("bids") {
            Some(a) => a,
            None => {
                return Err(CodecError::Structure("snapshot: bids"));
            },
        };
        let asks: &Vec<Json> = match doc.get_arr("asks") {
            Some(a) => a,
            None => {
                return Err(CodecError::Structure("snapshot: asks"));
            },
        };
        if let Depth::Unsynced { mark: Some(m) } = inst.depth {
            if last_update_id < m {
                return Err(CodecError::Structure("stale rest snapshot"));
            }
        }
        assert(flags::FROM_SNAPSHOT | flags::SYNTHETIC == 6) by (bit_vector);
        let stamp: Stamp = make_stamp(
            instrument,
            0,
            last_update_id,
            flags::FROM_SNAPSHOT | flags::SYNTHETIC,
            recv_mono_ns,
            recv_wall_ns,
        );
        let n: u64 = (bids.len() as u128 + asks.len() as u128) as u64;
        out.push(stamp.ev(EventKind::Clear, 0, 0, 0));
        out.push(stamp.ev(EventKind::SnapBegin, 0, 0, n));
        match slow::slow_levels(bids, stamp, EventKind::SnapBid, out) {
            Ok(_) => {},
            Err(e) => {
                out.truncate(start);
                assert(out@ =~= old(out)@);
                return Err(e);
            },
        }
        match slow::slow_levels(asks, stamp, EventKind::SnapAsk, out) {
            Ok(_) => {},
            Err(e) => {
                out.truncate(start);
                assert(out@ =~= old(out)@);
                return Err(e);
            },
        }
        out.push(stamp.ev(EventKind::SnapEnd, 0, 0, 0));
        proof {
            let lb = slow::level_values(json::views(bids@), 0, Seq::empty())->Ok_0;
            let la = slow::level_values(json::views(asks@), 0, Seq::empty())->Ok_0;
            assert(out@ =~= old(out)@ + emit::snapshot_events(stamp, lb, la, 0));
        }
        self.stats.count(0, 0, (out.len() - start) as u64);
        inst.depth = Depth::Synced { last_u: last_update_id };
        self.states.insert(instrument, inst);
        Ok(Signal::Nothing)
    }
}

/// The two paths differ in nothing but how they read a payload. Where both
/// read the same message in it, a codec that takes the fast path and one in
/// the same state that takes the slow path return the same result, append the
/// same events and are in the same state again.
pub proof fn lemma_paths_agree(
    a: BinanceCodec,
    b: BinanceCodec,
    payload: Seq<u8>,
    recv_mono_ns: u64,
    recv_wall_ns: u64,
    before_a: Seq<Event>,
    before_b: Seq<Event>,
    a1: BinanceCodec,
    b1: BinanceCodec,
    after_a: Seq<Event>,
    after_b: Seq<Event>,
    ra: Result<Signal, CodecError>,
    rb: Result<Signal, CodecError>,
)
    requires
        a.table_spec() == b.table_spec(),
        a.states_spec() == b.states_spec(),
        fast::fast_msg(payload, a.table_spec()) == slow::slow_msg(payload, a.table_spec()),
        a.may_parse(payload, recv_mono_ns, recv_wall_ns, before_a, a1, after_a, ra),
        b.may_parse_slow(payload, recv_mono_ns, recv_wall_ns, before_b, b1, after_b, rb),
    ensures
        ra == rb,
        after_a.skip(before_a.len() as int) == after_b.skip(before_b.len() as int),
        a1.table_spec() == b1.table_spec(),
        a1.states_spec() == b1.states_spec(),
{
    codec::lemma_delivered_alike(fast_outcome(a, payload, recv_mono_ns, recv_wall_ns), before_a, after_a, ra);
    codec::lemma_delivered_alike(fast_outcome(a, payload, recv_mono_ns, recv_wall_ns), before_b, after_b, rb);
}

/// A replay is deterministic: two codecs in the same state that parse the
/// same payload return the same result, append the same events and are in the
/// same state again.
pub proof fn lemma_replay_is_determined(
    a: BinanceCodec,
    b: BinanceCodec,
    payload: Seq<u8>,
    recv_mono_ns: u64,
    recv_wall_ns: u64,
    before_a: Seq<Event>,
    before_b: Seq<Event>,
    a1: BinanceCodec,
    b1: BinanceCodec,
    after_a: Seq<Event>,
    after_b: Seq<Event>,
    ra: Result<Signal, CodecError>,
    rb: Result<Signal, CodecError>,
)
    requires
        a.table_spec() == b.table_spec(),
        a.states_spec() == b.states_spec(),
        a.stats_spec() == b.stats_spec(),
        a.may_parse(payload, recv_mono_ns, recv_wall_ns, before_a, a1, after_a, ra),
        b.may_parse(payload, recv_mono_ns, recv_wall_ns, before_b, b1, after_b, rb),
    ensures
        ra == rb,
        after_a.skip(before_a.len() as int) == after_b.skip(before_b.len() as int),
        a1.table_spec() == b1.table_spec(),
        a1.states_spec() == b1.states_spec(),
        a1.stats_spec() == b1.stats_spec(),
{
    codec::lemma_delivered_alike(fast_outcome(a, payload, recv_mono_ns, recv_wall_ns), before_a, after_a, ra);
    codec::lemma_delivered_alike(fast_outcome(a, payload, recv_mono_ns, recv_wall_ns), before_b, after_b, rb);
}

/// What the fast path makes of a payload.
pub open spec fn fast_outcome(
    c: BinanceCodec,
    payload: Seq<u8>,
    recv_mono_ns: u64,
    recv_wall_ns: u64,
) -> codec::Outcome {
    msg::effect(
        fast::fast_msg(payload, c.table_spec()),
        c.states_spec(),
        recv_mono_ns,
        recv_wall_ns,
    ).outcome
}

impl VenueCodec for BinanceCodec {
    open spec fn wf(&self) -> bool {
        self.searchers()
    }

    open spec fn may_parse(
        &self,
        payload: Seq<u8>,
        recv_mono_ns: u64,
        recv_wall_ns: u64,
        before: Seq<Event>,
        post: Self,
        after: Seq<Event>,
        r: Result<Signal, CodecError>,
    ) -> bool {
        let e = msg::effect(
            fast::fast_msg(payload, self.table_spec()),
            self.states_spec(),
            recv_mono_ns,
            recv_wall_ns,
        );
        codec::delivers(e.outcome, before, after, r) && follows(*self, 1, e, post)
    }

    open spec fn may_parse_slow(
        &self,
        payload: Seq<u8>,
        recv_mono_ns: u64,
        recv_wall_ns: u64,
        before: Seq<Event>,
        post: Self,
        after: Seq<Event>,
        r: Result<Signal, CodecError>,
    ) -> bool {
        let e = msg::effect(
            slow::slow_msg(payload, self.table_spec()),
            self.states_spec(),
            recv_mono_ns,
            recv_wall_ns,
        );
        codec::delivers(e.outcome, before, after, r) && follows(*self, 0, e, post)
    }

    open spec fn may_parse_rest(
        &self,
        instrument: u32,
        body: Seq<u8>,
        recv_mono_ns: u64,
        recv_wall_ns: u64,
        before: Seq<Event>,
        post: Self,
        after: Seq<Event>,
        r: Result<Signal, CodecError>,
    ) -> bool {
        let e = msg::snapshot_effect(
            instrument,
            slow::snapshot_body(body, self.states_spec()[instrument].depth),
            self.states_spec(),
            recv_mono_ns,
            recv_wall_ns,
        );
        codec::delivers(e.outcome, before, after, r) && follows(*self, 0, e, post)
    }

    fn venue(&self) -> (r: Venue)
        ensures
            r == Venue::Binance,
    {
        Venue::Binance
    }

    fn ws_url(&self) -> (r: String)
        ensures
            r@ == "wss://stream.binance.com:9443/stream?streams="@ + stream_list(
                self.table_spec(),
                0,
            ),
    {
        let mut out: String = "wss://stream.binance.com:9443/stream?streams=".to_owned();
        let ghost t = self.table_spec();
        let ghost all = out@ + stream_list(t, 0);
        let mut i: usize = 0;
        while i < self.table.len()
            invariant
                i <= t.len(),
                t == self.table@,
                out@ + stream_list(t, i as int) == all,
            decreases t.len() - i,
        {
            let ghost before = out@;
            if i > 0 {
                out.append("/");
            }
            let sym: &str = self.table.symbol(i);
            proof {
                encode_utf8_decode_utf8(sym@);
            }
            let low: String = to_lowercase(sym);
            out.append(low.as_str());
            out.append("@depth@100ms/");
            out.append(low.as_str());
            out.append("@trade");
            assert(out@ + stream_list(t, i + 1) =~= before + stream_list(t, i as int));
            i += 1;
        }
        assert(out@ =~= all);
        out
    }

    fn subscribe_messages(&self) -> (r: Vec<String>)
        ensures
            r@.len() == 0,
    {
        Vec::new()
    }

    fn parse(
        &mut self,
        payload: &[u8],
        recv_mono_ns: u64,
        recv_wall_ns: u64,
        out: &mut Vec<Event>,
    ) -> (r: Result<Signal, CodecError>) {
        let start: usize = out.len();
        let mut c = Cursor::new(payload);
        match fast::fast_envelope(&mut c, &self.keys) {
            Err(e) => {
                return Err(e);
            },
            Ok(true) => {
                self.stats.count(1, 0, 0);
                assert(out@ =~= old(out)@ + Seq::<Event>::empty());
                return Ok(Signal::Control);
            },
            Ok(false) => {},
        }
        if c.looking_at("depthUpdate\"".as_bytes()) {
            let h: DiffHead = match fast::fast_depth(
                &mut c,
                &self.keys,
                &self.table,
                recv_mono_ns,
                recv_wall_ns,
                out,
            ) {
                Ok(h) => h,
                Err(e) => {
                    out.truncate(start);
                    assert(out@ =~= old(out)@);
                    return Err(e);
                },
            };
            assert(out@.take(start as int) =~= old(out)@);
            let r: Result<Signal, CodecError> = self.finish_depth(
                h,
                1,
                recv_mono_ns,
                recv_wall_ns,
                out,
                start,
            );
            return r;
        }
        if c.looking_at("trade\"".as_bytes()) {
            return match fast::fast_trade(&mut c, &self.keys, &self.table) {
                Ok(t) => self.finish_trade(t, 1, recv_mono_ns, recv_wall_ns, out),
                Err(e) => Err(e),
            };
        }
        self.stats.count(1, 0, 0);
        assert(out@ =~= old(out)@ + Seq::<Event>::empty());
        if c.looking_at("serverShutdown\"".as_bytes()) {
            Ok(Signal::Reconnect)
        } else {
            // Recognized envelope, event type we don't handle.
            Ok(Signal::Ignored)
        }
    }

    fn parse_slow(
        &mut self,
        payload: &[u8],
        recv_mono_ns: u64,
        recv_wall_ns: u64,
        out: &mut Vec<Event>,
    ) -> (r: Result<Signal, CodecError>) {
        match parse_json(payload) {
            Ok(doc) => self.parse_document(&doc, recv_mono_ns, recv_wall_ns, out),
            Err(_) => Err(CodecError::Structure("slow: invalid json")),
        }
    }

    fn parse_rest_snapshot(
        &mut self,
        instrument: u32,
        body: &[u8],
        recv_mono_ns: u64,
        recv_wall_ns: u64,
        out: &mut Vec<Event>,
    ) -> (r: Result<Signal, CodecError>) {
        if self.states.get(&instrument).is_none() {
            return Err(CodecError::UnknownInstrument);
        }
        match parse_json(body) {
            Ok(doc) => self.parse_snapshot_document(
                instrument,
                &doc,
                recv_mono_ns,
                recv_wall_ns,
                out,
            ),
            Err(_) => Err(CodecError::Structure("snapshot: invalid json")),
        }
    }

    fn stats(&self) -> (r: &CodecStats)
        ensures
            *r == self.stats_spec(),
    {
        &self.stats
    }
}

} // verus!
