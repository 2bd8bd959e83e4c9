//! Laws of the Binance codec.
use crate::binance::msg;
use crate::binance::msg::{Depth, DiffHead, Inst, Snapshot, TradeMsg};
use crate::codec::{CodecError, Signal};
use crate::emit;
use crate::event::{Event, EventKind};
use vstd::prelude::*;

verus! {

/// Where an instrument's last trade id was `p`, the events of a trade `t`
/// start with a `Gap` if and only if `t > p + 1`, and the gap says how many
/// ids lie between them: `t - p - 1`. The first trade seen is never a gap.
/// The trade itself always comes last, and it never asks for a resync.
pub proof fn lemma_trade_gap(
    t: TradeMsg,
    states: Map<u32, Inst>,
    recv_mono_ns: u64,
    recv_wall_ns: u64,
)
    requires
        states.contains_key(t.instrument),
    ensures
        ({
            let e = msg::trade_effect(t, states, recv_mono_ns, recv_wall_ns);
            let evs = e.outcome->Ok_0.1;
            let last = states[t.instrument].last_trade;
            let gap = last matches Some(p) && t.id > p + 1;
            &&& e.outcome is Ok
            &&& e.outcome->Ok_0.0 == Signal::Nothing
            &&& evs.len() == (if gap {
                2nat
            } else {
                1nat
            })
            &&& (gap <==> evs[0].kind == EventKind::Gap.code_spec())
            &&& gap ==> evs[0].aux == t.id - last->0 - 1 && evs[0].venue_seq == t.id
                && evs[0].venue_ts_ns == t.ts && evs[0].instrument == t.instrument && evs[0].price
                == 0 && evs[0].qty == 0 && evs[0].flags == 0 && evs[0].venue == 2
                && evs[0].recv_mono_ns == recv_mono_ns && evs[0].recv_wall_ns == recv_wall_ns
            &&& e.gaps == (if gap {
                1int
            } else {
                0
            })
            &&& evs.last().kind == EventKind::Trade.code_spec()
            &&& evs.last().price == t.price
            &&& evs.last().qty == t.qty
            &&& evs.last().aux == t.id
            &&& evs.last().venue_seq == t.id
            &&& evs.last().venue_ts_ns == t.ts
            &&& evs.last().instrument == t.instrument
            &&& evs.last().venue == 2
            &&& evs.last().flags == (if t.taker_sell {
                1u8
            } else {
                0u8
            })
            &&& evs.last().recv_mono_ns == recv_mono_ns
            &&& evs.last().recv_wall_ns == recv_wall_ns
        }),
{
}

/// Behind a trade its id is the instrument's last one, whatever it was
/// before, and neither the sync state nor any other instrument is touched.
pub proof fn lemma_trade_noted(
    t: TradeMsg,
    states: Map<u32, Inst>,
    other: u32,
    recv_mono_ns: u64,
    recv_wall_ns: u64,
)
    requires
        states.contains_key(t.instrument),
    ensures
        ({
            let e = msg::trade_effect(t, states, recv_mono_ns, recv_wall_ns);
            &&& e.states.contains_key(t.instrument)
            &&& e.states[t.instrument].last_trade == Some(t.id)
            &&& e.states[t.instrument].depth == states[t.instrument].depth
            &&& e.states.contains_key(other) == states.contains_key(other)
            &&& other != t.instrument ==> e.states[other] == states[other]
        }),
{
}

/// Of two trades in a row, the second shows a gap exactly where its id jumps
/// past the successor of the first one's, and then it tells the ids between.
pub proof fn lemma_trades_in_a_row(
    t: TradeMsg,
    u: TradeMsg,
    states: Map<u32, Inst>,
    recv_mono_ns: u64,
    recv_wall_ns: u64,
)
    requires
        states.contains_key(t.instrument),
        u.instrument == t.instrument,
    ensures
        ({
            let s = msg::trade_effect(t, states, recv_mono_ns, recv_wall_ns).states;
            let e = msg::trade_effect(u, s, recv_mono_ns, recv_wall_ns);
            &&& e.gaps == 1 <==> u.id > t.id + 1
            &&& e.gaps == 0 <==> u.id <= t.id + 1
            &&& u.id > t.id + 1 ==> e.outcome->Ok_0.1[0].aux + 1 == u.id - t.id
        }),
{
}

/// A message about an instrument that is not known is an error and changes
/// nothing.
pub proof fn lemma_unknown_instrument(
    h: DiffHead,
    t: TradeMsg,
    s: Result<Snapshot, CodecError>,
    bids: Seq<(i64, i64)>,
    asks: Seq<(i64, i64)>,
    states: Map<u32, Inst>,
    recv_mono_ns: u64,
    recv_wall_ns: u64,
)
    requires
        !states.contains_key(h.instrument),
        !states.contains_key(t.instrument),
    ensures
        ({
            let d = msg::diff_effect(h, bids, asks, states, recv_mono_ns, recv_wall_ns);
            let e = msg::trade_effect(t, states, recv_mono_ns, recv_wall_ns);
            let f = msg::snapshot_effect(h.instrument, s, states, recv_mono_ns, recv_wall_ns);
            &&& d.outcome == Err::<(Signal, Seq<Event>), CodecError>(CodecError::UnknownInstrument)
            &&& e.outcome == Err::<(Signal, Seq<Event>), CodecError>(CodecError::UnknownInstrument)
            &&& f.outcome == Err::<(Signal, Seq<Event>), CodecError>(CodecError::UnknownInstrument)
            &&& d.states == states && e.states == states && f.states == states
            &&& d.gaps == 0 && e.gaps == 0 && f.gaps == 0
        }),
{
}

/// A diff `first..=final` applies exactly where its instrument is synced and
/// the successor of the last applied update lies in it. Then every level of
/// the diff comes out in order, bids first, and its final update id is the
/// new anchor. Where it does not apply no level comes out.
pub proof fn lemma_diff_applies(
    h: DiffHead,
    bids: Seq<(i64, i64)>,
    asks: Seq<(i64, i64)>,
    states: Map<u32, Inst>,
    recv_mono_ns: u64,
    recv_wall_ns: u64,
    i: int,
)
    requires
        states.contains_key(h.instrument),
    ensures
        ({
            let e = msg::diff_effect(h, bids, asks, states, recv_mono_ns, recv_wall_ns);
            let evs = e.outcome->Ok_0.1;
            let d = states[h.instrument].depth;
            let next = e.states[h.instrument].depth;
            let applies = d matches Depth::Synced { last_u } && h.first_u <= last_u + 1
                <= h.final_u;
            &&& e.outcome is Ok
            &&& e.states.contains_key(h.instrument)
            &&& e.states[h.instrument].last_trade == states[h.instrument].last_trade
            &&& applies ==> {
                &&& e.outcome->Ok_0.0 == Signal::Nothing
                &&& e.gaps == 0
                &&& next == (Depth::Synced { last_u: h.final_u })
                &&& evs.len() == bids.len() + asks.len()
                &&& 0 <= i < bids.len() ==> evs[i].kind == 1 && evs[i].price == bids[i].0
                    && evs[i].qty == bids[i].1
                &&& 0 <= i < asks.len() ==> evs[bids.len() + i].kind == 2 && evs[bids.len()
                    + i].price == asks[i].0 && evs[bids.len() + i].qty == asks[i].1
                &&& 0 <= i < evs.len() ==> evs[i].instrument == h.instrument && evs[i].venue_seq
                    == h.final_u && evs[i].venue_ts_ns == h.ts && evs[i].venue == 2
                    && evs[i].flags == 0 && evs[i].aux == 0 && evs[i].recv_mono_ns
                    == recv_mono_ns && evs[i].recv_wall_ns == recv_wall_ns
            }
            &&& !applies ==> (0 <= i < evs.len() ==> evs[i].kind == 10)
        }),
{
    let b = emit::level_events(
        msg::stamp(h.instrument, h.ts, h.final_u, 0, recv_mono_ns, recv_wall_ns),
        EventKind::BidSet,
        bids,
    );
    let e = msg::diff_effect(h, bids, asks, states, recv_mono_ns, recv_wall_ns);
    if 0 <= i < b.len() && msg::verdict(
        states[h.instrument].depth,
        h.first_u,
        h.final_u,
    ) is Applies {
        assert(e.outcome->Ok_0.1[i] == b[i]);
    }
}

/// What a diff that does not apply leaves: a duplicate leaves the state as it
/// is; behind a gap the instrument is unsynced and remembers the diff; an
/// unsynced instrument remembers the highest final update id of them all.
pub proof fn lemma_diff_not_applied(
    h: DiffHead,
    bids: Seq<(i64, i64)>,
    asks: Seq<(i64, i64)>,
    states: Map<u32, Inst>,
    recv_mono_ns: u64,
    recv_wall_ns: u64,
)
    requires
        states.contains_key(h.instrument),
    ensures
        ({
            let e = msg::diff_effect(h, bids, asks, states, recv_mono_ns, recv_wall_ns);
            let next = e.states[h.instrument].depth;
            match states[h.instrument].depth {
                Depth::Synced { last_u } => {
                    &&& h.final_u <= last_u ==> next == (Depth::Synced { last_u }) && e.gaps == 0
                        && e.outcome->Ok_0.1.len() == 0 && e.outcome->Ok_0.0 == Signal::Nothing
                    &&& h.first_u > last_u + 1 && h.final_u > last_u ==> next == (
                    Depth::Unsynced { mark: Some(h.final_u) }) && e.gaps == 1
                        && e.outcome->Ok_0.0 == (Signal::NeedResync { instrument: h.instrument })
                        && e.outcome->Ok_0.1[0].venue_seq == h.final_u
                        && e.outcome->Ok_0.1[0].venue_ts_ns == h.ts
                        && e.outcome->Ok_0.1[0].instrument == h.instrument
                        && e.outcome->Ok_0.1[0].price == 0 && e.outcome->Ok_0.1[0].qty == 0
                        && e.outcome->Ok_0.1[0].flags == 0 && e.outcome->Ok_0.1[0].venue == 2
                        && e.outcome->Ok_0.1[0].recv_mono_ns == recv_mono_ns
                        && e.outcome->Ok_0.1[0].recv_wall_ns == recv_wall_ns
                },
                Depth::Unsynced { mark } => next matches Depth::Unsynced { mark: Some(k) }
                    && e.gaps == 0 && k >= h.final_u && (mark matches Some(m) ==> k >= m) && (k
                    == h.final_u || mark == Some(k)),
            }
        }),
{
}

/// A snapshot syncs its instrument at its own update id, and comes out as a
/// snapshot bracket of all its levels, marked as synthetic.
pub proof fn lemma_snapshot_anchors(
    instrument: u32,
    s: Snapshot,
    states: Map<u32, Inst>,
    other: u32,
    recv_mono_ns: u64,
    recv_wall_ns: u64,
)
    requires
        states.contains_key(instrument),
        s.bids.len() + s.asks.len() <= u64::MAX,
    ensures
        ({
            let e = msg::snapshot_effect(instrument, Ok(s), states, recv_mono_ns, recv_wall_ns);
            let evs = e.outcome->Ok_0.1;
            let n = s.bids.len() + s.asks.len();
            &&& e.outcome is Ok
            &&& e.outcome->Ok_0.0 == Signal::Nothing
            &&& e.gaps == 0
            &&& e.states[instrument].depth == (Depth::Synced { last_u: s.last_update_id })
            &&& e.states[instrument].last_trade == states[instrument].last_trade
            &&& other != instrument ==> e.states.contains_key(other) == states.contains_key(other)
                && e.states[other] == states[other]
            &&& evs.len() == n + 3
            &&& evs[0].kind == 11
            &&& evs[1].kind == 4 && evs[1].aux == n
            &&& evs[(n + 2) as int].kind == 7 && evs[(n + 2) as int].aux == 0
            &&& forall|i: int|
                0 <= i < evs.len() ==> (#[trigger] evs[i]).flags == 6 && evs[i].venue_seq
                    == s.last_update_id && evs[i].instrument == instrument && evs[i].venue == 2
                    && evs[i].venue_ts_ns == 0
            &&& forall|i: int|
                0 <= i < s.bids.len() ==> evs[2 + i].kind == 5 && (evs[2 + i].price, evs[2 + i].qty)
                    == #[trigger] s.bids[i]
            &&& forall|i: int|
                0 <= i < s.asks.len() ==> evs[2 + s.bids.len() + i].kind == 6 && (
                evs[2 + s.bids.len() + i].price, evs[2 + s.bids.len() + i].qty)
                    == #[trigger] s.asks[i]
        }),
{
    let st = msg::stamp(instrument, 0, s.last_update_id, 6, recv_mono_ns, recv_wall_ns);
    let e = msg::snapshot_effect(instrument, Ok(s), states, recv_mono_ns, recv_wall_ns);
    let evs = e.outcome->Ok_0.1;
    crate::laws::event::lemma_events_of_snapshot(st, s.bids, s.asks, 0, 0);
    assert forall|i: int| 0 <= i < evs.len() implies (#[trigger] evs[i]).flags == 6
        && evs[i].venue_seq == s.last_update_id && evs[i].instrument == instrument
        && evs[i].venue == 2 && evs[i].venue_ts_ns == 0 by {
        crate::laws::event::lemma_events_of_snapshot(st, s.bids, s.asks, 0, i);
    }
    assert forall|i: int| 0 <= i < s.bids.len() implies evs[2 + i].kind == 5 && (
    evs[2 + i].price, evs[2 + i].qty) == #[trigger] s.bids[i] by {
        crate::laws::event::lemma_events_of_snapshot(st, s.bids, s.asks, 0, i);
    }
    assert forall|i: int| 0 <= i < s.asks.len() implies evs[2 + s.bids.len() + i].kind == 6 && (
    evs[2 + s.bids.len() + i].price, evs[2 + s.bids.len() + i].qty)
        == #[trigger] s.asks[i] by {
        crate::laws::event::lemma_events_of_snapshot(st, s.bids, s.asks, 0, i);
    }
}

/// A snapshot is too old exactly where the unsynced instrument has seen a
/// diff that ends behind it; one that is not bridges to that diff, so that
/// the diffs that follow apply.
pub proof fn lemma_stale_snapshot(d: Depth, id: u64)
    ensures
        d is Synced ==> !msg::stale(d, id),
        d matches Depth::Unsynced { mark: None } ==> !msg::stale(d, id),
        d matches Depth::Unsynced { mark: Some(m) } ==> (msg::stale(d, id) <==> id < m),
{
}

/// Milliseconds are a million nanoseconds each, up to what 64 bits hold.
pub proof fn lemma_ms_to_ns(ms: u64)
    ensures
        ms <= 18_446_744_073_709 ==> msg::ms_to_ns(ms) == ms * 1_000_000,
        ms > 18_446_744_073_709 ==> msg::ms_to_ns(ms) == 0xffff_ffff_ffff_ffff,
{
}

} // verus!
