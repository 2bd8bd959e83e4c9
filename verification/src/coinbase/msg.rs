//! What a Coinbase message says, and what the codec makes of it.
use crate::codec;
use crate::codec::{CodecError, Signal};
use crate::emit;
use crate::emit::Stamp;
use crate::event::{flags, Event, EventKind, Venue};
use vstd::prelude::*;

verus! {

/// A `match` or `last_match`.
#[derive(Debug, Clone, Copy)]
pub struct Match {
    pub instrument: u32,
    pub ts: u64,
    pub seq: u64,
    pub id: u64,
    pub taker_sell: bool,
    pub price: i64,
    pub qty: i64,
    /// A `match`, not a `last_match`.
    pub gap_check: bool,
}

/// A `heartbeat`.
#[derive(Debug, Clone, Copy)]
pub struct Heartbeat {
    pub instrument: u32,
    pub ts: u64,
    pub seq: u64,
    pub last_trade_id: u64,
}

/// A book snapshot, from the feed or from REST.
pub struct Snapshot {
    pub instrument: u32,
    pub ts: u64,
    pub seq: u64,
    /// The levels come from a REST body.
    pub rest: bool,
    pub bids: Seq<(i64, i64)>,
    pub asks: Seq<(i64, i64)>,
}

/// What one message says.
pub enum Msg {
    /// Level changes `(bid, price, quantity)`, in payload order.
    L2Update(u32, u64, Seq<(bool, i64, i64)>),
    Match(Match),
    Heartbeat(Heartbeat),
    Snapshot(Snapshot),
    Control,
    Ignored,
}

/// What a message comes to: the outcome of parsing it, the trade-id baselines
/// afterwards and the gaps that it showed.
pub struct Effect {
    pub outcome: codec::Outcome,
    pub baselines: Map<u32, u64>,
    pub gaps: u64,
}

/// The constants of Coinbase's events for one message.
pub open spec fn stamp(
    instrument: u32,
    ts: u64,
    seq: u64,
    fl: u8,
    recv_mono_ns: u64,
    recv_wall_ns: u64,
) -> Stamp {
    Stamp {
        recv_mono_ns,
        recv_wall_ns,
        venue_ts_ns: ts,
        venue_seq: seq,
        instrument,
        venue: Venue::Coinbase,
        flags: fl,
    }
}

/// The kind of a level change.
pub open spec fn change_kind(bid: bool) -> EventKind {
    if bid {
        EventKind::BidSet
    } else {
        EventKind::AskSet
    }
}

/// One event per level change, in order.
pub open spec fn change_events(s: Stamp, changes: Seq<(bool, i64, i64)>) -> Seq<Event> {
    Seq::new(
        changes.len(),
        |i: int| s.ev_spec(change_kind(changes[i].0), changes[i].1, changes[i].2, 0),
    )
}

/// The trades missed when a trade-checked id jumps past the baseline's
/// successor.
pub open spec fn missed_trades(baseline: Option<u64>, id: u64, gap_check: bool) -> Option<u64> {
    match baseline {
        Some(last) if gap_check && id > last + 1 => Some((id - last - 1) as u64),
        _ => None,
    }
}

/// The baseline after the trade `id`: it only advances.
pub open spec fn advanced(baseline: Option<u64>, id: u64) -> u64 {
    match baseline {
        Some(last) if last >= id => last,
        _ => id,
    }
}

/// The trades missed when the venue's last trade id is ahead of the baseline.
pub open spec fn missed_by_heartbeat(baseline: Option<u64>, last_trade_id: u64) -> Option<u64> {
    match baseline {
        Some(last) if last_trade_id > last => Some((last_trade_id - last) as u64),
        _ => None,
    }
}

/// The baseline of an instrument.
pub open spec fn baseline(b: Map<u32, u64>, instrument: u32) -> Option<u64> {
    if b.contains_key(instrument) {
        Some(b[instrument])
    } else {
        None
    }
}

/// What a match comes to: an optional `Gap` before the `Trade`. A gap means
/// that the book may have silently dropped messages too, so it asks for a
/// resync.
pub open spec fn match_effect(
    m: Match,
    b: Map<u32, u64>,
    recv_mono_ns: u64,
    recv_wall_ns: u64,
) -> Effect {
    let fl = if m.taker_sell {
        flags::TAKER_SELL
    } else {
        0
    };
    let trade = stamp(m.instrument, m.ts, m.seq, fl, recv_mono_ns, recv_wall_ns).ev_spec(
        EventKind::Trade,
        m.price,
        m.qty,
        m.id,
    );
    let next = b.insert(m.instrument, advanced(baseline(b, m.instrument), m.id));
    match missed_trades(baseline(b, m.instrument), m.id, m.gap_check) {
        Some(missed) => Effect {
            outcome: Ok(
                (
                    Signal::NeedResync { instrument: m.instrument },
                    seq![
                        stamp(m.instrument, m.ts, m.seq, 0, recv_mono_ns, recv_wall_ns).ev_spec(
                            EventKind::Gap,
                            0,
                            0,
                            missed,
                        ),
                        trade,
                    ],
                ),
            ),
            baselines: next,
            gaps: 1,
        },
        None => Effect {
            outcome: Ok((Signal::Nothing, seq![trade])),
            baselines: next,
            gaps: 0,
        },
    }
}

/// What a heartbeat comes to: the `Heartbeat`, then a `Gap` where the venue
/// reports trades that never came in.
pub open spec fn heartbeat_effect(
    h: Heartbeat,
    b: Map<u32, u64>,
    recv_mono_ns: u64,
    recv_wall_ns: u64,
) -> Effect {
    let s = stamp(h.instrument, h.ts, h.seq, 0, recv_mono_ns, recv_wall_ns);
    let beat = s.ev_spec(EventKind::Heartbeat, 0, 0, h.last_trade_id);
    match missed_by_heartbeat(baseline(b, h.instrument), h.last_trade_id) {
        Some(missed) => Effect {
            outcome: Ok(
                (
                    Signal::NeedResync { instrument: h.instrument },
                    seq![beat, s.ev_spec(EventKind::Gap, 0, 0, missed)],
                ),
            ),
            baselines: b.insert(h.instrument, h.last_trade_id),
            gaps: 1,
        },
        None => Effect { outcome: Ok((Signal::Nothing, seq![beat])), baselines: b, gaps: 0 },
    }
}

/// The flags of a snapshot.
pub open spec fn snapshot_flags(rest: bool) -> u8 {
    if rest {
        6
    } else {
        2
    }
}

/// The events of a snapshot.
pub open spec fn snapshot_run(s: Snapshot, recv_mono_ns: u64, recv_wall_ns: u64) -> Seq<Event> {
    emit::snapshot_events(
        stamp(s.instrument, s.ts, s.seq, snapshot_flags(s.rest), recv_mono_ns, recv_wall_ns),
        s.bids,
        s.asks,
        0,
    )
}

/// The events of a message of the book.
pub open spec fn book_events(m: Msg, recv_mono_ns: u64, recv_wall_ns: u64) -> Seq<Event> {
    match m {
        Msg::L2Update(instrument, ts, changes) => change_events(
            stamp(instrument, ts, 0, 0, recv_mono_ns, recv_wall_ns),
            changes,
        ),
        Msg::Snapshot(x) => snapshot_run(x, recv_mono_ns, recv_wall_ns),
        _ => Seq::empty(),
    }
}

/// What a message comes to under the baselines `b`.
pub open spec fn effect(
    m: Result<Msg, CodecError>,
    b: Map<u32, u64>,
    recv_mono_ns: u64,
    recv_wall_ns: u64,
) -> Effect {
    match m {
        Err(e) => Effect { outcome: Err(e), baselines: b, gaps: 0 },
        Ok(Msg::Match(x)) => match_effect(x, b, recv_mono_ns, recv_wall_ns),
        Ok(Msg::Heartbeat(x)) => heartbeat_effect(x, b, recv_mono_ns, recv_wall_ns),
        Ok(Msg::Control) => Effect {
            outcome: Ok((Signal::Control, Seq::empty())),
            baselines: b,
            gaps: 0,
        },
        Ok(Msg::Ignored) => Effect {
            outcome: Ok((Signal::Ignored, Seq::empty())),
            baselines: b,
            gaps: 0,
        },
        Ok(m) => Effect {
            outcome: Ok((Signal::Nothing, book_events(m, recv_mono_ns, recv_wall_ns))),
            baselines: b,
            gaps: 0,
        },
    }
}

/// No message lowers the trade-id baseline of any instrument, or takes it
/// away.
pub proof fn lemma_baseline_advances(
    m: Result<Msg, CodecError>,
    b: Map<u32, u64>,
    instrument: u32,
    recv_mono_ns: u64,
    recv_wall_ns: u64,
)
    ensures
        baseline(b, instrument) matches Some(last) ==> (baseline(
            effect(m, b, recv_mono_ns, recv_wall_ns).baselines,
            instrument,
        ) matches Some(next) && last <= next),
{
}

/// The codec asks for a resync exactly where it counts a gap, and then the
/// message's events hold a `Gap`.
pub proof fn lemma_gap_asks_resync(
    m: Result<Msg, CodecError>,
    b: Map<u32, u64>,
    recv_mono_ns: u64,
    recv_wall_ns: u64,
)
    ensures
        ({
            let e = effect(m, b, recv_mono_ns, recv_wall_ns);
            let resync = e.outcome matches Ok(x) && x.0 is NeedResync;
            &&& (e.gaps == 1 <==> resync)
            &&& (e.gaps == 0 <==> !resync)
            &&& resync ==> exists|i: int|
                0 <= i < e.outcome->Ok_0.1.len() && (#[trigger] e.outcome->Ok_0.1[i]).kind
                    == EventKind::Gap.code_spec()
        }),
{
    let e = effect(m, b, recv_mono_ns, recv_wall_ns);
    if let Ok(x) = e.outcome {
        if x.0 is NeedResync {
            if let Ok(Msg::Match(_)) = m {
                assert(x.1[0].kind == EventKind::Gap.code_spec());
            } else {
                assert(x.1[1].kind == EventKind::Gap.code_spec());
            }
        }
    }
}

/// A gap is reported once: behind a match or heartbeat for a trade id, no
/// match up to that id's successor and no heartbeat up to that id shows a
/// gap again.
pub proof fn lemma_gap_reported_once(
    b: Map<u32, u64>,
    m: Match,
    later: Match,
    beat: Heartbeat,
    recv_mono_ns: u64,
    recv_wall_ns: u64,
)
    requires
        later.instrument == m.instrument,
        beat.instrument == m.instrument,
        later.id <= m.id + 1,
        beat.last_trade_id <= m.id,
    ensures
        ({
            let b1 = match_effect(m, b, recv_mono_ns, recv_wall_ns).baselines;
            &&& match_effect(later, b1, recv_mono_ns, recv_wall_ns).gaps == 0
            &&& heartbeat_effect(beat, b1, recv_mono_ns, recv_wall_ns).gaps == 0
        }),
{
}

/// The same behind a heartbeat that showed a gap.
pub proof fn lemma_heartbeat_gap_reported_once(
    b: Map<u32, u64>,
    h: Heartbeat,
    later: Match,
    beat: Heartbeat,
    recv_mono_ns: u64,
    recv_wall_ns: u64,
)
    requires
        heartbeat_effect(h, b, recv_mono_ns, recv_wall_ns).gaps == 1,
        later.instrument == h.instrument,
        beat.instrument == h.instrument,
        later.id <= h.last_trade_id + 1,
        beat.last_trade_id <= h.last_trade_id,
    ensures
        ({
            let b1 = heartbeat_effect(h, b, recv_mono_ns, recv_wall_ns).baselines;
            &&& match_effect(later, b1, recv_mono_ns, recv_wall_ns).gaps == 0
            &&& heartbeat_effect(beat, b1, recv_mono_ns, recv_wall_ns).gaps == 0
        }),
{
}

/// Without a baseline nothing is a gap: the first match only seeds it, and a
/// heartbeat does not even do that.
pub proof fn lemma_no_gap_without_baseline(
    b: Map<u32, u64>,
    m: Match,
    h: Heartbeat,
    recv_mono_ns: u64,
    recv_wall_ns: u64,
)
    requires
        !b.contains_key(m.instrument),
        !b.contains_key(h.instrument),
    ensures
        match_effect(m, b, recv_mono_ns, recv_wall_ns).gaps == 0,
        match_effect(m, b, recv_mono_ns, recv_wall_ns).baselines == b.insert(m.instrument, m.id),
        heartbeat_effect(h, b, recv_mono_ns, recv_wall_ns).gaps == 0,
        heartbeat_effect(h, b, recv_mono_ns, recv_wall_ns).baselines == b,
{
}

/// A `last_match` is never a gap.
pub proof fn lemma_last_match_never_gaps(
    b: Map<u32, u64>,
    m: Match,
    recv_mono_ns: u64,
    recv_wall_ns: u64,
)
    requires
        !m.gap_check,
    ensures
        match_effect(m, b, recv_mono_ns, recv_wall_ns).gaps == 0,
{
}

} // verus!
