//! What a Binance message says, and what the codec makes of it.
use crate::codec;
use crate::codec::{CodecError, Signal};
use crate::emit;
use crate::emit::Stamp;
use crate::event::{flags, Event, EventKind, Venue};
use vstd::prelude::*;

verus! {

/// Diff-depth sync state for one instrument.
#[derive(Debug, Clone, Copy, PartialEq, Eq, Structural)]
pub enum Depth {
    /// No snapshot anchor yet: diffs are fully validated but not applied.
    Unsynced {
        /// The highest final update id of a diff seen since, if any.
        mark: Option<u64>,
    },
    /// Anchored; `last_u` is the final update id of the last applied diff
    /// (or the snapshot's `lastUpdateId` right after a snapshot).
    Synced {
        /// Final update id last applied.
        last_u: u64,
    },
}

/// Per-instrument codec state.
#[derive(Debug, Clone, Copy, PartialEq, Eq, Structural)]
pub struct Inst {
    /// Depth sync state machine.
    pub depth: Depth,
    /// Last seen trade id, for trade-stream continuity checks.
    pub last_trade: Option<u64>,
}

/// The header of a depth diff.
#[derive(Debug, Clone, Copy)]
pub struct DiffHead {
    pub instrument: u32,
    pub first_u: u64,
    pub final_u: u64,
    pub ts: u64,
}

/// A trade.
#[derive(Debug, Clone, Copy)]
pub struct TradeMsg {
    pub instrument: u32,
    pub id: u64,
    pub price: i64,
    pub qty: i64,
    pub ts: u64,
    pub taker_sell: bool,
}

/// What one message says.
pub enum Msg {
    /// A depth diff: its bids and its asks.
    Diff(DiffHead, Seq<(i64, i64)>, Seq<(i64, i64)>),
    Trade(TradeMsg),
    Control,
    Shutdown,
    Ignored,
}

/// A REST snapshot.
pub struct Snapshot {
    pub last_update_id: u64,
    pub bids: Seq<(i64, i64)>,
    pub asks: Seq<(i64, i64)>,
}

/// What a message comes to: the outcome of parsing it, the instruments'
/// states afterwards and the gaps that it showed.
pub struct Effect {
    pub outcome: codec::Outcome,
    pub states: Map<u32, Inst>,
    pub gaps: u64,
}

/// The constants of Binance's events for one message.
pub open spec fn stamp(
    instrument: u32,
    ts: u64,
    seq: u64,
    fl: u8,
    recv_mono_ns: u64,
    recv_wall_ns: u64,
) -> Stamp {
    Stamp {
        recv_mono_ns,
        recv_wall_ns,
        venue_ts_ns: ts,
        venue_seq: seq,
        instrument,
        venue: Venue::Binance,
        flags: fl,
    }
}

/// Milliseconds as nanoseconds, at most what 64 bits hold.
pub open spec fn ms_to_ns(ms: u64) -> u64 {
    if ms * 1_000_000 > u64::MAX {
        u64::MAX
    } else {
        (ms * 1_000_000) as u64
    }
}

/// What the sync state machine does with a diff.
pub enum Verdict {
    /// Unsynced: not applied, but its final update id is noted.
    Noted,
    /// A duplicate of what was applied already.
    Stale,
    /// Updates are missing in front of it.
    Gap,
    /// It applies.
    Applies,
}

/// The verdict on a diff `first_u..=final_u`.
pub open spec fn verdict(d: Depth, first_u: u64, final_u: u64) -> Verdict {
    match d {
        Depth::Unsynced { .. } => Verdict::Noted,
        Depth::Synced { last_u } => if final_u <= last_u {
            Verdict::Stale
        } else if first_u > last_u + 1 {
            Verdict::Gap
        } else {
            Verdict::Applies
        },
    }
}

/// The sync state behind a diff.
pub open spec fn next_depth(d: Depth, first_u: u64, final_u: u64) -> Depth {
    match verdict(d, first_u, final_u) {
        Verdict::Noted => Depth::Unsynced {
            mark: match d->mark {
                Some(m) if m >= final_u => Some(m),
                _ => Some(final_u),
            },
        },
        Verdict::Stale => d,
        Verdict::Gap => Depth::Unsynced { mark: Some(final_u) },
        Verdict::Applies => Depth::Synced { last_u: final_u },
    }
}

/// The events of the levels of a diff.
pub open spec fn diff_events(
    h: DiffHead,
    bids: Seq<(i64, i64)>,
    asks: Seq<(i64, i64)>,
    recv_mono_ns: u64,
    recv_wall_ns: u64,
) -> Seq<Event> {
    let s = stamp(h.instrument, h.ts, h.final_u, 0, recv_mono_ns, recv_wall_ns);
    emit::level_events(s, EventKind::BidSet, bids) + emit::level_events(
        s,
        EventKind::AskSet,
        asks,
    )
}

/// What a diff comes to: its levels where it applies, a `Gap` and a resync
/// where updates are missing, and otherwise nothing.
pub open spec fn diff_effect(
    h: DiffHead,
    bids: Seq<(i64, i64)>,
    asks: Seq<(i64, i64)>,
    states: Map<u32, Inst>,
    recv_mono_ns: u64,
    recv_wall_ns: u64,
) -> Effect {
    if !states.contains_key(h.instrument) {
        Effect { outcome: Err(CodecError::UnknownInstrument), states, gaps: 0 }
    } else {
        let inst = states[h.instrument];
        let next = states.insert(
            h.instrument,
            Inst { depth: next_depth(inst.depth, h.first_u, h.final_u), ..inst },
        );
        match verdict(inst.depth, h.first_u, h.final_u) {
            Verdict::Gap => Effect {
                outcome: Ok(
                    (
                        Signal::NeedResync { instrument: h.instrument },
                        seq![
                            stamp(
                                h.instrument,
                                h.ts,
                                h.final_u,
                                0,
                                recv_mono_ns,
                                recv_wall_ns,
                            ).ev_spec(
                                EventKind::Gap,
                                0,
                                0,
                                (h.first_u - inst.depth->last_u - 1) as u64,
                            ),
                        ],
                    ),
                ),
                states: next,
                gaps: 1,
            },
            Verdict::Applies => Effect {
                outcome: Ok(
                    (Signal::Nothing, diff_events(h, bids, asks, recv_mono_ns, recv_wall_ns)),
                ),
                states: next,
                gaps: 0,
            },
            _ => Effect { outcome: Ok((Signal::Nothing, Seq::empty())), states: next, gaps: 0 },
        }
    }
}

/// The trades missed in front of the trade `id`.
pub open spec fn missed_trades(last: Option<u64>, id: u64) -> Option<u64> {
    match last {
        Some(prev) if id > prev + 1 => Some((id - prev - 1) as u64),
        _ => None,
    }
}

/// What a trade comes to: a `Gap` where trade ids were skipped (no resync:
/// the book does not depend on trades), then the `Trade`.
pub open spec fn trade_effect(
    t: TradeMsg,
    states: Map<u32, Inst>,
    recv_mono_ns: u64,
    recv_wall_ns: u64,
) -> Effect {
    if !states.contains_key(t.instrument) {
        Effect { outcome: Err(CodecError::UnknownInstrument), states, gaps: 0 }
    } else {
        let inst = states[t.instrument];
        let next = states.insert(t.instrument, Inst { last_trade: Some(t.id), ..inst });
        let fl = if t.taker_sell {
            flags::TAKER_SELL
        } else {
            0
        };
        let trade = stamp(t.instrument, t.ts, t.id, fl, recv_mono_ns, recv_wall_ns).ev_spec(
            EventKind::Trade,
            t.price,
            t.qty,
            t.id,
        );
        match missed_trades(inst.last_trade, t.id) {
            Some(missed) => Effect {
                outcome: Ok(
                    (
                        Signal::Nothing,
                        seq![
                            stamp(t.instrument, t.ts, t.id, 0, recv_mono_ns, recv_wall_ns).ev_spec(
                                EventKind::Gap,
                                0,
                                0,
                                missed,
                            ),
                            trade,
                        ],
                    ),
                ),
                states: next,
                gaps: 1,
            },
            None => Effect {
                outcome: Ok((Signal::Nothing, seq![trade])),
                states: next,
                gaps: 0,
            },
        }
    }
}

/// What a message comes to in the states `states`.
pub open spec fn effect(
    m: Result<Msg, CodecError>,
    states: Map<u32, Inst>,
    recv_mono_ns: u64,
    recv_wall_ns: u64,
) -> Effect {
    match m {
        Err(e) => Effect { outcome: Err(e), states, gaps: 0 },
        Ok(Msg::Diff(h, bids, asks)) => diff_effect(
            h,
            bids,
            asks,
            states,
            recv_mono_ns,
            recv_wall_ns,
        ),
        Ok(Msg::Trade(t)) => trade_effect(t, states, recv_mono_ns, recv_wall_ns),
        Ok(Msg::Control) => Effect {
            outcome: Ok((Signal::Control, Seq::empty())),
            states,
            gaps: 0,
        },
        Ok(Msg::Shutdown) => Effect {
            outcome: Ok((Signal::Reconnect, Seq::empty())),
            states,
            gaps: 0,
        },
        Ok(Msg::Ignored) => Effect {
            outcome: Ok((Signal::Ignored, Seq::empty())),
            states,
            gaps: 0,
        },
    }
}

/// A snapshot is older than a diff that was seen while unsynced.
pub open spec fn stale(d: Depth, last_update_id: u64) -> bool {
    d matches Depth::Unsynced { mark: Some(m) } && last_update_id < m
}

/// What a REST snapshot of `instrument` comes to: a snapshot bracket and a
/// new anchor.
pub open spec fn snapshot_effect(
    instrument: u32,
    s: Result<Snapshot, CodecError>,
    states: Map<u32, Inst>,
    recv_mono_ns: u64,
    recv_wall_ns: u64,
) -> Effect {
    if !states.contains_key(instrument) {
        Effect { outcome: Err(CodecError::UnknownInstrument), states, gaps: 0 }
    } else {
        match s {
            Err(e) => Effect { outcome: Err(e), states, gaps: 0 },
            Ok(s) => Effect {
                outcome: Ok(
                    (
                        Signal::Nothing,
                        emit::snapshot_events(
                            stamp(
                                instrument,
                                0,
                                s.last_update_id,
                                6,
                                recv_mono_ns,
                                recv_wall_ns,
                            ),
                            s.bids,
                            s.asks,
                            0,
                        ),
                    ),
                ),
                states: states.insert(
                    instrument,
                    Inst {
                        depth: Depth::Synced { last_u: s.last_update_id },
                        ..states[instrument]
                    },
                ),
                gaps: 0,
            },
        }
    }
}

/// The codec asks for a resync exactly where a synced instrument's diff
/// starts behind the successor of what was applied, and no level of that
/// diff is emitted: only one `Gap` with the number of missed updates.
pub proof fn lemma_gap_never_applied(
    h: DiffHead,
    bids: Seq<(i64, i64)>,
    asks: Seq<(i64, i64)>,
    states: Map<u32, Inst>,
    recv_mono_ns: u64,
    recv_wall_ns: u64,
)
    requires
        states.contains_key(h.instrument),
    ensures
        ({
            let e = diff_effect(h, bids, asks, states, recv_mono_ns, recv_wall_ns);
            let d = states[h.instrument].depth;
            let gap = d matches Depth::Synced { last_u } && h.final_u > last_u && h.first_u
                > last_u + 1;
            &&& e.outcome is Ok
            &&& (gap <==> e.outcome->Ok_0.0 is NeedResync)
            &&& gap ==> e.outcome->Ok_0.1.len() == 1 && e.outcome->Ok_0.1[0].kind
                == EventKind::Gap.code_spec() && e.outcome->Ok_0.1[0].aux == h.first_u - d->last_u
                - 1
            &&& gap ==> e.states[h.instrument].depth is Unsynced
        }),
{
}

/// An unsynced instrument emits no diff, and only a snapshot syncs it.
pub proof fn lemma_unsynced_emits_nothing(
    h: DiffHead,
    bids: Seq<(i64, i64)>,
    asks: Seq<(i64, i64)>,
    states: Map<u32, Inst>,
    recv_mono_ns: u64,
    recv_wall_ns: u64,
)
    requires
        states.contains_key(h.instrument),
        states[h.instrument].depth is Unsynced,
    ensures
        ({
            let e = diff_effect(h, bids, asks, states, recv_mono_ns, recv_wall_ns);
            &&& e.outcome == Ok::<(Signal, Seq<Event>), CodecError>(
                (Signal::Nothing, Seq::empty()),
            )
            &&& e.states[h.instrument].depth is Unsynced
            &&& e.states[h.instrument].depth->mark matches Some(m) && h.final_u <= m
        }),
{
}

/// The update ids that an instrument applied never go back: the anchor only
/// advances while it stays synced.
pub proof fn lemma_anchor_advances(d: Depth, first_u: u64, final_u: u64)
    ensures
        d is Synced && next_depth(d, first_u, final_u) is Synced ==> d->last_u <= next_depth(
            d,
            first_u,
            final_u,
        )->last_u,
{
}

/// A diff that is seen twice is applied once.
pub proof fn lemma_applied_once(d: Depth, first_u: u64, final_u: u64)
    requires
        verdict(d, first_u, final_u) is Applies,
    ensures
        verdict(next_depth(d, first_u, final_u), first_u, final_u) is Stale,
        next_depth(next_depth(d, first_u, final_u), first_u, final_u) == next_depth(
            d,
            first_u,
            final_u,
        ),
{
}

/// Contiguous diffs apply: behind one that applied, the one that starts at
/// its successor applies too.
pub proof fn lemma_contiguous_applies(d: Depth, first_u: u64, final_u: u64, next_final: u64)
    requires
        verdict(d, first_u, final_u) is Applies,
        final_u < next_final,
    ensures
        verdict(next_depth(d, first_u, final_u), (final_u + 1) as u64, next_final) is Applies,
{
}

/// A message about one instrument leaves the states of the others alone.
pub proof fn lemma_states_are_per_instrument(
    m: Msg,
    states: Map<u32, Inst>,
    other: u32,
    recv_mono_ns: u64,
    recv_wall_ns: u64,
)
    requires
        m matches Msg::Diff(h, _, _) ==> h.instrument != other,
        m matches Msg::Trade(t) ==> t.instrument != other,
    ensures
        ({
            let e = effect(Ok(m), states, recv_mono_ns, recv_wall_ns);
            &&& e.states.contains_key(other) == states.contains_key(other)
            &&& states.contains_key(other) ==> e.states[other] == states[other]
        }),
{
}

} // verus!
