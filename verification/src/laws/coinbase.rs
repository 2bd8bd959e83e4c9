//! Laws of the Coinbase codec.
use crate::codec::{CodecError, Signal};
use crate::coinbase::msg;
use crate::coinbase::msg::{Heartbeat, Match, Msg, Snapshot};
use crate::event::{Event, EventKind};
use vstd::prelude::*;

verus! {

/// Under the baseline `b`, a heartbeat whose last trade id is `l` asks for a
/// resync and reports a `Gap` of `l - b` if and only if `l > b`; without a
/// baseline it never does. The `Heartbeat` itself always comes first.
pub proof fn lemma_heartbeat_gap(
    h: Heartbeat,
    b: Map<u32, u64>,
    recv_mono_ns: u64,
    recv_wall_ns: u64,
)
    ensures
        ({
            let e = msg::heartbeat_effect(h, b, recv_mono_ns, recv_wall_ns);
            let evs = e.outcome->Ok_0.1;
            let gap = b.contains_key(h.instrument) && h.last_trade_id > b[h.instrument];
            &&& e.outcome is Ok
            &&& (gap <==> e.outcome->Ok_0.0 == (Signal::NeedResync { instrument: h.instrument }))
            &&& (!gap <==> e.outcome->Ok_0.0 == Signal::Nothing)
            &&& evs.len() == (if gap {
                2nat
            } else {
                1nat
            })
            &&& evs[0].kind == EventKind::Heartbeat.code_spec()
            &&& evs[0].aux == h.last_trade_id
            &&& gap ==> evs[1].kind == EventKind::Gap.code_spec() && evs[1].aux == h.last_trade_id
                - b[h.instrument]
            &&& forall|i: int|
                0 <= i < evs.len() ==> (#[trigger] evs[i]).price == 0 && evs[i].qty == 0
            &&& e.gaps == (if gap {
                1int
            } else {
                0
            })
            &&& forall|i: int|
                0 <= i < evs.len() ==> (#[trigger] evs[i]).instrument == h.instrument
                    && evs[i].venue_ts_ns == h.ts && evs[i].venue_seq == h.seq && evs[i].flags
                    == 0 && evs[i].venue == 1 && evs[i].recv_mono_ns == recv_mono_ns
                    && evs[i].recv_wall_ns == recv_wall_ns
        }),
{
}

/// A heartbeat that shows a gap lifts the baseline to its own last trade id;
/// one that shows none leaves it, and no other baseline is touched.
pub proof fn lemma_heartbeat_baseline(
    h: Heartbeat,
    b: Map<u32, u64>,
    other: u32,
    recv_mono_ns: u64,
    recv_wall_ns: u64,
)
    ensures
        ({
            let c = msg::heartbeat_effect(h, b, recv_mono_ns, recv_wall_ns).baselines;
            &&& c.contains_key(other) == b.contains_key(other)
            &&& b.contains_key(h.instrument) && h.last_trade_id > b[h.instrument]
                ==> c[h.instrument] == h.last_trade_id
            &&& b.contains_key(h.instrument) && h.last_trade_id <= b[h.instrument]
                ==> c[h.instrument] == b[h.instrument]
            &&& other != h.instrument && b.contains_key(other) ==> c[other] == b[other]
        }),
{
}

/// Under the baseline `b`, a match with the trade id `t` asks for a resync
/// and starts with a `Gap` of `t - b - 1` if and only if `t > b + 1`; a
/// `last_match` and a match without a baseline never do. The `Trade` always
/// comes last.
pub proof fn lemma_match_gap(m: Match, b: Map<u32, u64>, recv_mono_ns: u64, recv_wall_ns: u64)
    ensures
        ({
            let e = msg::match_effect(m, b, recv_mono_ns, recv_wall_ns);
            let evs = e.outcome->Ok_0.1;
            let gap = m.gap_check && b.contains_key(m.instrument) && m.id > b[m.instrument] + 1;
            &&& e.outcome is Ok
            &&& (gap <==> e.outcome->Ok_0.0 == (Signal::NeedResync { instrument: m.instrument }))
            &&& (!gap <==> e.outcome->Ok_0.0 == Signal::Nothing)
            &&& evs.len() == (if gap {
                2nat
            } else {
                1nat
            })
            &&& (gap <==> evs[0].kind == EventKind::Gap.code_spec())
            &&& gap ==> evs[0].aux == m.id - b[m.instrument] - 1 && evs[0].flags == 0
                && evs[0].price == 0 && evs[0].qty == 0
            &&& e.gaps == (if gap {
                1int
            } else {
                0
            })
            &&& evs.last().kind == EventKind::Trade.code_spec()
            &&& evs.last().price == m.price
            &&& evs.last().qty == m.qty
            &&& evs.last().aux == m.id
            &&& evs.last().flags == (if m.taker_sell {
                1u8
            } else {
                0u8
            })
            &&& forall|i: int|
                0 <= i < evs.len() ==> (#[trigger] evs[i]).instrument == m.instrument
                    && evs[i].venue_ts_ns == m.ts && evs[i].venue_seq == m.seq && evs[i].venue
                    == 1 && evs[i].recv_mono_ns == recv_mono_ns && evs[i].recv_wall_ns
                    == recv_wall_ns
        }),
{
}

/// Behind a match the baseline is the higher of what it was and the match's
/// trade id, and no other baseline is touched.
pub proof fn lemma_match_baseline(
    m: Match,
    b: Map<u32, u64>,
    other: u32,
    recv_mono_ns: u64,
    recv_wall_ns: u64,
)
    ensures
        ({
            let c = msg::match_effect(m, b, recv_mono_ns, recv_wall_ns).baselines;
            &&& c.contains_key(m.instrument)
            &&& c[m.instrument] >= m.id
            &&& b.contains_key(m.instrument) ==> c[m.instrument] >= b[m.instrument]
            &&& c[m.instrument] == m.id || (b.contains_key(m.instrument) && c[m.instrument]
                == b[m.instrument])
            &&& other != m.instrument ==> c.contains_key(other) == b.contains_key(other)
            &&& other != m.instrument && b.contains_key(other) ==> c[other] == b[other]
        }),
{
}

/// Behind a match every heartbeat with a later trade id shows a gap, of the
/// trades since: a trade that never came in is never passed over.
pub proof fn lemma_missed_trade_is_seen(
    m: Match,
    h: Heartbeat,
    b: Map<u32, u64>,
    recv_mono_ns: u64,
    recv_wall_ns: u64,
)
    requires
        !b.contains_key(m.instrument),
        h.instrument == m.instrument,
        h.last_trade_id > m.id,
    ensures
        ({
            let c = msg::match_effect(m, b, recv_mono_ns, recv_wall_ns).baselines;
            let e = msg::heartbeat_effect(h, c, recv_mono_ns, recv_wall_ns);
            &&& e.gaps == 1
            &&& e.outcome->Ok_0.1[1].aux + m.id == h.last_trade_id
        }),
{
}

/// A level update comes to one event for each change, in order: its side, its
/// price and its quantity. It never shows a gap and leaves the baselines.
pub proof fn lemma_update_events(
    instrument: u32,
    ts: u64,
    changes: Seq<(bool, i64, i64)>,
    b: Map<u32, u64>,
    recv_mono_ns: u64,
    recv_wall_ns: u64,
    i: int,
)
    ensures
        ({
            let e = msg::effect(
                Ok(Msg::L2Update(instrument, ts, changes)),
                b,
                recv_mono_ns,
                recv_wall_ns,
            );
            let evs = e.outcome->Ok_0.1;
            &&& e.outcome is Ok
            &&& e.outcome->Ok_0.0 == Signal::Nothing
            &&& e.baselines == b
            &&& e.gaps == 0
            &&& evs.len() == changes.len()
            &&& 0 <= i < changes.len() ==> {
                &&& evs[i].kind == (if changes[i].0 {
                    1u8
                } else {
                    2u8
                })
                &&& evs[i].price == changes[i].1
                &&& evs[i].qty == changes[i].2
                &&& evs[i].aux == 0
                &&& evs[i].flags == 0
                &&& evs[i].instrument == instrument
                &&& evs[i].venue_ts_ns == ts
                &&& evs[i].venue_seq == 0
                &&& evs[i].venue == 1
                &&& evs[i].recv_mono_ns == recv_mono_ns
                &&& evs[i].recv_wall_ns == recv_wall_ns
            }
        }),
{
}

/// A snapshot comes to a snapshot bracket of all its levels, marked as such;
/// one from REST is marked as synthetic too.
pub proof fn lemma_snapshot_bracket(
    s: Snapshot,
    b: Map<u32, u64>,
    recv_mono_ns: u64,
    recv_wall_ns: u64,
    i: int,
)
    requires
        s.bids.len() + s.asks.len() <= u64::MAX,
    ensures
        ({
            let e = msg::effect(Ok(Msg::Snapshot(s)), b, recv_mono_ns, recv_wall_ns);
            let evs = e.outcome->Ok_0.1;
            let n = s.bids.len();
            let m = s.asks.len();
            &&& e.outcome is Ok
            &&& e.outcome->Ok_0.0 == Signal::Nothing
            &&& e.baselines == b
            &&& e.gaps == 0
            &&& evs.len() == n + m + 3
            &&& evs[0].kind == 11
            &&& evs[1].kind == 4 && evs[1].aux == n + m
            &&& 0 <= i < n ==> evs[2 + i].kind == 5 && (evs[2 + i].price, evs[2 + i].qty)
                == s.bids[i]
            &&& 0 <= i < m ==> evs[2 + n + i].kind == 6 && (evs[2 + n + i].price, evs[2 + n
                + i].qty) == s.asks[i]
            &&& evs[(n + m + 2) as int].kind == 7 && evs[(n + m + 2) as int].aux == 0
            &&& 0 <= i < evs.len() ==> evs[i].flags == (if s.rest {
                6u8
            } else {
                2u8
            }) && evs[i].instrument == s.instrument && evs[i].venue_ts_ns == s.ts
                && evs[i].venue_seq == s.seq && evs[i].venue == 1
        }),
{
    let st = msg::stamp(
        s.instrument,
        s.ts,
        s.seq,
        msg::snapshot_flags(s.rest),
        recv_mono_ns,
        recv_wall_ns,
    );
    crate::laws::event::lemma_events_of_snapshot(st, s.bids, s.asks, 0, i);
}

/// A message that does not parse, a control message and one that is ignored
/// come to no event, and leave the baselines.
pub proof fn lemma_silent_messages(
    b: Map<u32, u64>,
    err: CodecError,
    recv_mono_ns: u64,
    recv_wall_ns: u64,
)
    ensures
        ({
            let c = msg::effect(Ok(Msg::Control), b, recv_mono_ns, recv_wall_ns);
            let i = msg::effect(Ok(Msg::Ignored), b, recv_mono_ns, recv_wall_ns);
            let f = msg::effect(Err(err), b, recv_mono_ns, recv_wall_ns);
            &&& c.outcome is Ok && c.outcome->Ok_0.0 == Signal::Control && c.outcome->Ok_0.1.len()
                == 0
            &&& i.outcome is Ok && i.outcome->Ok_0.0 == Signal::Ignored && i.outcome->Ok_0.1.len()
                == 0
            &&& f.outcome == Err::<(Signal, Seq<Event>), CodecError>(err)
            &&& c.baselines == b && i.baselines == b && f.baselines == b
            &&& c.gaps == 0 && i.gaps == 0 && f.gaps == 0
        }),
{
}

} // verus!
