//! Laws of the Kraken codec.
use crate::codec::{CodecError, Signal};
use crate::event::{flags, Event};
use crate::kraken::frame;
use crate::kraken::frame::{BookEntry, Frame, TradeEntry};
use crate::laws::event;
use vstd::prelude::*;

verus! {

/// A book update of `n` bids and `m` asks comes to `n + m + 1` events: the
/// bids, the asks, each with its price and quantity, and the checksum.
pub proof fn lemma_update_events(
    e: BookEntry,
    recv_mono_ns: u64,
    recv_wall_ns: u64,
    i: int,
)
    ensures
        ({
            let evs = frame::book_events(false, e, recv_mono_ns, recv_wall_ns);
            let n = e.bids.len();
            let m = e.asks.len();
            &&& evs.len() == n + m + 1
            &&& 0 <= i < n ==> evs[i].kind == 1 && (evs[i].price, evs[i].qty) == e.bids[i]
            &&& 0 <= i < m ==> evs[n + i].kind == 2 && (evs[n + i].price, evs[n + i].qty)
                == e.asks[i]
            &&& evs[(n + m) as int].kind == 8 && evs[(n + m) as int].aux == e.checksum
            &&& evs.last().price == 0 && evs.last().qty == 0
            &&& 0 <= i < n + m ==> evs[i].aux == 0
            &&& 0 <= i < evs.len() ==> evs[i].instrument == e.instrument && evs[i].venue_ts_ns
                == e.ts && evs[i].venue_seq == 0 && evs[i].flags == 0 && evs[i].venue == 3
                && evs[i].recv_mono_ns == recv_mono_ns && evs[i].recv_wall_ns == recv_wall_ns
        }),
{
    let evs = frame::book_events(false, e, recv_mono_ns, recv_wall_ns);
    let s = frame::stamp(e.instrument, e.ts, 0, 0, recv_mono_ns, recv_wall_ns);
    let b = crate::emit::level_events(s, crate::event::EventKind::BidSet, e.bids);
    if 0 <= i < e.bids.len() {
        assert(evs[i] == b[i]);
    }
}

/// A book snapshot of `n` bids and `m` asks comes to a snapshot bracket that
/// ends with the checksum, marked as a snapshot.
pub proof fn lemma_snapshot_events(
    e: BookEntry,
    recv_mono_ns: u64,
    recv_wall_ns: u64,
    i: int,
)
    requires
        e.bids.len() + e.asks.len() <= u64::MAX,
    ensures
        ({
            let evs = frame::book_events(true, e, recv_mono_ns, recv_wall_ns);
            let n = e.bids.len();
            let m = e.asks.len();
            &&& evs.len() == n + m + 3
            &&& evs[0].kind == 11
            &&& evs[1].kind == 4 && evs[1].aux == n + m
            &&& 0 <= i < n ==> evs[2 + i].kind == 5 && (evs[2 + i].price, evs[2 + i].qty)
                == e.bids[i]
            &&& 0 <= i < m ==> evs[2 + n + i].kind == 6 && (evs[2 + n + i].price, evs[2 + n
                + i].qty) == e.asks[i]
            &&& evs[(n + m + 2) as int].kind == 7 && evs[(n + m + 2) as int].aux == e.checksum
            &&& 0 <= i < evs.len() ==> evs[i].instrument == e.instrument && evs[i].flags == 2
                && evs[i].venue == 3 && evs[i].venue_ts_ns == 0 && evs[i].venue_seq == 0
        }),
{
    let s = frame::stamp(e.instrument, 0, 0, flags::FROM_SNAPSHOT, recv_mono_ns, recv_wall_ns);
    event::lemma_events_of_snapshot(s, e.bids, e.asks, e.checksum, i);
}

/// A trade comes to one event with its price, its quantity and its id; its
/// flags tell the aggressor and whether it came with a snapshot.
pub proof fn lemma_trade_event(
    snapshot: bool,
    e: TradeEntry,
    recv_mono_ns: u64,
    recv_wall_ns: u64,
)
    ensures
        ({
            let ev = frame::trade_event(snapshot, e, recv_mono_ns, recv_wall_ns);
            &&& ev.kind == 3
            &&& ev.price == e.price
            &&& ev.qty == e.qty
            &&& ev.aux == e.id
            &&& ev.venue_seq == e.id
            &&& ev.venue_ts_ns == e.ts
            &&& ev.instrument == e.instrument
            &&& ev.venue == 3
            &&& ev.flags == (if e.taker_sell {
                1int
            } else {
                0
            }) + (if snapshot {
                2int
            } else {
                0
            })
            &&& ev.recv_mono_ns == recv_mono_ns
            &&& ev.recv_wall_ns == recv_wall_ns
        }),
{
}

/// A book frame comes to the events of its entries, one entry behind the
/// other; a trade frame to one event for each trade, in order; a heartbeat to
/// one event; a control frame and one that is ignored to none.
pub proof fn lemma_frame_contents(
    snapshot: bool,
    es: Seq<BookEntry>,
    e: BookEntry,
    ts: Seq<TradeEntry>,
    i: int,
    recv_mono_ns: u64,
    recv_wall_ns: u64,
)
    ensures
        frame::frame_events(Frame::Book(snapshot, Seq::empty()), recv_mono_ns, recv_wall_ns).len()
            == 0,
        frame::frame_events(Frame::Book(snapshot, es.push(e)), recv_mono_ns, recv_wall_ns)
            == frame::frame_events(Frame::Book(snapshot, es), recv_mono_ns, recv_wall_ns)
            + frame::book_events(snapshot, e, recv_mono_ns, recv_wall_ns),
        frame::frame_events(Frame::Trade(snapshot, ts), recv_mono_ns, recv_wall_ns).len()
            == ts.len(),
        0 <= i < ts.len() ==> frame::frame_events(
            Frame::Trade(snapshot, ts),
            recv_mono_ns,
            recv_wall_ns,
        )[i] == frame::trade_event(snapshot, ts[i], recv_mono_ns, recv_wall_ns),
        ({
            let h = frame::frame_events(Frame::Heartbeat, recv_mono_ns, recv_wall_ns);
            &&& h.len() == 1
            &&& h[0].kind == 9
            &&& h[0].venue == 3
            &&& h[0].recv_mono_ns == recv_mono_ns
            &&& h[0].recv_wall_ns == recv_wall_ns
            &&& h[0].instrument == 0 && h[0].aux == 0 && h[0].price == 0 && h[0].qty == 0
            &&& h[0].flags == 0 && h[0].venue_ts_ns == 0 && h[0].venue_seq == 0
        }),
        frame::frame_events(Frame::Control, recv_mono_ns, recv_wall_ns).len() == 0,
        frame::frame_events(Frame::Ignored, recv_mono_ns, recv_wall_ns).len() == 0,
{
    assert(es.push(e).drop_last() =~= es);
}

/// Control frames and ignored ones say so; every other frame goes on, and a
/// frame that does not parse is its error.
pub proof fn lemma_frame_signals(f: Frame, err: CodecError, recv_mono_ns: u64, recv_wall_ns: u64)
    ensures
        frame::frame_signal(f) == Signal::Control <==> f is Control,
        frame::frame_signal(f) == Signal::Ignored <==> f is Ignored,
        frame::frame_signal(f) == Signal::Nothing <==> f is Book || f is Trade || f is Heartbeat,
        frame::frame_outcome(Err(err), recv_mono_ns, recv_wall_ns) == Err::<
            (Signal, Seq<Event>),
            CodecError,
        >(err),
        frame::frame_outcome(Ok(f), recv_mono_ns, recv_wall_ns) == Ok::<
            (Signal, Seq<Event>),
            CodecError,
        >((frame::frame_signal(f), frame::frame_events(f, recv_mono_ns, recv_wall_ns))),
{
}

} // verus!
