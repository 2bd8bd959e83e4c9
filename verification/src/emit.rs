//! Building events: the constants of one message, and the runs of events
//! that a list of price levels and a snapshot come to.
use crate::book;
use crate::book::{BookState, SyncState};
use crate::event::{Event, EventKind, Side, Venue};
use vstd::prelude::*;

verus! {

/// Per-message constants stamped onto every event emitted for it.
#[derive(Debug, Clone, Copy)]
pub struct Stamp {
    /// Local monotonic receive timestamp.
    pub recv_mono_ns: u64,
    /// Local wall-clock receive timestamp.
    pub recv_wall_ns: u64,
    /// Venue event timestamp.
    pub venue_ts_ns: u64,
    /// Venue sequence or update id.
    pub venue_seq: u64,
    /// Instrument id.
    pub instrument: u32,
    /// The venue.
    pub venue: Venue,
    /// Event flags.
    pub flags: u8,
}

impl Stamp {
    /// The event of the given kind under these constants.
    pub open spec fn ev_spec(self, kind: EventKind, price: i64, qty: i64, aux: u64) -> Event {
        Event {
            recv_mono_ns: self.recv_mono_ns,
            recv_wall_ns: self.recv_wall_ns,
            venue_ts_ns: self.venue_ts_ns,
            venue_seq: self.venue_seq,
            price,
            qty,
            aux,
            instrument: self.instrument,
            kind: kind.code_spec(),
            venue: self.venue.code_spec(),
            flags: self.flags,
            rsvd: 0,
        }
    }

    /// Build one event with these constants.
    pub fn ev(&self, kind: EventKind, price: i64, qty: i64, aux: u64) -> (r: Event)
        ensures
            r == self.ev_spec(kind, price, qty, aux),
    {
        Event {
            recv_mono_ns: self.recv_mono_ns,
            recv_wall_ns: self.recv_wall_ns,
            venue_ts_ns: self.venue_ts_ns,
            venue_seq: self.venue_seq,
            price,
            qty,
            aux,
            instrument: self.instrument,
            kind: kind.code(),
            venue: self.venue.code(),
            flags: self.flags,
            rsvd: 0,
        }
    }
}

/// One event of the given kind per (price, quantity) level, in order.
pub open spec fn level_events(s: Stamp, kind: EventKind, levels: Seq<(i64, i64)>) -> Seq<Event> {
    Seq::new(levels.len(), |i: int| s.ev_spec(kind, levels[i].0, levels[i].1, 0))
}

/// A whole snapshot: `Clear`, `SnapBegin` with the level count, the bids, the
/// asks and `SnapEnd` with `end_aux`.
pub open spec fn snapshot_events(
    s: Stamp,
    bids: Seq<(i64, i64)>,
    asks: Seq<(i64, i64)>,
    end_aux: u64,
) -> Seq<Event> {
    seq![
        s.ev_spec(EventKind::Clear, 0, 0, 0),
        s.ev_spec(EventKind::SnapBegin, 0, 0, (bids.len() + asks.len()) as u64),
    ] + level_events(s, EventKind::SnapBid, bids) + level_events(s, EventKind::SnapAsk, asks)
        + seq![s.ev_spec(EventKind::SnapEnd, 0, 0, end_aux)]
}

/// One level more is one event more.
pub proof fn lemma_level_events_push(
    s: Stamp,
    kind: EventKind,
    levels: Seq<(i64, i64)>,
    l: (i64, i64),
)
    ensures
        level_events(s, kind, levels.push(l)) == level_events(s, kind, levels).push(
            s.ev_spec(kind, l.0, l.1, 0),
        ),
{
    assert(level_events(s, kind, levels.push(l)) =~= level_events(s, kind, levels).push(
        s.ev_spec(kind, l.0, l.1, 0),
    ));
}

/// The quantity that the last of `levels` at `price` gives it; none where
/// that is 0 or where there is no such level.
pub open spec fn last_qty(levels: Seq<(i64, i64)>, price: i64) -> Option<i64>
    decreases levels.len(),
{
    if levels.len() == 0 {
        None
    } else if levels.last().0 == price {
        if levels.last().1 == 0 {
            None
        } else {
            Some(levels.last().1)
        }
    } else {
        last_qty(levels.drop_last(), price)
    }
}

/// The snapshot kind of a side's levels.
pub open spec fn snap_kind(side: Side) -> EventKind {
    match side {
        Side::Bid => EventKind::SnapBid,
        Side::Ask => EventKind::SnapAsk,
    }
}

/// The book `c` is the book `b` but for the levels of one side.
pub open spec fn differs_in(side: Side, b: BookState, c: BookState) -> bool {
    match side {
        Side::Bid => c == (BookState { bids: c.bids, ..b }),
        Side::Ask => c == (BookState { asks: c.asks, ..b }),
    }
}

/// What the levels of a snapshot make of a side that is empty.
proof fn lemma_fill(b: BookState, s: Stamp, side: Side, levels: Seq<(i64, i64)>)
    requires
        b.sync == SyncState::Filling,
        b.levels(side).len() == 0,
    ensures
        differs_in(side, b, b.run(level_events(s, snap_kind(side), levels))),
        book::in_order(side, b.run(level_events(s, snap_kind(side), levels)).levels(side)),
        b.cap is None ==> forall|price: i64|
            book::qty_at(
                side,
                b.run(level_events(s, snap_kind(side), levels)).levels(side),
                price,
            ) == #[trigger] last_qty(levels, price),
        book::in_order(side, levels) && (forall|i: int|
            0 <= i < levels.len() ==> (#[trigger] levels[i]).1 != 0) ==> b.run(
            level_events(s, snap_kind(side), levels),
        ).levels(side) == book::capped(levels, b.cap),
    decreases levels.len(),
{
    let kind = snap_kind(side);
    let evs = level_events(s, kind, levels);
    if levels.len() == 0 {
        assert(evs.len() == 0);
        assert(b.levels(side) =~= levels);
    } else {
        let init = levels.drop_last();
        let l = levels.last();
        assert(init.push(l) =~= levels);
        lemma_level_events_push(s, kind, init, l);
        assert(evs.drop_last() =~= level_events(s, kind, init));
        lemma_fill(b, s, side, init);
        let c = b.run(level_events(s, kind, init));
        let before = c.levels(side);
        assert(b.run(evs) == c.set(side, l.0, l.1));
        book::lemma_with_level_in_order(side, before, l.0, l.1);
        if b.cap is None {
            assert forall|price: i64|
                book::qty_at(side, b.run(evs).levels(side), price) == #[trigger] last_qty(
                    levels,
                    price,
                ) by {
                book::lemma_set_then_get(side, before, l.0, l.1, price);
                assert(book::qty_at(side, before, price) == last_qty(init, price));
            }
        }
        if book::in_order(side, levels) && (forall|i: int|
            0 <= i < levels.len() ==> (#[trigger] levels[i]).1 != 0) {
            assert forall|i: int, j: int| 0 <= i < j < init.len() implies book::better(
                side,
                (#[trigger] init[i]).0,
                (#[trigger] init[j]).0,
            ) by {
                assert(init[i] == levels[i] && init[j] == levels[j]);
            }
            assert forall|i: int| 0 <= i < init.len() implies (#[trigger] init[i]).1 != 0 by {
                assert(init[i] == levels[i]);
            }
            assert(before == book::capped(init, b.cap));
            let k = before.len() as int;
            assert forall|i: int| 0 <= i < k implies book::better(
                side,
                (#[trigger] before[i]).0,
                l.0,
            ) by {
                assert(before[i] == levels[i]);
                assert(l == levels[levels.len() - 1]);
            }
            book::lemma_rank_is(side, before, l.0, k);
            assert(l.1 != 0) by {
                assert(l == levels[levels.len() - 1]);
            }
            assert(book::with_level(side, before, l.0, l.1) =~= before.push(l));
            assert(b.run(evs).levels(side) =~= book::capped(levels, b.cap));
        }
    }
}

/// A snapshot rebuilds a book, whatever was in it and whether it was in sync.
/// Afterwards the book is synced and counts no event as dropped. Without a
/// limit on its depth it has, at each price, the quantity of the snapshot's
/// last level at that price. Whatever its depth, where the snapshot's levels
/// come best first and none is empty, they are the book's, cut to its depth.
pub proof fn lemma_snapshot_rebuilds(
    b: BookState,
    s: Stamp,
    bids: Seq<(i64, i64)>,
    asks: Seq<(i64, i64)>,
    end_aux: u64,
)
    ensures
        ({
            let r = b.run(snapshot_events(s, bids, asks, end_aux));
            &&& r.sync == SyncState::Synced
            &&& r.dropped == b.dropped
            &&& r.cap == b.cap
            &&& book::in_order(Side::Bid, r.bids) && book::in_order(Side::Ask, r.asks)
            &&& b.cap is None ==> forall|price: i64|
                book::qty_at(Side::Bid, r.bids, price) == #[trigger] last_qty(bids, price)
            &&& b.cap is None ==> forall|price: i64|
                book::qty_at(Side::Ask, r.asks, price) == #[trigger] last_qty(asks, price)
            &&& book::in_order(Side::Bid, bids) && (forall|i: int|
                0 <= i < bids.len() ==> (#[trigger] bids[i]).1 != 0) ==> r.bids == book::capped(
                bids,
                b.cap,
            )
            &&& book::in_order(Side::Ask, asks) && (forall|i: int|
                0 <= i < asks.len() ==> (#[trigger] asks[i]).1 != 0) ==> r.asks == book::capped(
                asks,
                b.cap,
            )
        }),
{
    let clear = s.ev_spec(EventKind::Clear, 0, 0, 0);
    let begin = s.ev_spec(EventKind::SnapBegin, 0, 0, (bids.len() + asks.len()) as u64);
    let end = s.ev_spec(EventKind::SnapEnd, 0, 0, end_aux);
    let head = seq![clear, begin];
    let lb = level_events(s, EventKind::SnapBid, bids);
    let la = level_events(s, EventKind::SnapAsk, asks);
    let tail = seq![end];
    let r0 = b.run(head);
    assert(head.drop_last() =~= seq![clear]);
    assert(seq![clear].drop_last() =~= Seq::<Event>::empty());
    assert(b.run(seq![clear]) == b.run(seq![clear].drop_last()).step(clear).0);
    assert(r0 == b.run(seq![clear]).step(begin).0);
    assert(r0 == (BookState { sync: SyncState::Filling, ..b.emptied() }));
    let r1 = r0.run(lb);
    lemma_fill(r0, s, Side::Bid, bids);
    let r2 = r1.run(la);
    lemma_fill(r1, s, Side::Ask, asks);
    assert(tail.drop_last() =~= Seq::<Event>::empty());
    assert(r2.run(tail) == r2.run(tail.drop_last()).step(end).0);
    book::lemma_run_concat(b, head, lb);
    book::lemma_run_concat(b, head + lb, la);
    book::lemma_run_concat(b, head + lb + la, tail);
}

} // verus!
