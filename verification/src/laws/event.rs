//! Laws of the normalized event and its wire record.
use crate::emit;
use crate::emit::Stamp;
use crate::event;
use crate::event::{flags, Event, EventKind, Side, Venue};
use vstd::bytes::*;
use vstd::prelude::*;

verus! {

/// The wire codes: kinds are numbered from 1 in the order in which they are
/// listed, every other byte is no kind, and the flags are single bits.
pub proof fn lemma_wire_codes(v: u8)
    ensures
        EventKind::BidSet.code_spec() == 1,
        EventKind::AskSet.code_spec() == 2,
        EventKind::Trade.code_spec() == 3,
        EventKind::SnapBegin.code_spec() == 4,
        EventKind::SnapBid.code_spec() == 5,
        EventKind::SnapAsk.code_spec() == 6,
        EventKind::SnapEnd.code_spec() == 7,
        EventKind::Checksum.code_spec() == 8,
        EventKind::Heartbeat.code_spec() == 9,
        EventKind::Gap.code_spec() == 10,
        EventKind::Clear.code_spec() == 11,
        event::kind_of(v) is Ok <==> 1 <= v <= 11,
        event::kind_of(v) matches Ok(k) ==> k.code_spec() == v,
        event::kind_of(v) matches Err(x) ==> x == v,
        Venue::Coinbase.code_spec() == 1,
        Venue::Binance.code_spec() == 2,
        Venue::Kraken.code_spec() == 3,
        event::venue_of(v) is Ok <==> 1 <= v <= 3,
        event::venue_of(v) matches Ok(x) ==> x.code_spec() == v,
        event::venue_of(v) matches Err(x) ==> x == v,
        flags::TAKER_SELL == 1,
        flags::FROM_SNAPSHOT == 2,
        flags::SYNTHETIC == 4,
{
}

/// Only the four kinds that carry a level have a side.
pub proof fn lemma_side_of_kind(e: Event)
    ensures
        e.side_spec() == Some(Side::Bid) <==> e.kind == 1 || e.kind == 5,
        e.side_spec() == Some(Side::Ask) <==> e.kind == 2 || e.kind == 6,
{
}

/// Levels and snapshot brackets and a clear are of the book; trades,
/// checksums, heartbeats and gaps are not, and no unknown kind is.
pub proof fn lemma_book_kinds(e: Event)
    ensures
        e.is_book_spec() <==> 1 <= e.kind <= 7 && e.kind != 3 || e.kind == 11,
        e.side_spec() is Some ==> e.is_book_spec(),
{
}

/// Where the wire record of an event holds each of its fields: 64 bytes,
/// seven little-endian words, the instrument and four single bytes.
pub proof fn lemma_record_layout(e: Event)
    ensures
        ({
            let b = event::encode(e);
            &&& b.len() == 64
            &&& spec_u64_from_le_bytes(b.subrange(0, 8)) == e.recv_mono_ns
            &&& spec_u64_from_le_bytes(b.subrange(8, 16)) == e.recv_wall_ns
            &&& spec_u64_from_le_bytes(b.subrange(16, 24)) == e.venue_ts_ns
            &&& spec_u64_from_le_bytes(b.subrange(24, 32)) == e.venue_seq
            &&& spec_u64_from_le_bytes(b.subrange(32, 40)) == e.price as u64
            &&& spec_u64_from_le_bytes(b.subrange(40, 48)) == e.qty as u64
            &&& spec_u64_from_le_bytes(b.subrange(48, 56)) == e.aux
            &&& spec_u32_from_le_bytes(b.subrange(56, 60)) == e.instrument
            &&& b[60] == e.kind
            &&& b[61] == e.venue
            &&& b[62] == e.flags
            &&& b[63] == e.rsvd
        }),
{
    lemma_auto_spec_u64_to_from_le_bytes();
    lemma_auto_spec_u32_to_from_le_bytes();
    let b = event::encode(e);
    assert(b.subrange(0, 8) =~= spec_u64_to_le_bytes(e.recv_mono_ns));
    assert(b.subrange(8, 16) =~= spec_u64_to_le_bytes(e.recv_wall_ns));
    assert(b.subrange(16, 24) =~= spec_u64_to_le_bytes(e.venue_ts_ns));
    assert(b.subrange(24, 32) =~= spec_u64_to_le_bytes(e.venue_seq));
    assert(b.subrange(32, 40) =~= spec_u64_to_le_bytes(e.price as u64));
    assert(b.subrange(40, 48) =~= spec_u64_to_le_bytes(e.qty as u64));
    assert(b.subrange(48, 56) =~= spec_u64_to_le_bytes(e.aux));
    assert(b.subrange(56, 60) =~= spec_u32_to_le_bytes(e.instrument));
}

/// A run of records holds one event in each 64 bytes, in order; a rest that
/// is shorter than a record is no event.
pub proof fn lemma_records_of_run(s: Seq<Event>, b: Seq<u8>, i: int)
    ensures
        event::encode_all(s).len() == 64 * s.len(),
        0 <= i < s.len() ==> event::encode_all(s).subrange(64 * i, 64 * i + 64) == event::encode(
            s[i],
        ),
        64 * event::decode_all(b).len() <= b.len() < 64 * event::decode_all(b).len() + 64,
        0 <= i < event::decode_all(b).len() ==> event::decode_all(b)[i] == event::decode(
            b.subrange(64 * i, 64 * i + 64),
        ),
    decreases s.len(),
{
    if s.len() > 0 {
        let t = s.drop_last();
        lemma_records_of_run(t, b, i);
        lemma_record_layout(s.last());
        if 0 <= i < t.len() {
            assert(event::encode_all(s).subrange(64 * i, 64 * i + 64) =~= event::encode_all(
                t,
            ).subrange(64 * i, 64 * i + 64));
        } else if i == t.len() {
            assert(event::encode_all(s).subrange(64 * i, 64 * i + 64) =~= event::encode(s[i]));
        }
    }
}

/// An event that a message gives rise to carries the message's constants and
/// its own kind, price, quantity and `aux`.
pub proof fn lemma_event_of_message(s: Stamp, kind: EventKind, price: i64, qty: i64, aux: u64)
    ensures
        ({
            let e = s.ev_spec(kind, price, qty, aux);
            &&& e.recv_mono_ns == s.recv_mono_ns
            &&& e.recv_wall_ns == s.recv_wall_ns
            &&& e.venue_ts_ns == s.venue_ts_ns
            &&& e.venue_seq == s.venue_seq
            &&& e.instrument == s.instrument
            &&& event::venue_of(e.venue) == Ok::<Venue, u8>(s.venue)
            &&& event::kind_of(e.kind) == Ok::<EventKind, u8>(kind)
            &&& e.flags == s.flags
            &&& e.price == price
            &&& e.qty == qty
            &&& e.aux == aux
            &&& e.rsvd == 0
        }),
{
}

/// A list of levels comes to one event for each level, in order, with its
/// price and quantity.
pub proof fn lemma_events_of_levels(
    s: Stamp,
    kind: EventKind,
    levels: Seq<(i64, i64)>,
    i: int,
)
    ensures
        emit::level_events(s, kind, levels).len() == levels.len(),
        0 <= i < levels.len() ==> {
            let e = emit::level_events(s, kind, levels)[i];
            &&& event::kind_of(e.kind) == Ok::<EventKind, u8>(kind)
            &&& e.price == levels[i].0
            &&& e.qty == levels[i].1
            &&& e.aux == 0
            &&& e.venue_seq == s.venue_seq
            &&& e.venue_ts_ns == s.venue_ts_ns
            &&& e.instrument == s.instrument
            &&& e.flags == s.flags
        },
{
}

/// A snapshot of `n` bids and `m` asks comes to `n + m + 3` events: `Clear`,
/// `SnapBegin` with the number of levels, the bids, the asks, `SnapEnd`.
pub proof fn lemma_events_of_snapshot(
    s: Stamp,
    bids: Seq<(i64, i64)>,
    asks: Seq<(i64, i64)>,
    end_aux: u64,
    i: int,
)
    requires
        bids.len() + asks.len() <= u64::MAX,
    ensures
        ({
            let evs = emit::snapshot_events(s, bids, asks, end_aux);
            let n = bids.len();
            let m = asks.len();
            &&& evs.len() == n + m + 3
            &&& evs[0].kind == 11 && evs[0].price == 0 && evs[0].qty == 0 && evs[0].aux == 0
            &&& evs[1].kind == 4 && evs[1].aux == n + m && evs[1].price == 0 && evs[1].qty == 0
            &&& evs.last().price == 0 && evs.last().qty == 0
            &&& 2 <= i < 2 + n + m ==> evs[i].aux == 0
            &&& 0 <= i < n ==> evs[2 + i].kind == 5 && evs[2 + i].price == bids[i].0 && evs[2
                + i].qty == bids[i].1
            &&& 0 <= i < m ==> evs[2 + n + i].kind == 6 && evs[2 + n + i].price == asks[i].0
                && evs[2 + n + i].qty == asks[i].1
            &&& evs[(2 + n + m) as int].kind == 7 && evs[(2 + n + m) as int].aux == end_aux
            &&& 0 <= i < evs.len() ==> evs[i].instrument == s.instrument && evs[i].flags == s.flags
                && evs[i].venue_seq == s.venue_seq && evs[i].venue_ts_ns == s.venue_ts_ns
                && evs[i].recv_mono_ns == s.recv_mono_ns && evs[i].recv_wall_ns
                == s.recv_wall_ns && evs[i].venue == s.venue.code_spec()
        }),
{
    let n = bids.len();
    let m = asks.len();
    let evs = emit::snapshot_events(s, bids, asks, end_aux);
    let b = emit::level_events(s, EventKind::SnapBid, bids);
    let a = emit::level_events(s, EventKind::SnapAsk, asks);
    if 0 <= i < n {
        assert(evs[2 + i] == b[i]);
    }
    if 0 <= i < m {
        assert(evs[2 + n + i] == a[i]);
    }
    if 2 <= i < 2 + n {
        assert(evs[i] == b[i - 2]);
    } else if 2 + n <= i < 2 + n + m {
        assert(evs[i] == a[i - 2 - n]);
    }
}

} // verus!
