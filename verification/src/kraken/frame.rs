//! What a Kraken frame says, and the grammar of the compact frames that the
//! fast path reads.
use crate::codec;
use crate::codec::{CodecError, Signal};
use crate::emit;
use crate::emit::Stamp;
use crate::event::{flags, Event, EventKind, Venue};
use crate::scan;
use vstd::prelude::*;

verus! {

/// One `book` data entry: the levels of one instrument.
pub struct BookEntry {
    pub instrument: u32,
    pub bids: Seq<(i64, i64)>,
    pub asks: Seq<(i64, i64)>,
    pub checksum: u64,
    /// Venue timestamp; 0 for a snapshot.
    pub ts: u64,
}

/// One `trade` data entry.
pub struct TradeEntry {
    pub instrument: u32,
    pub taker_sell: bool,
    pub price: i64,
    pub qty: i64,
    pub id: u64,
    pub ts: u64,
}

/// What one frame says.
pub enum Frame {
    /// Book entries, of a snapshot or of an update.
    Book(bool, Seq<BookEntry>),
    /// Trades, of a snapshot or of an update.
    Trade(bool, Seq<TradeEntry>),
    Heartbeat,
    Control,
    Ignored,
}

/// The constants of Kraken's events for one instrument.
pub open spec fn stamp(
    instrument: u32,
    ts: u64,
    seq: u64,
    fl: u8,
    recv_mono_ns: u64,
    recv_wall_ns: u64,
) -> Stamp {
    Stamp {
        recv_mono_ns,
        recv_wall_ns,
        venue_ts_ns: ts,
        venue_seq: seq,
        instrument,
        venue: Venue::Kraken,
        flags: fl,
    }
}

/// The events of a book entry: a snapshot bracket that ends with the
/// checksum, or the level changes and a `Checksum`.
pub open spec fn book_events(
    snapshot: bool,
    e: BookEntry,
    recv_mono_ns: u64,
    recv_wall_ns: u64,
) -> Seq<Event> {
    if snapshot {
        emit::snapshot_events(
            stamp(e.instrument, 0, 0, flags::FROM_SNAPSHOT, recv_mono_ns, recv_wall_ns),
            e.bids,
            e.asks,
            e.checksum,
        )
    } else {
        let s = stamp(e.instrument, e.ts, 0, 0, recv_mono_ns, recv_wall_ns);
        emit::level_events(s, EventKind::BidSet, e.bids) + emit::level_events(
            s,
            EventKind::AskSet,
            e.asks,
        ) + seq![s.ev_spec(EventKind::Checksum, 0, 0, e.checksum)]
    }
}

/// The flags of a trade.
pub open spec fn trade_flags(snapshot: bool, taker_sell: bool) -> u8 {
    if snapshot {
        if taker_sell {
            3
        } else {
            2
        }
    } else if taker_sell {
        1
    } else {
        0
    }
}

/// The event of a trade.
pub open spec fn trade_event(
    snapshot: bool,
    e: TradeEntry,
    recv_mono_ns: u64,
    recv_wall_ns: u64,
) -> Event {
    stamp(
        e.instrument,
        e.ts,
        e.id,
        trade_flags(snapshot, e.taker_sell),
        recv_mono_ns,
        recv_wall_ns,
    ).ev_spec(EventKind::Trade, e.price, e.qty, e.id)
}

/// The events of the book entries `es`, entry by entry.
pub open spec fn all_book_events(
    snapshot: bool,
    es: Seq<BookEntry>,
    recv_mono_ns: u64,
    recv_wall_ns: u64,
) -> Seq<Event>
    decreases es.len(),
{
    if es.len() == 0 {
        Seq::empty()
    } else {
        all_book_events(snapshot, es.drop_last(), recv_mono_ns, recv_wall_ns) + book_events(
            snapshot,
            es.last(),
            recv_mono_ns,
            recv_wall_ns,
        )
    }
}

/// The events of a frame.
pub open spec fn frame_events(f: Frame, recv_mono_ns: u64, recv_wall_ns: u64) -> Seq<Event> {
    match f {
        Frame::Book(snapshot, es) => all_book_events(snapshot, es, recv_mono_ns, recv_wall_ns),
        Frame::Trade(snapshot, es) => Seq::new(
            es.len(),
            |i: int| trade_event(snapshot, es[i], recv_mono_ns, recv_wall_ns),
        ),
        Frame::Heartbeat => seq![
            stamp(0, 0, 0, 0, recv_mono_ns, recv_wall_ns).ev_spec(EventKind::Heartbeat, 0, 0, 0),
        ],
        Frame::Control => Seq::empty(),
        Frame::Ignored => Seq::empty(),
    }
}

/// The signal of a frame.
pub open spec fn frame_signal(f: Frame) -> Signal {
    match f {
        Frame::Control => Signal::Control,
        Frame::Ignored => Signal::Ignored,
        _ => Signal::Nothing,
    }
}

/// What parsing a frame comes to.
pub open spec fn frame_outcome(
    f: Result<Frame, CodecError>,
    recv_mono_ns: u64,
    recv_wall_ns: u64,
) -> codec::Outcome {
    match f {
        Ok(f) => Ok((frame_signal(f), frame_events(f, recv_mono_ns, recv_wall_ns))),
        Err(e) => Err(e),
    }
}

/// `e` is an event of Kraken's that came in at the given time, and no gap.
pub open spec fn plain_event(e: Event, recv_mono_ns: u64, recv_wall_ns: u64) -> bool {
    &&& e.venue == Venue::Kraken.code_spec()
    &&& e.kind != EventKind::Gap.code_spec()
    &&& e.recv_mono_ns == recv_mono_ns
    &&& e.recv_wall_ns == recv_wall_ns
    &&& e.rsvd == 0
}

/// Every event of a frame is Kraken's and carries the frame's receive
/// timestamps, and none of them is a `Gap`.
pub proof fn lemma_frame_events(f: Frame, recv_mono_ns: u64, recv_wall_ns: u64)
    ensures
        forall|i: int|
            0 <= i < frame_events(f, recv_mono_ns, recv_wall_ns).len() ==> plain_event(
                #[trigger] frame_events(f, recv_mono_ns, recv_wall_ns)[i],
                recv_mono_ns,
                recv_wall_ns,
            ),
{
    if let Frame::Book(snapshot, es) = f {
        lemma_book_events(snapshot, es, recv_mono_ns, recv_wall_ns);
    }
}

proof fn lemma_book_events(
    snapshot: bool,
    es: Seq<BookEntry>,
    recv_mono_ns: u64,
    recv_wall_ns: u64,
)
    ensures
        forall|i: int|
            0 <= i < all_book_events(snapshot, es, recv_mono_ns, recv_wall_ns).len()
                ==> plain_event(
                #[trigger] all_book_events(snapshot, es, recv_mono_ns, recv_wall_ns)[i],
                recv_mono_ns,
                recv_wall_ns,
            ),
    decreases es.len(),
{
    if es.len() > 0 {
        let init = all_book_events(snapshot, es.drop_last(), recv_mono_ns, recv_wall_ns);
        let all = all_book_events(snapshot, es, recv_mono_ns, recv_wall_ns);
        lemma_book_events(snapshot, es.drop_last(), recv_mono_ns, recv_wall_ns);
        assert forall|i: int| 0 <= i < all.len() implies plain_event(
            #[trigger] all[i],
            recv_mono_ns,
            recv_wall_ns,
        ) by {
            if i < init.len() {
                assert(all[i] == init[i]);
            } else {
                assert(all[i] == book_events(
                    snapshot,
                    es.last(),
                    recv_mono_ns,
                    recv_wall_ns,
                )[i - init.len()]);
            }
        }
    }
}

/// Where a JSON list goes on from `i`: behind its closing bracket (`true`),
/// or at its next item, which a comma has to precede unless it is the first.
pub open spec fn list_at(
    b: Seq<u8>,
    i: int,
    first: bool,
    separator: &'static str,
) -> Result<(bool, int), CodecError> {
    let j = scan::ws_end(b, i);
    if scan::byte_at(b, j, 0x5d) {
        Ok((true, j + 1))
    } else if first {
        Ok((false, j))
    } else if scan::byte_at(b, j, 0x2c) {
        Ok((false, scan::ws_end(b, j + 1)))
    } else {
        Err(CodecError::Structure(separator))
    }
}

/// A list goes on within the payload.
pub proof fn lemma_list_at(b: Seq<u8>, i: int, first: bool, separator: &'static str)
    requires
        0 <= i <= b.len(),
    ensures
        list_at(b, i, first, separator) matches Ok(x) ==> i <= x.1 <= b.len() && (x.0 || !first
            ==> i < x.1),
{
    scan::lemma_ws_end(b, i);
    if scan::byte_at(b, scan::ws_end(b, i), 0x2c) {
        scan::lemma_ws_end(b, scan::ws_end(b, i) + 1);
    }
}

/// The level `{"price":<number>,"qty":<number>}` of `b` at `i`.
pub open spec fn level_at(b: Seq<u8>, i: int) -> Result<((i64, i64), int), CodecError> {
    match scan::lit_at(b, i, codec::lit("{\"price\":")) {
        None => Err(CodecError::Structure("level price")),
        Some(i) => match scan::num_at(b, i) {
            None => Err(CodecError::Structure("price token")),
            Some((p, i)) => match scan::lit_at(b, i, codec::lit(",\"qty\":")) {
                None => Err(CodecError::Structure("level qty")),
                Some(i) => match scan::num_at(b, i) {
                    None => Err(CodecError::Structure("qty token")),
                    Some((q, i)) => if !scan::byte_at(b, i, 0x7d) {
                        Err(CodecError::Structure("level end"))
                    } else {
                        match codec::fixed_pair_spec(p, q) {
                            Err(e) => Err(e),
                            Ok(l) => Ok((l, i + 1)),
                        }
                    },
                },
            },
        },
    }
}

/// A level takes some bytes of the payload.
pub proof fn lemma_level_at(b: Seq<u8>, i: int)
    requires
        0 <= i <= b.len(),
    ensures
        level_at(b, i) matches Ok(x) ==> i < x.1 <= b.len(),
{
    if let Some(j) = scan::lit_at(b, i, codec::lit("{\"price\":")) {
        scan::lemma_num_end(b, j);
        if let Some((p, k)) = scan::num_at(b, j) {
            if let Some(l) = scan::lit_at(b, k, codec::lit(",\"qty\":")) {
                scan::lemma_num_end(b, l);
            }
        }
    }
}

/// The rest of a level list from `i` on, behind the levels `acc`, and the
/// offset behind its closing bracket.
pub open spec fn levels_at(b: Seq<u8>, i: int, acc: Seq<(i64, i64)>) -> Result<
    (Seq<(i64, i64)>, int),
    CodecError,
>
    decreases b.len() - i,
        when 0 <= i <= b.len()
{
    match list_at(b, i, acc.len() == 0, "level separator") {
        Err(e) => Err(e),
        Ok((true, j)) => Ok((acc, j)),
        Ok((false, j)) => match level_at(b, j) {
            Err(e) => Err(e),
            Ok((l, k)) => {
                proof {
                    lemma_list_at(b, i, acc.len() == 0, "level separator");
                    lemma_level_at(b, j);
                }
                levels_at(b, k, acc.push(l))
            },
        },
    }
}

/// A level list ends within the payload, and holds no more levels than
/// bytes.
pub proof fn lemma_levels_at(b: Seq<u8>, i: int, acc: Seq<(i64, i64)>)
    requires
        0 <= i <= b.len(),
    ensures
        levels_at(b, i, acc) matches Ok(x) ==> i < x.1 <= b.len() && x.0.len() - acc.len() <= x.1
            - i,
    decreases b.len() - i,
{
    lemma_list_at(b, i, acc.len() == 0, "level separator");
    match list_at(b, i, acc.len() == 0, "level separator") {
        Ok((false, j)) => {
            lemma_level_at(b, j);
            if let Ok((l, k)) = level_at(b, j) {
                lemma_levels_at(b, k, acc.push(l));
            }
        },
        _ => {},
    }
}

/// `"type":"snapshot"` or `"type":"update"`, from `i` on: whether it is a
/// snapshot.
pub open spec fn type_at(b: Seq<u8>, i: int) -> Result<(bool, int), CodecError> {
    match scan::past(b, i, codec::lit("\"type\":")) {
        None => Err(CodecError::Structure("msg type")),
        Some(i) => match scan::str_at(b, i) {
            None => Err(CodecError::Structure("msg type value")),
            Some((s, i)) => if s == codec::lit("snapshot") {
                Ok((true, i))
            } else if s == codec::lit("update") {
                Ok((false, i))
            } else {
                Err(CodecError::Structure("msg type value"))
            },
        },
    }
}

/// The optional `,"timestamp":"..."` at `i`: its text, if it is there.
pub open spec fn timestamp_at(b: Seq<u8>, i: int) -> Result<(Option<Seq<u8>>, int), CodecError> {
    match scan::lit_at(b, i, codec::lit(",\"timestamp\":")) {
        None => Ok((None, i)),
        Some(i) => match scan::str_at(b, i) {
            None => Err(CodecError::Structure("book timestamp")),
            Some((s, i)) => Ok((Some(s), i)),
        },
    }
}

/// The bids and the asks of a book entry, from behind its symbol on.
pub open spec fn sides_at(b: Seq<u8>, i: int) -> Result<
    (Seq<(i64, i64)>, Seq<(i64, i64)>, int),
    CodecError,
> {
    match scan::lit_at(b, i, codec::lit(",\"bids\":[")) {
        None => Err(CodecError::Structure("book bids")),
        Some(i) => match levels_at(b, i, Seq::empty()) {
            Err(e) => Err(e),
            Ok((bids, i)) => match scan::lit_at(b, i, codec::lit(",\"asks\":[")) {
                None => Err(CodecError::Structure("book asks")),
                Some(i) => match levels_at(b, i, Seq::empty()) {
                    Err(e) => Err(e),
                    Ok((asks, i)) => Ok((bids, asks, i)),
                },
            },
        },
    }
}

/// The two sides end within the payload, and hold no more levels than bytes.
pub proof fn lemma_sides_at(b: Seq<u8>, i: int)
    requires
        0 <= i <= b.len(),
    ensures
        sides_at(b, i) matches Ok(x) ==> i < x.2 <= b.len() && x.0.len() + x.1.len() <= b.len(),
{
    if let Ok(x) = sides_at(b, i) {
        let j = scan::lit_at(b, i, codec::lit(",\"bids\":[")).unwrap();
        lemma_levels_at(b, j, Seq::empty());
        let j = levels_at(b, j, Seq::empty()).unwrap().1;
        let j = scan::lit_at(b, j, codec::lit(",\"asks\":[")).unwrap();
        lemma_levels_at(b, j, Seq::empty());
    }
}

/// The levels, the checksum and the timestamp of a book entry, from behind
/// its symbol on.
pub open spec fn entry_body_at(b: Seq<u8>, i: int, instrument: u32, snapshot: bool) -> Result<
    (BookEntry, int),
    CodecError,
> {
    match sides_at(b, i) {
        Err(e) => Err(e),
        Ok((bids, asks, i)) => entry_tail_at(b, i, instrument, snapshot, bids, asks),
    }
}

/// The checksum and the timestamp of a book entry, and its closing brace. A
/// snapshot's timestamp is skipped; an update has to have one.
pub open spec fn entry_tail_at(
    b: Seq<u8>,
    i: int,
    instrument: u32,
    snapshot: bool,
    bids: Seq<(i64, i64)>,
    asks: Seq<(i64, i64)>,
) -> Result<(BookEntry, int), CodecError> {
    match scan::lit_at(b, i, codec::lit(",\"checksum\":")) {
        None => Err(CodecError::Structure("book checksum")),
        Some(i) => match scan::u64_at(b, i) {
            (None, _) => Err(CodecError::Structure("book checksum value")),
            (Some(checksum), i) => match timestamp_at(b, i) {
                Err(e) => Err(e),
                Ok((text, i)) => {
                    let ts = match text {
                        Some(t) => if snapshot {
                            None
                        } else {
                            scan::rfc3339_spec(t)
                        },
                        None => None,
                    };
                    if !snapshot && text is Some && ts is None {
                        Err(CodecError::Structure("bad timestamp"))
                    } else if !scan::byte_at(b, scan::ws_end(b, i), 0x7d) {
                        Err(CodecError::Structure("book entry end"))
                    } else if !snapshot && text is None {
                        Err(CodecError::Structure("update missing timestamp"))
                    } else {
                        Ok(
                            (
                                BookEntry {
                                    instrument,
                                    bids,
                                    asks,
                                    checksum,
                                    ts: match ts {
                                        Some(t) => t,
                                        None => 0,
                                    },
                                },
                                scan::ws_end(b, i) + 1,
                            ),
                        )
                    }
                },
            },
        },
    }
}

/// The book entry of `b` at `i`, with its symbol looked up in `table`.
#[verifier::opaque]
pub open spec fn entry_at(
    b: Seq<u8>,
    i: int,
    table: Seq<(Seq<u8>, u32)>,
    snapshot: bool,
) -> Result<(BookEntry, int), CodecError> {
    if !scan::byte_at(b, i, 0x7b) {
        Err(CodecError::Structure("book entry"))
    } else {
        match scan::past(b, i + 1, codec::lit("\"symbol\":")) {
            None => Err(CodecError::Structure("book symbol")),
            Some(i) => match scan::str_at(b, i) {
                None => Err(CodecError::Structure("book symbol string")),
                Some((sym, i)) => match codec::lookup_in(table, sym) {
                    None => Err(CodecError::UnknownInstrument),
                    Some(instrument) => entry_body_at(b, i, instrument, snapshot),
                },
            },
        }
    }
}

/// A book entry takes some bytes of the payload.
pub proof fn lemma_entry_at(
    b: Seq<u8>,
    i: int,
    table: Seq<(Seq<u8>, u32)>,
    snapshot: bool,
)
    requires
        0 <= i <= b.len(),
    ensures
        entry_at(b, i, table, snapshot) matches Ok(x) ==> i < x.1 <= b.len(),
{
    reveal(entry_at);
    if let Ok(x) = entry_at(b, i, table, snapshot) {
        let sym = codec::lit("\"symbol\":");
        scan::lemma_past(b, i + 1, sym);
        let j = scan::past(b, i + 1, sym).unwrap();
        scan::lemma_str_at(b, j);
        let j = scan::str_at(b, j).unwrap().1;
        lemma_sides_at(b, j);
        let j = sides_at(b, j).unwrap().2;
        let j = scan::lit_at(b, j, codec::lit(",\"checksum\":")).unwrap();
        scan::lemma_u64_at(b, j);
        let j = scan::u64_at(b, j).1;
        if let Some(k) = scan::lit_at(b, j, codec::lit(",\"timestamp\":")) {
            scan::lemma_str_at(b, k);
        }
        scan::lemma_ws_end(b, timestamp_at(b, j).unwrap().1);
    }
}

/// The rest of the book entries from `i` on, behind the entries `acc`.
pub open spec fn entries_at(
    b: Seq<u8>,
    i: int,
    table: Seq<(Seq<u8>, u32)>,
    snapshot: bool,
    acc: Seq<BookEntry>,
) -> Result<Seq<BookEntry>, CodecError>
    decreases b.len() - i,
        when 0 <= i <= b.len()
{
    match list_at(b, i, acc.len() == 0, "book entry separator") {
        Err(e) => Err(e),
        Ok((true, j)) => Ok(acc),
        Ok((false, j)) => match entry_at(b, j, table, snapshot) {
            Err(e) => Err(e),
            Ok((x, k)) => {
                proof {
                    lemma_list_at(b, i, acc.len() == 0, "book entry separator");
                    lemma_entry_at(b, j, table, snapshot);
                }
                entries_at(b, k, table, snapshot, acc.push(x))
            },
        },
    }
}

/// The `book` frame of `b`, read from its opening brace at `i` on.
pub open spec fn book_at(b: Seq<u8>, i: int, table: Seq<(Seq<u8>, u32)>) -> Result<
    Frame,
    CodecError,
> {
    match type_at(b, i) {
        Err(e) => Err(e),
        Ok((snapshot, i)) => match scan::past(b, i, codec::lit("\"data\":")) {
            None => Err(CodecError::Structure("book data")),
            Some(i) => if !scan::byte_at(b, i, 0x5b) {
                Err(CodecError::Structure("book data array"))
            } else {
                match entries_at(b, i + 1, table, snapshot, Seq::empty()) {
                    Err(e) => Err(e),
                    Ok(es) => Ok(Frame::Book(snapshot, es)),
                }
            },
        },
    }
}

/// The taker side of a trade, from behind its symbol on: whether it sold.
pub open spec fn side_at(b: Seq<u8>, i: int) -> Result<(bool, int), CodecError> {
    match scan::lit_at(b, i, codec::lit(",\"side\":")) {
        None => Err(CodecError::Structure("trade side")),
        Some(i) => match scan::str_at(b, i) {
            None => Err(CodecError::Structure("trade side string")),
            Some((s, i)) => if s == codec::lit("sell") {
                Ok((true, i))
            } else if s == codec::lit("buy") {
                Ok((false, i))
            } else {
                Err(CodecError::Structure("trade side value"))
            },
        },
    }
}

/// The price and quantity tokens of a trade.
pub open spec fn price_qty_at(b: Seq<u8>, i: int) -> Result<
    (Seq<u8>, Seq<u8>, int),
    CodecError,
> {
    match scan::lit_at(b, i, codec::lit(",\"price\":")) {
        None => Err(CodecError::Structure("trade price")),
        Some(i) => match scan::num_at(b, i) {
            None => Err(CodecError::Structure("price token")),
            Some((p, i)) => match scan::lit_at(b, i, codec::lit(",\"qty\":")) {
                None => Err(CodecError::Structure("trade qty")),
                Some(i) => match scan::num_at(b, i) {
                    None => Err(CodecError::Structure("qty token")),
                    Some((q, i)) => Ok((p, q, i)),
                },
            },
        },
    }
}

/// The id and the timestamp of a trade, behind its order type, up to its
/// closing brace.
pub open spec fn id_ts_at(b: Seq<u8>, i: int) -> Result<(u64, u64, int), CodecError> {
    match scan::lit_at(b, i, codec::lit(",\"ord_type\":")) {
        None => Err(CodecError::Structure("trade ord_type")),
        Some(i) => match scan::str_at(b, i) {
            None => Err(CodecError::Structure("ord_type string")),
            Some((_, i)) => match scan::lit_at(b, i, codec::lit(",\"trade_id\":")) {
                None => Err(CodecError::Structure("trade id")),
                Some(i) => match scan::u64_at(b, i) {
                    (None, _) => Err(CodecError::Structure("trade id value")),
                    (Some(id), i) => match scan::lit_at(b, i, codec::lit(",\"timestamp\":")) {
                        None => Err(CodecError::Structure("trade timestamp")),
                        Some(i) => match scan::str_at(b, i) {
                            None => Err(CodecError::Structure("timestamp string")),
                            Some((t, i)) => match scan::rfc3339_spec(t) {
                                None => Err(CodecError::Structure("bad timestamp")),
                                Some(ts) => if !scan::byte_at(b, scan::ws_end(b, i), 0x7d) {
                                    Err(CodecError::Structure("trade entry end"))
                                } else {
                                    Ok((id, ts, scan::ws_end(b, i) + 1))
                                },
                            },
                        },
                    },
                },
            },
        },
    }
}

/// The trade of `instrument`, from behind its symbol on.
pub open spec fn trade_body_at(b: Seq<u8>, i: int, instrument: u32) -> Result<
    (TradeEntry, int),
    CodecError,
> {
    match side_at(b, i) {
        Err(e) => Err(e),
        Ok((taker_sell, i)) => match price_qty_at(b, i) {
            Err(e) => Err(e),
            Ok((p, q, i)) => match id_ts_at(b, i) {
                Err(e) => Err(e),
                Ok((id, ts, i)) => match codec::fixed_pair_spec(p, q) {
                    Err(e) => Err(e),
                    Ok((price, qty)) => Ok(
                        (TradeEntry { instrument, taker_sell, price, qty, id, ts }, i),
                    ),
                },
            },
        },
    }
}

/// The trade of `b` at `i`, with its symbol looked up in `table`.
#[verifier::opaque]
pub open spec fn trade_at(b: Seq<u8>, i: int, table: Seq<(Seq<u8>, u32)>) -> Result<
    (TradeEntry, int),
    CodecError,
> {
    if !scan::byte_at(b, i, 0x7b) {
        Err(CodecError::Structure("trade symbol"))
    } else {
        match scan::lit_at(b, i + 1, codec::lit("\"symbol\":")) {
            None => Err(CodecError::Structure("trade symbol")),
            Some(i) => match scan::str_at(b, i) {
                None => Err(CodecError::Structure("trade symbol string")),
                Some((sym, i)) => match codec::lookup_in(table, sym) {
                    None => Err(CodecError::UnknownInstrument),
                    Some(instrument) => trade_body_at(b, i, instrument),
                },
            },
        }
    }
}

proof fn lemma_trade_body_at(b: Seq<u8>, i: int, instrument: u32)
    requires
        0 <= i <= b.len(),
    ensures
        trade_body_at(b, i, instrument) matches Ok(x) ==> i < x.1 <= b.len(),
{
    if let Ok(x) = trade_body_at(b, i, instrument) {
        let j = scan::lit_at(b, i, codec::lit(",\"side\":")).unwrap();
        scan::lemma_str_at(b, j);
        let j = scan::str_at(b, j).unwrap().1;
        let j = scan::lit_at(b, j, codec::lit(",\"price\":")).unwrap();
        scan::lemma_num_end(b, j);
        let j = scan::num_at(b, j).unwrap().1;
        let j = scan::lit_at(b, j, codec::lit(",\"qty\":")).unwrap();
        scan::lemma_num_end(b, j);
        let j = scan::num_at(b, j).unwrap().1;
        let j = scan::lit_at(b, j, codec::lit(",\"ord_type\":")).unwrap();
        scan::lemma_str_at(b, j);
        let j = scan::str_at(b, j).unwrap().1;
        let j = scan::lit_at(b, j, codec::lit(",\"trade_id\":")).unwrap();
        scan::lemma_u64_at(b, j);
        let j = scan::u64_at(b, j).1;
        let j = scan::lit_at(b, j, codec::lit(",\"timestamp\":")).unwrap();
        scan::lemma_str_at(b, j);
        scan::lemma_ws_end(b, scan::str_at(b, j).unwrap().1);
    }
}

/// A trade takes some bytes of the payload.
pub proof fn lemma_trade_at(b: Seq<u8>, i: int, table: Seq<(Seq<u8>, u32)>)
    requires
        0 <= i <= b.len(),
    ensures
        trade_at(b, i, table) matches Ok(x) ==> i < x.1 <= b.len(),
{
    reveal(trade_at);
    if let Ok(x) = trade_at(b, i, table) {
        let j = scan::lit_at(b, i + 1, codec::lit("\"symbol\":")).unwrap();
        scan::lemma_str_at(b, j);
        let (sym, j) = scan::str_at(b, j).unwrap();
        lemma_trade_body_at(b, j, codec::lookup_in(table, sym).unwrap());
    }
}

/// The rest of the trades from `i` on, behind the trades `acc`.
pub open spec fn trades_at(
    b: Seq<u8>,
    i: int,
    table: Seq<(Seq<u8>, u32)>,
    acc: Seq<TradeEntry>,
) -> Result<Seq<TradeEntry>, CodecError>
    decreases b.len() - i,
        when 0 <= i <= b.len()
{
    match list_at(b, i, acc.len() == 0, "trade separator") {
        Err(e) => Err(e),
        Ok((true, j)) => Ok(acc),
        Ok((false, j)) => match trade_at(b, j, table) {
            Err(e) => Err(e),
            Ok((x, k)) => {
                proof {
                    lemma_list_at(b, i, acc.len() == 0, "trade separator");
                    lemma_trade_at(b, j, table);
                }
                trades_at(b, k, table, acc.push(x))
            },
        },
    }
}

/// The `trade` frame of `b`, read from its opening brace at `i` on.
pub open spec fn trade_frame_at(b: Seq<u8>, i: int, table: Seq<(Seq<u8>, u32)>) -> Result<
    Frame,
    CodecError,
> {
    match type_at(b, i) {
        Err(e) => Err(e),
        Ok((snapshot, i)) => match scan::past(b, i, codec::lit("\"data\":")) {
            None => Err(CodecError::Structure("trade data")),
            Some(i) => if !scan::byte_at(b, i, 0x5b) {
                Err(CodecError::Structure("trade data array"))
            } else {
                match trades_at(b, i + 1, table, Seq::empty()) {
                    Err(e) => Err(e),
                    Ok(es) => Ok(Frame::Trade(snapshot, es)),
                }
            },
        },
    }
}

/// What the fast path reads in the frame `b`.
pub open spec fn fast_frame(b: Seq<u8>, table: Seq<(Seq<u8>, u32)>) -> Result<Frame, CodecError> {
    let i = scan::ws_end(b, 0);
    if scan::occurs_at(b, codec::lit("{\"channel\":\"book\""), i) {
        book_at(b, i, table)
    } else if scan::occurs_at(b, codec::lit("{\"channel\":\"trade\""), i) {
        trade_frame_at(b, i, table)
    } else if scan::occurs_at(b, codec::lit("{\"channel\":\"heartbeat\""), i) {
        Ok(Frame::Heartbeat)
    } else if scan::occurs_at(b, codec::lit("{\"channel\":\"status\""), i) || scan::occurs_at(
        b,
        codec::lit("{\"method\":"),
        i,
    ) {
        Ok(Frame::Control)
    } else if scan::occurs_at(b, codec::lit("{\"channel\":\""), i) {
        Ok(Frame::Ignored)
    } else {
        Err(CodecError::Structure("unrecognized frame"))
    }
}

} // verus!
