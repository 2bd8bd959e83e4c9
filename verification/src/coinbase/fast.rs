//! The grammar of the Coinbase messages that the fast path reads, and the
//! readers for it.
use super::msg;
use super::msg::{Heartbeat, Match, Msg, Snapshot};
use crate::codec;
use crate::codec::{CodecError, SymbolTable};
use crate::emit;
use crate::emit::Stamp;
use crate::event::{flags, Event, EventKind};
use crate::fixed;
use crate::fixed::parse_fixed;
use crate::scan;
use crate::scan::{parse_rfc3339_ns, Cursor};
use crate::text;
use memchr::memmem::{rfind, Finder};
use vstd::prelude::*;

verus! {

/// The string behind the first `key` from `i` on.
pub open spec fn key_str_at(b: Seq<u8>, i: int, key: Seq<u8>, what: &'static str) -> Result<
    (Seq<u8>, int),
    CodecError,
> {
    match scan::past(b, i, key) {
        None => Err(CodecError::Structure(what)),
        Some(j) => elem_str_at(b, j, what),
    }
}

/// The unsigned integer behind the first `key` from `i` on.
pub open spec fn key_u64_at(b: Seq<u8>, i: int, key: Seq<u8>, what: &'static str) -> Result<
    (u64, int),
    CodecError,
> {
    match scan::past(b, i, key) {
        None => Err(CodecError::Structure(what)),
        Some(j) => match scan::u64_at(b, scan::ws_end(b, j)) {
            (None, _) => Err(CodecError::Structure(what)),
            (Some(v), k) => Ok((v, k)),
        },
    }
}

/// The exact decimal in the string behind the first `key` from `i` on.
pub open spec fn key_fixed_at(b: Seq<u8>, i: int, key: Seq<u8>, what: &'static str) -> Result<
    (i64, int),
    CodecError,
> {
    match key_str_at(b, i, key, what) {
        Err(e) => Err(e),
        Ok((s, j)) => match fixed::parse_fixed_spec(s) {
            Err(e) => Err(CodecError::Fixed(e)),
            Ok(v) => Ok((v, j)),
        },
    }
}

/// The string at `i`, behind whitespace.
pub open spec fn elem_str_at(b: Seq<u8>, i: int, what: &'static str) -> Result<
    (Seq<u8>, int),
    CodecError,
> {
    match scan::str_at(b, scan::ws_end(b, i)) {
        None => Err(CodecError::Structure(what)),
        Some(s) => Ok(s),
    }
}

/// The exact decimal in the string at `i`, behind whitespace.
pub open spec fn elem_fixed_at(b: Seq<u8>, i: int, what: &'static str) -> Result<
    (i64, int),
    CodecError,
> {
    match elem_str_at(b, i, what) {
        Err(e) => Err(e),
        Ok((s, j)) => match fixed::parse_fixed_spec(s) {
            Err(e) => Err(CodecError::Fixed(e)),
            Ok(v) => Ok((v, j)),
        },
    }
}

/// Behind the byte `c` at `i`, which whitespace may precede.
pub open spec fn mark_at(b: Seq<u8>, i: int, c: u8, what: &'static str) -> Result<
    int,
    CodecError,
> {
    if scan::byte_at(b, scan::ws_end(b, i), c) {
        Ok(scan::ws_end(b, i) + 1)
    } else {
        Err(CodecError::Structure(what))
    }
}

/// How a JSON list goes on behind an item: with another one (`true`), or with
/// its closing bracket.
pub open spec fn more_at(b: Seq<u8>, i: int, what: &'static str) -> Result<
    (bool, int),
    CodecError,
> {
    let j = scan::ws_end(b, i);
    if scan::byte_at(b, j, 0x2c) {
        Ok((true, j + 1))
    } else if scan::byte_at(b, j, 0x5d) {
        Ok((false, j + 1))
    } else {
        Err(CodecError::Structure(what))
    }
}

/// The side of a level change: whether it is a bid.
pub open spec fn side_of(s: Seq<u8>, what: &'static str) -> Result<bool, CodecError> {
    if s == codec::lit("buy") {
        Ok(true)
    } else if s == codec::lit("sell") {
        Ok(false)
    } else {
        Err(CodecError::Structure(what))
    }
}

/// The two decimals `"price","qty"` at `i`.
pub open spec fn pair_at(
    b: Seq<u8>,
    i: int,
    price: &'static str,
    separator: &'static str,
    qty: &'static str,
) -> Result<((i64, i64), int), CodecError> {
    match elem_fixed_at(b, i, price) {
        Err(e) => Err(e),
        Ok((p, j)) => match mark_at(b, j, 0x2c, separator) {
            Err(e) => Err(e),
            Ok(k) => match elem_fixed_at(b, k, qty) {
                Err(e) => Err(e),
                Ok((q, l)) => Ok(((p, q), l)),
            },
        },
    }
}

/// The level change `["buy","price","qty"]` at `i`.
#[verifier::opaque]
pub open spec fn change_at(b: Seq<u8>, i: int) -> Result<((bool, i64, i64), int), CodecError> {
    match mark_at(b, i, 0x5b, "change entry") {
        Err(e) => Err(e),
        Ok(i) => match elem_str_at(b, i, "change side") {
            Err(e) => Err(e),
            Ok((s, i)) => match side_of(s, "change side") {
                Err(e) => Err(e),
                Ok(bid) => match mark_at(b, i, 0x2c, "change sep") {
                    Err(e) => Err(e),
                    Ok(i) => match pair_at(b, i, "change price", "change sep", "change qty") {
                        Err(e) => Err(e),
                        Ok(((p, q), i)) => match mark_at(b, i, 0x5d, "change end") {
                            Err(e) => Err(e),
                            Ok(i) => Ok(((bid, p, q), i)),
                        },
                    },
                },
            },
        },
    }
}

/// The resting order count that ends a REST level, behind a comma.
pub open spec fn orders_at(b: Seq<u8>, i: int) -> Result<int, CodecError> {
    match mark_at(b, i, 0x2c, "level orders") {
        Err(e) => Err(e),
        Ok(j) => match scan::u64_at(b, scan::ws_end(b, j)) {
            (None, _) => Err(CodecError::Structure("level orders")),
            (Some(_), k) => Ok(k),
        },
    }
}

/// The level `["price","size"]` at `i`, of a REST body `["price","size",n]`.
#[verifier::opaque]
pub open spec fn level_at(b: Seq<u8>, i: int, rest: bool) -> Result<
    ((i64, i64), int),
    CodecError,
> {
    match mark_at(b, i, 0x5b, "level entry") {
        Err(e) => Err(e),
        Ok(i) => match pair_at(b, i, "level price", "level sep", "level qty") {
            Err(e) => Err(e),
            Ok((l, i)) => match (if rest {
                orders_at(b, i)
            } else {
                Ok(i)
            }) {
                Err(e) => Err(e),
                Ok(i) => match mark_at(b, i, 0x5d, "level end") {
                    Err(e) => Err(e),
                    Ok(i) => Ok((l, i)),
                },
            },
        },
    }
}

/// A mark takes some bytes of the payload.
pub proof fn lemma_mark_at(b: Seq<u8>, i: int, c: u8, what: &'static str)
    requires
        0 <= i <= b.len(),
    ensures
        mark_at(b, i, c, what) matches Ok(j) ==> i < j <= b.len(),
{
    scan::lemma_ws_end(b, i);
}

/// Two decimals take some bytes of the payload.
pub proof fn lemma_pair_at(
    b: Seq<u8>,
    i: int,
    price: &'static str,
    separator: &'static str,
    qty: &'static str,
)
    requires
        0 <= i <= b.len(),
    ensures
        pair_at(b, i, price, separator, qty) matches Ok(x) ==> i < x.1 <= b.len(),
{
    scan::lemma_ws_end(b, i);
    scan::lemma_str_at(b, scan::ws_end(b, i));
    if let Ok((p, j)) = elem_fixed_at(b, i, price) {
        lemma_mark_at(b, j, 0x2c, separator);
        if let Ok(k) = mark_at(b, j, 0x2c, separator) {
            scan::lemma_ws_end(b, k);
            scan::lemma_str_at(b, scan::ws_end(b, k));
        }
    }
}

/// A level change takes some bytes of the payload.
pub proof fn lemma_change_at(b: Seq<u8>, i: int)
    requires
        0 <= i <= b.len(),
    ensures
        change_at(b, i) matches Ok(x) ==> i < x.1 <= b.len(),
{
    reveal(change_at);
    if change_at(b, i) is Ok {
        lemma_mark_at(b, i, 0x5b, "change entry");
        let j = mark_at(b, i, 0x5b, "change entry")->Ok_0;
        scan::lemma_ws_end(b, j);
        scan::lemma_str_at(b, scan::ws_end(b, j));
        let j = elem_str_at(b, j, "change side")->Ok_0.1;
        lemma_mark_at(b, j, 0x2c, "change sep");
        let j = mark_at(b, j, 0x2c, "change sep")->Ok_0;
        lemma_pair_at(b, j, "change price", "change sep", "change qty");
        let j = pair_at(b, j, "change price", "change sep", "change qty")->Ok_0.1;
        lemma_mark_at(b, j, 0x5d, "change end");
    }
}

/// A level takes some bytes of the payload.
pub proof fn lemma_level_at(b: Seq<u8>, i: int, rest: bool)
    requires
        0 <= i <= b.len(),
    ensures
        level_at(b, i, rest) matches Ok(x) ==> i < x.1 <= b.len(),
{
    reveal(level_at);
    if level_at(b, i, rest) is Ok {
        lemma_mark_at(b, i, 0x5b, "level entry");
        let j = mark_at(b, i, 0x5b, "level entry")->Ok_0;
        lemma_pair_at(b, j, "level price", "level sep", "level qty");
        let j = pair_at(b, j, "level price", "level sep", "level qty")->Ok_0.1;
        let k = if rest {
            lemma_mark_at(b, j, 0x2c, "level orders");
            let l = mark_at(b, j, 0x2c, "level orders")->Ok_0;
            scan::lemma_ws_end(b, l);
            scan::lemma_u64_at(b, scan::ws_end(b, l));
            orders_at(b, j)->Ok_0
        } else {
            j
        };
        lemma_mark_at(b, k, 0x5d, "level end");
    }
}

/// The rest of the level changes from `i` on, behind the changes `acc`.
pub open spec fn changes_at(b: Seq<u8>, i: int, acc: Seq<(bool, i64, i64)>) -> Result<
    Seq<(bool, i64, i64)>,
    CodecError,
>
    decreases b.len() - i,
        when 0 <= i <= b.len()
{
    match change_at(b, i) {
        Err(e) => Err(e),
        Ok((x, j)) => match more_at(b, j, "changes end") {
            Err(e) => Err(e),
            Ok((false, _)) => Ok(acc.push(x)),
            Ok((true, k)) => {
                proof {
                    lemma_change_at(b, i);
                    scan::lemma_ws_end(b, j);
                }
                changes_at(b, k, acc.push(x))
            },
        },
    }
}

/// The rest of the levels from `i` on, behind the levels `acc`.
pub open spec fn levels_at(b: Seq<u8>, i: int, rest: bool, acc: Seq<(i64, i64)>) -> Result<
    Seq<(i64, i64)>,
    CodecError,
>
    decreases b.len() - i,
        when 0 <= i <= b.len()
{
    match level_at(b, i, rest) {
        Err(e) => Err(e),
        Ok((x, j)) => match more_at(b, j, "level array end") {
            Err(e) => Err(e),
            Ok((false, _)) => Ok(acc.push(x)),
            Ok((true, k)) => {
                proof {
                    lemma_level_at(b, i, rest);
                    scan::lemma_ws_end(b, j);
                }
                levels_at(b, k, rest, acc.push(x))
            },
        },
    }
}

/// The level array at `i`, behind its key.
pub open spec fn level_array_at(b: Seq<u8>, i: int, rest: bool) -> Result<
    Seq<(i64, i64)>,
    CodecError,
> {
    match mark_at(b, i, 0x5b, "level array") {
        Err(e) => Err(e),
        Ok(j) => if scan::byte_at(b, scan::ws_end(b, j), 0x5d) {
            Ok(Seq::empty())
        } else {
            levels_at(b, scan::ws_end(b, j), rest, Seq::empty())
        },
    }
}

/// The change list of an update, behind its key.
pub open spec fn change_array_at(b: Seq<u8>, i: int) -> Result<
    Seq<(bool, i64, i64)>,
    CodecError,
> {
    match mark_at(b, i, 0x5b, "changes array") {
        Err(e) => Err(e),
        Ok(j) => if scan::byte_at(b, scan::ws_end(b, j), 0x5d) {
            Ok(Seq::empty())
        } else {
            changes_at(b, scan::ws_end(b, j), Seq::empty())
        },
    }
}

/// The venue timestamp in the string at `i`, behind its key.
pub open spec fn ts_at(b: Seq<u8>, i: int) -> Result<u64, CodecError> {
    match elem_str_at(b, i, "time") {
        Err(e) => Err(e),
        Ok((s, _)) => match scan::rfc3339_spec(s) {
            None => Err(CodecError::Structure("time")),
            Some(ts) => Ok(ts),
        },
    }
}

/// The venue timestamp behind the first `"time":`; 0 where there is none.
pub open spec fn first_ts(b: Seq<u8>) -> Result<u64, CodecError> {
    match scan::past(b, 0, codec::lit("\"time\":")) {
        None => Ok(0),
        Some(i) => ts_at(b, i),
    }
}

/// The instrument of the product behind the first `"product_id":` from `i`
/// on.
pub open spec fn product_at(b: Seq<u8>, i: int, table: Seq<(Seq<u8>, u32)>) -> Result<
    (u32, int),
    CodecError,
> {
    match key_str_at(b, i, codec::lit("\"product_id\":"), "product_id") {
        Err(e) => Err(e),
        Ok((s, j)) => match codec::lookup_in(table, s) {
            None => Err(CodecError::UnknownInstrument),
            Some(id) => Ok((id, j)),
        },
    }
}

/// An `l2update`.
#[verifier::opaque]
pub open spec fn update_msg(b: Seq<u8>, table: Seq<(Seq<u8>, u32)>) -> Result<Msg, CodecError> {
    match first_ts(b) {
        Err(e) => Err(e),
        Ok(ts) => match product_at(b, 0, table) {
            Err(e) => Err(e),
            Ok((instrument, i)) => match scan::past(b, i, codec::lit("\"changes\":")) {
                None => Err(CodecError::Structure("changes")),
                Some(i) => match change_array_at(b, i) {
                    Err(e) => Err(e),
                    Ok(changes) => Ok(Msg::L2Update(instrument, ts, changes)),
                },
            },
        },
    }
}

/// The id, side, size and price of a match, and the offset behind them.
pub open spec fn match_head(b: Seq<u8>) -> Result<(u64, bool, i64, i64, int), CodecError> {
    match key_u64_at(b, 0, codec::lit("\"trade_id\":"), "trade_id") {
        Err(e) => Err(e),
        Ok((id, i)) => match key_str_at(b, i, codec::lit("\"side\":"), "side") {
            Err(e) => Err(e),
            Ok((s, i)) => match side_of(s, "side") {
                Err(e) => Err(e),
                Ok(maker_bid) => match key_fixed_at(b, i, codec::lit("\"size\":"), "size") {
                    Err(e) => Err(e),
                    Ok((qty, i)) => match key_fixed_at(b, i, codec::lit("\"price\":"), "price") {
                        Err(e) => Err(e),
                        Ok((price, i)) => Ok((id, maker_bid, qty, price, i)),
                    },
                },
            },
        },
    }
}

/// A `match` or `last_match`. Its side is the maker's, so a resting bid that
/// was hit means that the taker sold.
#[verifier::opaque]
pub open spec fn match_msg(
    b: Seq<u8>,
    table: Seq<(Seq<u8>, u32)>,
    gap_check: bool,
) -> Result<Msg, CodecError> {
    match first_ts(b) {
        Err(e) => Err(e),
        Ok(ts) => match match_head(b) {
            Err(e) => Err(e),
            Ok((id, taker_sell, qty, price, i)) => match product_at(b, i, table) {
                Err(e) => Err(e),
                Ok((instrument, i)) => match key_u64_at(
                    b,
                    i,
                    codec::lit("\"sequence\":"),
                    "sequence",
                ) {
                    Err(e) => Err(e),
                    Ok((seq, _)) => Ok(
                        Msg::Match(
                            Match { instrument, ts, seq, id, taker_sell, price, qty, gap_check },
                        ),
                    ),
                },
            },
        },
    }
}

/// A `heartbeat`.
#[verifier::opaque]
pub open spec fn heartbeat_msg(b: Seq<u8>, table: Seq<(Seq<u8>, u32)>) -> Result<
    Msg,
    CodecError,
> {
    match first_ts(b) {
        Err(e) => Err(e),
        Ok(ts) => match key_u64_at(b, 0, codec::lit("\"last_trade_id\":"), "last_trade_id") {
            Err(e) => Err(e),
            Ok((last_trade_id, i)) => match product_at(b, i, table) {
                Err(e) => Err(e),
                Ok((instrument, i)) => match key_u64_at(
                    b,
                    i,
                    codec::lit("\"sequence\":"),
                    "sequence",
                ) {
                    Err(e) => Err(e),
                    Ok((seq, _)) => Ok(
                        Msg::Heartbeat(Heartbeat { instrument, ts, seq, last_trade_id }),
                    ),
                },
            },
        },
    }
}

/// The bids and the asks of a snapshot body, wherever in it they stand.
pub open spec fn book_sides(b: Seq<u8>, rest: bool) -> Result<
    (Seq<(i64, i64)>, Seq<(i64, i64)>),
    CodecError,
> {
    match (
        scan::past(b, 0, codec::lit("\"bids\":")),
        scan::past(b, 0, codec::lit("\"asks\":")),
    ) {
        (None, _) => Err(CodecError::Structure("bids")),
        (_, None) => Err(CodecError::Structure("asks")),
        (Some(i), Some(j)) => match level_array_at(b, i, rest) {
            Err(e) => Err(e),
            Ok(bids) => match level_array_at(b, j, rest) {
                Err(e) => Err(e),
                Ok(asks) => Ok((bids, asks)),
            },
        },
    }
}

/// A `snapshot` of the feed.
#[verifier::opaque]
pub open spec fn snapshot_msg(b: Seq<u8>, table: Seq<(Seq<u8>, u32)>) -> Result<Msg, CodecError> {
    match first_ts(b) {
        Err(e) => Err(e),
        Ok(ts) => match product_at(b, 0, table) {
            Err(e) => Err(e),
            Ok((instrument, _)) => match book_sides(b, false) {
                Err(e) => Err(e),
                Ok((bids, asks)) => Ok(
                    Msg::Snapshot(
                        Snapshot { instrument, ts, seq: 0, rest: false, bids, asks },
                    ),
                ),
            },
        },
    }
}

/// `i` is the last offset of `h` at which `n` stands.
pub open spec fn last_at(h: Seq<u8>, n: Seq<u8>, i: int) -> bool {
    scan::occurs_at(h, n, i) && forall|j: int| i < j ==> !#[trigger] scan::occurs_at(h, n, j)
}

/// The venue timestamp behind the last `"time":`; 0 where there is none.
///
/// The body is serialized bids, asks, sequence, auction_mode, auction, time -
/// and in auction mode the `auction` object carries its own `time` property,
/// so the first occurrence would be the wrong one; the top-level `time` is
/// serialized last.
pub open spec fn last_ts(b: Seq<u8>) -> Result<u64, CodecError> {
    if exists|i: int| last_at(b, codec::lit("\"time\":"), i) {
        ts_at(
            b,
            (choose|i: int| last_at(b, codec::lit("\"time\":"), i)) + codec::lit(
                "\"time\":",
            ).len(),
        )
    } else {
        Ok(0)
    }
}

/// The REST body `b` of a book, as a snapshot of `instrument`.
#[verifier::opaque]
pub open spec fn rest_msg(b: Seq<u8>, instrument: u32) -> Result<Msg, CodecError> {
    match last_ts(b) {
        Err(e) => Err(e),
        Ok(ts) => match key_u64_at(b, 0, codec::lit("\"sequence\":"), "sequence") {
            Err(e) => Err(e),
            Ok((seq, _)) => match book_sides(b, true) {
                Err(e) => Err(e),
                Ok((bids, asks)) => Ok(
                    Msg::Snapshot(Snapshot { instrument, ts, seq, rest: true, bids, asks }),
                ),
            },
        },
    }
}

/// The `type` of a message.
#[verifier::opaque]
pub open spec fn type_of(b: Seq<u8>) -> Result<Seq<u8>, CodecError> {
    match mark_at(b, 0, 0x7b, "not an object") {
        Err(e) => Err(e),
        Ok(i) => match key_str_at(b, i, codec::lit("\"type\":"), "type") {
            Err(e) => Err(e),
            Ok((s, _)) => Ok(s),
        },
    }
}

/// What the fast path reads in the message `b`.
pub open spec fn fast_msg(b: Seq<u8>, table: Seq<(Seq<u8>, u32)>) -> Result<Msg, CodecError> {
    match type_of(b) {
        Err(e) => Err(e),
        Ok(ty) => if ty == codec::lit("l2update") {
            update_msg(b, table)
        } else if ty == codec::lit("match") {
            match_msg(b, table, true)
        } else if ty == codec::lit("last_match") {
            match_msg(b, table, false)
        } else if ty == codec::lit("heartbeat") {
            heartbeat_msg(b, table)
        } else if ty == codec::lit("snapshot") {
            snapshot_msg(b, table)
        } else if ty == codec::lit("subscriptions") || ty == codec::lit("error") {
            Ok(Msg::Control)
        } else {
            Ok(Msg::Ignored)
        },
    }
}

/// The searchers for the keys of a message. All of them are precomputed, so
/// that the fast path never builds a searcher per frame.
#[derive(Debug)]
pub struct Keys {
    ty: Finder<'static>,
    product: Finder<'static>,
    changes: Finder<'static>,
    bids: Finder<'static>,
    asks: Finder<'static>,
    time: Finder<'static>,
    trade_id: Finder<'static>,
    side: Finder<'static>,
    size: Finder<'static>,
    price: Finder<'static>,
    sequence: Finder<'static>,
    last_trade_id: Finder<'static>,
}

impl Keys {
    /// Each searcher looks for its key.
    pub closed spec fn wf(&self) -> bool {
        &&& scan::finder_needle(self.ty) == codec::lit("\"type\":")
        &&& scan::finder_needle(self.product) == codec::lit("\"product_id\":")
        &&& scan::finder_needle(self.changes) == codec::lit("\"changes\":")
        &&& scan::finder_needle(self.bids) == codec::lit("\"bids\":")
        &&& scan::finder_needle(self.asks) == codec::lit("\"asks\":")
        &&& scan::finder_needle(self.time) == codec::lit("\"time\":")
        &&& scan::finder_needle(self.trade_id) == codec::lit("\"trade_id\":")
        &&& scan::finder_needle(self.side) == codec::lit("\"side\":")
        &&& scan::finder_needle(self.size) == codec::lit("\"size\":")
        &&& scan::finder_needle(self.price) == codec::lit("\"price\":")
        &&& scan::finder_needle(self.sequence) == codec::lit("\"sequence\":")
        &&& scan::finder_needle(self.last_trade_id) == codec::lit("\"last_trade_id\":")
    }

    /// The searchers.
    pub fn new() -> (r: Self)
        ensures
            r.wf(),
    {
        Keys {
            ty: scan::finder("\"type\":".as_bytes()),
            product: scan::finder("\"product_id\":".as_bytes()),
            changes: scan::finder("\"changes\":".as_bytes()),
            bids: scan::finder("\"bids\":".as_bytes()),
            asks: scan::finder("\"asks\":".as_bytes()),
            time: scan::finder("\"time\":".as_bytes()),
            trade_id: scan::finder("\"trade_id\":".as_bytes()),
            side: scan::finder("\"side\":".as_bytes()),
            size: scan::finder("\"size\":".as_bytes()),
            price: scan::finder("\"price\":".as_bytes()),
            sequence: scan::finder("\"sequence\":".as_bytes()),
            last_trade_id: scan::finder("\"last_trade_id\":".as_bytes()),
        }
    }
}

/// The string at the cursor, behind whitespace.
fn elem_str<'a>(c: &mut Cursor<'a>, what: &'static str) -> (r: Result<&'a [u8], CodecError>)
    requires
        old(c).wf(),
    ensures
        final(c).wf(),
        final(c).bytes() == old(c).bytes(),
        match elem_str_at(old(c).bytes(), old(c).at(), what) {
            Ok(x) => r matches Ok(s) && s@ == x.0 && final(c).at() == x.1,
            Err(e) => r matches Err(f) && f == e,
        },
{
    c.skip_ws();
    match c.read_string() {
        Some(s) => Ok(s),
        None => Err(CodecError::Structure(what)),
    }
}

/// The exact decimal of a string token.
fn fixed_of(s: &[u8]) -> (r: Result<i64, CodecError>)
    ensures
        match fixed::parse_fixed_spec(s@) {
            Ok(v) => r == Ok::<i64, CodecError>(v),
            Err(e) => r == Err::<i64, CodecError>(CodecError::Fixed(e)),
        },
{
    match parse_fixed(s) {
        Ok(v) => Ok(v),
        Err(e) => Err(CodecError::Fixed(e)),
    }
}

/// The exact decimal in the string at the cursor, behind whitespace.
fn elem_fixed(c: &mut Cursor<'_>, what: &'static str) -> (r: Result<i64, CodecError>)
    requires
        old(c).wf(),
    ensures
        final(c).wf(),
        final(c).bytes() == old(c).bytes(),
        match elem_fixed_at(old(c).bytes(), old(c).at(), what) {
            Ok(x) => r == Ok::<i64, CodecError>(x.0) && final(c).at() == x.1,
            Err(e) => r == Err::<i64, CodecError>(e),
        },
{
    match elem_str(c, what) {
        Ok(s) => fixed_of(s),
        Err(e) => Err(e),
    }
}

/// The string behind the next occurrence of a key.
fn key_str<'a>(c: &mut Cursor<'a>, key: &Finder<'static>, what: &'static str) -> (r: Result<
    &'a [u8],
    CodecError,
>)
    requires
        old(c).wf(),
    ensures
        final(c).wf(),
        final(c).bytes() == old(c).bytes(),
        match key_str_at(old(c).bytes(), old(c).at(), scan::finder_needle(*key), what) {
            Ok(x) => r matches Ok(s) && s@ == x.0 && final(c).at() == x.1,
            Err(e) => r matches Err(f) && f == e,
        },
{
    if c.skip_past_finder(key).is_none() {
        return Err(CodecError::Structure(what));
    }
    elem_str(c, what)
}

/// The unsigned integer behind the next occurrence of a key.
fn key_u64(c: &mut Cursor<'_>, key: &Finder<'static>, what: &'static str) -> (r: Result<
    u64,
    CodecError,
>)
    requires
        old(c).wf(),
    ensures
        final(c).wf(),
        final(c).bytes() == old(c).bytes(),
        match key_u64_at(old(c).bytes(), old(c).at(), scan::finder_needle(*key), what) {
            Ok(x) => r == Ok::<u64, CodecError>(x.0) && final(c).at() == x.1,
            Err(e) => r == Err::<u64, CodecError>(e),
        },
{
    if c.skip_past_finder(key).is_none() {
        return Err(CodecError::Structure(what));
    }
    c.skip_ws();
    match c.read_u64() {
        Some(v) => Ok(v),
        None => Err(CodecError::Structure(what)),
    }
}

/// The exact decimal in the string behind the next occurrence of a key.
fn key_fixed(c: &mut Cursor<'_>, key: &Finder<'static>, what: &'static str) -> (r: Result<
    i64,
    CodecError,
>)
    requires
        old(c).wf(),
    ensures
        final(c).wf(),
        final(c).bytes() == old(c).bytes(),
        match key_fixed_at(old(c).bytes(), old(c).at(), scan::finder_needle(*key), what) {
            Ok(x) => r == Ok::<i64, CodecError>(x.0) && final(c).at() == x.1,
            Err(e) => r == Err::<i64, CodecError>(e),
        },
{
    match key_str(c, key, what) {
        Ok(s) => fixed_of(s),
        Err(e) => Err(e),
    }
}

/// Consume the byte `m`, which whitespace may precede.
fn mark(c: &mut Cursor<'_>, m: u8, what: &'static str) -> (r: Result<(), CodecError>)
    requires
        old(c).wf(),
    ensures
        final(c).wf(),
        final(c).bytes() == old(c).bytes(),
        match mark_at(old(c).bytes(), old(c).at(), m, what) {
            Ok(j) => r is Ok && final(c).at() == j,
            Err(e) => r == Err::<(), CodecError>(e),
        },
{
    c.skip_ws();
    if c.eat(m) {
        Ok(())
    } else {
        Err(CodecError::Structure(what))
    }
}

/// Step on behind an item of a list: true where another one follows.
fn more(c: &mut Cursor<'_>, what: &'static str) -> (r: Result<bool, CodecError>)
    requires
        old(c).wf(),
    ensures
        final(c).wf(),
        final(c).bytes() == old(c).bytes(),
        match more_at(old(c).bytes(), old(c).at(), what) {
            Ok(x) => r == Ok::<bool, CodecError>(x.0) && final(c).at() == x.1,
            Err(e) => r == Err::<bool, CodecError>(e),
        },
{
    c.skip_ws();
    if c.eat(0x2c) {
        Ok(true)
    } else if c.eat(0x5d) {
        Ok(false)
    } else {
        Err(CodecError::Structure(what))
    }
}

/// The side that a string names: true for a bid.
fn side(s: &[u8], what: &'static str) -> (r: Result<bool, CodecError>)
    ensures
        r == side_of(s@, what),
{
    if text::same_bytes(s, "buy".as_bytes()) {
        Ok(true)
    } else if text::same_bytes(s, "sell".as_bytes()) {
        Ok(false)
    } else {
        Err(CodecError::Structure(what))
    }
}

/// Two decimals.
fn pair(
    c: &mut Cursor<'_>,
    price: &'static str,
    separator: &'static str,
    qty: &'static str,
) -> (r: Result<(i64, i64), CodecError>)
    requires
        old(c).wf(),
    ensures
        final(c).wf(),
        final(c).bytes() == old(c).bytes(),
        match pair_at(old(c).bytes(), old(c).at(), price, separator, qty) {
            Ok(x) => r == Ok::<(i64, i64), CodecError>(x.0) && final(c).at() == x.1,
            Err(e) => r == Err::<(i64, i64), CodecError>(e),
        },
{
    let p: i64 = match elem_fixed(c, price) {
        Ok(p) => p,
        Err(e) => {
            return Err(e);
        },
    };
    match mark(c, 0x2c, separator) {
        Ok(_) => {},
        Err(e) => {
            return Err(e);
        },
    }
    match elem_fixed(c, qty) {
        Ok(q) => Ok((p, q)),
        Err(e) => Err(e),
    }
}

/// One level change.
fn change(c: &mut Cursor<'_>) -> (r: Result<(bool, i64, i64), CodecError>)
    requires
        old(c).wf(),
    ensures
        final(c).wf(),
        final(c).bytes() == old(c).bytes(),
        match change_at(old(c).bytes(), old(c).at()) {
            Ok(x) => r == Ok::<(bool, i64, i64), CodecError>(x.0) && final(c).at() == x.1,
            Err(e) => r == Err::<(bool, i64, i64), CodecError>(e),
        },
{
    reveal(change_at);
    match mark(c, 0x5b, "change entry") {
        Ok(_) => {},
        Err(e) => {
            return Err(e);
        },
    }
    let bid: bool = match elem_str(c, "change side") {
        Ok(s) => match side(s, "change side") {
            Ok(bid) => bid,
            Err(e) => {
                return Err(e);
            },
        },
        Err(e) => {
            return Err(e);
        },
    };
    match mark(c, 0x2c, "change sep") {
        Ok(_) => {},
        Err(e) => {
            return Err(e);
        },
    }
    let (p, q): (i64, i64) = match pair(c, "change price", "change sep", "change qty") {
        Ok(x) => x,
        Err(e) => {
            return Err(e);
        },
    };
    match mark(c, 0x5d, "change end") {
        Ok(_) => Ok((bid, p, q)),
        Err(e) => Err(e),
    }
}

/// One level.
fn level(c: &mut Cursor<'_>, rest: bool) -> (r: Result<(i64, i64), CodecError>)
    requires
        old(c).wf(),
    ensures
        final(c).wf(),
        final(c).bytes() == old(c).bytes(),
        match level_at(old(c).bytes(), old(c).at(), rest) {
            Ok(x) => r == Ok::<(i64, i64), CodecError>(x.0) && final(c).at() == x.1,
            Err(e) => r == Err::<(i64, i64), CodecError>(e),
        },
{
    reveal(level_at);
    match mark(c, 0x5b, "level entry") {
        Ok(_) => {},
        Err(e) => {
            return Err(e);
        },
    }
    let l: (i64, i64) = match pair(c, "level price", "level sep", "level qty") {
        Ok(x) => x,
        Err(e) => {
            return Err(e);
        },
    };
    if rest {
        // REST /book?level=2 carries a third element (resting order count);
        // consume and ignore it.
        match mark(c, 0x2c, "level orders") {
            Ok(_) => {},
            Err(e) => {
                return Err(e);
            },
        }
        c.skip_ws();
        if c.read_u64().is_none() {
            return Err(CodecError::Structure("level orders"));
        }
    }
    match mark(c, 0x5d, "level end") {
        Ok(_) => Ok(l),
        Err(e) => Err(e),
    }
}

/// Walk the level array of a snapshot with the cursor just past its key.
/// Appends one event per level and returns the level count.
fn level_array(
    c: &mut Cursor<'_>,
    stamp: Stamp,
    kind: EventKind,
    rest: bool,
    out: &mut Vec<Event>,
) -> (r: Result<u64, CodecError>)
    requires
        old(c).wf(),
    ensures
        old(out)@.is_prefix_of(final(out)@),
        match level_array_at(old(c).bytes(), old(c).at(), rest) {
            Ok(ls) => r matches Ok(n) && n == ls.len() && final(out)@ == old(out)@
                + emit::level_events(stamp, kind, ls),
            Err(e) => r == Err::<u64, CodecError>(e),
        },
{
    match mark(c, 0x5b, "level array") {
        Ok(_) => {},
        Err(e) => {
            return Err(e);
        },
    }
    c.skip_ws();
    let ghost mut acc: Seq<(i64, i64)> = Seq::empty();
    assert(out@ =~= old(out)@ + emit::level_events(stamp, kind, acc));
    let ghost b = c.bytes();
    let ghost i0 = c.at();
    if c.eat(0x5d) {
        return Ok(0);
    }
    let mut n: u64 = 0;
    loop
        invariant
            c.wf(),
            c.bytes() == b,
            n == acc.len(),
            n <= c.at(),
            out@ == old(out)@ + emit::level_events(stamp, kind, acc),
            levels_at(b, c.at(), rest, acc) == level_array_at(
                old(c).bytes(),
                old(c).at(),
                rest,
            ),
        decreases b.len() - c.at(),
    {
        proof {
            lemma_level_at(b, c.at(), rest);
        }
        let l: (i64, i64) = match level(c, rest) {
            Ok(l) => l,
            Err(e) => {
                return Err(e);
            },
        };
        out.push(stamp.ev(kind, l.0, l.1, 0));
        proof {
            emit::lemma_level_events_push(stamp, kind, acc, l);
            assert(out@ =~= old(out)@ + emit::level_events(stamp, kind, acc.push(l)));
            acc = acc.push(l);
            scan::lemma_ws_end(b, c.at());
        }
        n += 1;
        match more(c, "level array end") {
            Ok(true) => {},
            Ok(false) => {
                return Ok(n);
            },
            Err(e) => {
                return Err(e);
            },
        }
    }
}

/// Walk the change list of an update with the cursor just past its key.
/// Appends one event per change, in the exact (side-interleaved) payload
/// order.
fn change_array(c: &mut Cursor<'_>, stamp: Stamp, out: &mut Vec<Event>) -> (r: Result<
    (),
    CodecError,
>)
    requires
        old(c).wf(),
    ensures
        old(out)@.is_prefix_of(final(out)@),
        match change_array_at(old(c).bytes(), old(c).at()) {
            Ok(cs) => r is Ok && final(out)@ == old(out)@ + msg::change_events(stamp, cs),
            Err(e) => r == Err::<(), CodecError>(e),
        },
{
    match mark(c, 0x5b, "changes array") {
        Ok(_) => {},
        Err(e) => {
            return Err(e);
        },
    }
    c.skip_ws();
    let ghost mut acc: Seq<(bool, i64, i64)> = Seq::empty();
    assert(out@ =~= old(out)@ + msg::change_events(stamp, acc));
    let ghost b = c.bytes();
    if c.eat(0x5d) {
        return Ok(());
    }
    loop
        invariant
            c.wf(),
            c.bytes() == b,
            out@ == old(out)@ + msg::change_events(stamp, acc),
            changes_at(b, c.at(), acc) == change_array_at(old(c).bytes(), old(c).at()),
        decreases b.len() - c.at(),
    {
        proof {
            lemma_change_at(b, c.at());
        }
        let x: (bool, i64, i64) = match change(c) {
            Ok(x) => x,
            Err(e) => {
                return Err(e);
            },
        };
        let kind: EventKind = if x.0 {
            EventKind::BidSet
        } else {
            EventKind::AskSet
        };
        out.push(stamp.ev(kind, x.1, x.2, 0));
        proof {
            assert(out@ =~= old(out)@ + msg::change_events(stamp, acc.push(x)));
            acc = acc.push(x);
            scan::lemma_ws_end(b, c.at());
        }
        match more(c, "changes end") {
            Ok(true) => {},
            Ok(false) => {
                return Ok(());
            },
            Err(e) => {
                return Err(e);
            },
        }
    }
}

/// The timestamp at the cursor, just past its key.
fn read_ts(c: &mut Cursor<'_>) -> (r: Result<u64, CodecError>)
    requires
        old(c).wf(),
    ensures
        r == ts_at(old(c).bytes(), old(c).at()),
{
    match elem_str(c, "time") {
        Ok(s) => match parse_rfc3339_ns(s) {
            Some(ts) => Ok(ts),
            None => Err(CodecError::Structure("time")),
        },
        Err(e) => Err(e),
    }
}

/// Venue timestamp from the `"time"` key, searched over the whole payload (it
/// trails the large arrays). Absent -> 0; unparseable -> structure error
/// (matching the slow path).
fn fast_ts(keys: &Keys, payload: &[u8]) -> (r: Result<u64, CodecError>)
    requires
        keys.wf(),
    ensures
        r == first_ts(payload@),
{
    let mut c = Cursor::new(payload);
    if c.skip_past_finder(&keys.time).is_none() {
        return Ok(0);
    }
    read_ts(&mut c)
}

/// `memchr::memmem::rfind`: the offset of the last occurrence of `needle` in
/// `hay`, and `None` where it does not occur.
#[verifier::external_body]
fn memmem_rfind(hay: &[u8], needle: &[u8]) -> (r: Option<usize>)
    ensures
        match r {
            Some(i) => last_at(hay@, needle@, i as int),
            None => forall|i: int| !#[trigger] scan::occurs_at(hay@, needle@, i),
        },
{
    rfind(hay, needle)
}

/// Venue timestamp of a REST book body, from its last `"time"` key.
fn rest_ts(body: &[u8]) -> (r: Result<u64, CodecError>)
    ensures
        r == last_ts(body@),
{
    let key: &[u8] = "\"time\":".as_bytes();
    match memmem_rfind(body, key) {
        None => Ok(0),
        Some(at) => {
            proof {
                let i = choose|i: int| last_at(body@, key@, i);
                assert(last_at(body@, key@, at as int));
                assert(!(i < at) && !(at < i));
            }
            let mut c = Cursor::new(body);
            assert(at + key@.len() <= body@.len());
            assert(body@.len() == body.len());
            c.set_pos(at + key.len());
            read_ts(&mut c)
        },
    }
}

/// The instrument of the next product.
fn product(c: &mut Cursor<'_>, keys: &Keys, table: &SymbolTable) -> (r: Result<u32, CodecError>)
    requires
        old(c).wf(),
        keys.wf(),
    ensures
        final(c).wf(),
        final(c).bytes() == old(c).bytes(),
        match product_at(old(c).bytes(), old(c).at(), table@) {
            Ok(x) => r == Ok::<u32, CodecError>(x.0) && final(c).at() == x.1,
            Err(e) => r == Err::<u32, CodecError>(e),
        },
{
    match key_str(c, &keys.product, "product_id") {
        Ok(s) => match table.lookup(s) {
            Some(id) => Ok(id),
            None => Err(CodecError::UnknownInstrument),
        },
        Err(e) => Err(e),
    }
}

/// Fast `l2update`: absolute-qty `BidSet`/`AskSet` per change.
pub fn fast_l2update(
    keys: &Keys,
    table: &SymbolTable,
    payload: &[u8],
    recv_mono_ns: u64,
    recv_wall_ns: u64,
    out: &mut Vec<Event>,
) -> (r: Result<(), CodecError>)
    requires
        keys.wf(),
    ensures
        old(out)@.is_prefix_of(final(out)@),
        match update_msg(payload@, table@) {
            Ok(m) => r is Ok && m is L2Update && final(out)@ == old(out)@ + msg::book_events(
                m,
                recv_mono_ns,
                recv_wall_ns,
            ),
            Err(e) => r == Err::<(), CodecError>(e),
        },
{
    reveal(update_msg);
    let ts: u64 = match fast_ts(keys, payload) {
        Ok(ts) => ts,
        Err(e) => {
            return Err(e);
        },
    };
    let mut c = Cursor::new(payload);
    let instrument: u32 = match product(&mut c, keys, table) {
        Ok(id) => id,
        Err(e) => {
            return Err(e);
        },
    };
    if c.skip_past_finder(&keys.changes).is_none() {
        return Err(CodecError::Structure("changes"));
    }
    let stamp: Stamp = super::make_stamp(instrument, ts, 0, 0, recv_mono_ns, recv_wall_ns);
    change_array(&mut c, stamp, out)
}

/// Id, side, size and price of a match.
fn fast_match_head(c: &mut Cursor<'_>, keys: &Keys) -> (r: Result<
    (u64, bool, i64, i64),
    CodecError,
>)
    requires
        old(c).wf(),
        old(c).at() == 0,
        keys.wf(),
    ensures
        final(c).wf(),
        final(c).bytes() == old(c).bytes(),
        match match_head(old(c).bytes()) {
            Ok(x) => r == Ok::<(u64, bool, i64, i64), CodecError>((x.0, x.1, x.2, x.3))
                && final(c).at() == x.4,
            Err(e) => r == Err::<(u64, bool, i64, i64), CodecError>(e),
        },
{
    let id: u64 = match key_u64(c, &keys.trade_id, "trade_id") {
        Ok(id) => id,
        Err(e) => {
            return Err(e);
        },
    };
    // Coinbase's match `side` is the MAKER order's side, not the aggressor's:
    // side == "buy" means a resting bid was hit, i.e. the taker (aggressor)
    // SOLD. side == "sell" means a resting ask was lifted, i.e. the taker
    // bought.
    let taker_sell: bool = match key_str(c, &keys.side, "side") {
        Ok(s) => match side(s, "side") {
            Ok(bid) => bid,
            Err(e) => {
                return Err(e);
            },
        },
        Err(e) => {
            return Err(e);
        },
    };
    let qty: i64 = match key_fixed(c, &keys.size, "size") {
        Ok(q) => q,
        Err(e) => {
            return Err(e);
        },
    };
    match key_fixed(c, &keys.price, "price") {
        Ok(price) => Ok((id, taker_sell, qty, price)),
        Err(e) => Err(e),
    }
}

/// Fast `match` / `last_match`.
pub fn fast_match(keys: &Keys, table: &SymbolTable, payload: &[u8], gap_check: bool) -> (r: Result<
    Match,
    CodecError,
>)
    requires
        keys.wf(),
    ensures
        match match_msg(payload@, table@, gap_check) {
            Ok(m) => r matches Ok(x) && m == Msg::Match(x),
            Err(e) => r == Err::<Match, CodecError>(e),
        },
{
    reveal(match_msg);
    let ts: u64 = match fast_ts(keys, payload) {
        Ok(ts) => ts,
        Err(e) => {
            return Err(e);
        },
    };
    let mut c = Cursor::new(payload);
    let (id, taker_sell, qty, price): (u64, bool, i64, i64) = match fast_match_head(&mut c, keys) {
        Ok(x) => x,
        Err(e) => {
            return Err(e);
        },
    };
    let instrument: u32 = match product(&mut c, keys, table) {
        Ok(id) => id,
        Err(e) => {
            return Err(e);
        },
    };
    match key_u64(&mut c, &keys.sequence, "sequence") {
        Ok(seq) => Ok(Match { instrument, ts, seq, id, taker_sell, price, qty, gap_check }),
        Err(e) => Err(e),
    }
}

/// Fast `heartbeat`.
pub fn fast_heartbeat(keys: &Keys, table: &SymbolTable, payload: &[u8]) -> (r: Result<
    Heartbeat,
    CodecError,
>)
    requires
        keys.wf(),
    ensures
        match heartbeat_msg(payload@, table@) {
            Ok(m) => r matches Ok(x) && m == Msg::Heartbeat(x),
            Err(e) => r == Err::<Heartbeat, CodecError>(e),
        },
{
    reveal(heartbeat_msg);
    let ts: u64 = match fast_ts(keys, payload) {
        Ok(ts) => ts,
        Err(e) => {
            return Err(e);
        },
    };
    let mut c = Cursor::new(payload);
    let last_trade_id: u64 = match key_u64(&mut c, &keys.last_trade_id, "last_trade_id") {
        Ok(id) => id,
        Err(e) => {
            return Err(e);
        },
    };
    let instrument: u32 = match product(&mut c, keys, table) {
        Ok(id) => id,
        Err(e) => {
            return Err(e);
        },
    };
    match key_u64(&mut c, &keys.sequence, "sequence") {
        Ok(seq) => Ok(Heartbeat { instrument, ts, seq, last_trade_id }),
        Err(e) => Err(e),
    }
}

/// A level array holds no more levels than the payload has bytes.
pub proof fn lemma_levels_at(b: Seq<u8>, i: int, rest: bool, acc: Seq<(i64, i64)>)
    requires
        0 <= i <= b.len(),
        acc.len() <= i,
    ensures
        levels_at(b, i, rest, acc) matches Ok(ls) ==> ls.len() <= b.len(),
    decreases b.len() - i,
{
    lemma_level_at(b, i, rest);
    if let Ok((x, j)) = level_at(b, i, rest) {
        scan::lemma_ws_end(b, j);
        if let Ok((true, k)) = more_at(b, j, "level array end") {
            lemma_levels_at(b, k, rest, acc.push(x));
        }
    }
}

proof fn lemma_level_array_at(b: Seq<u8>, i: int, rest: bool)
    requires
        0 <= i <= b.len(),
    ensures
        level_array_at(b, i, rest) matches Ok(ls) ==> ls.len() <= b.len(),
{
    lemma_mark_at(b, i, 0x5b, "level array");
    if let Ok(j) = mark_at(b, i, 0x5b, "level array") {
        scan::lemma_ws_end(b, j);
        lemma_levels_at(b, scan::ws_end(b, j), rest, Seq::empty());
    }
}

/// Stream both level arrays of a snapshot body: `Clear`, `SnapBegin` (its
/// level count patched in), all bids, all asks, `SnapEnd` - canonical
/// bids-then-asks regardless of JSON key order. `rest` selects REST 3-element
/// levels (`[price, size, orders]`).
pub fn emit_levels(
    keys: &Keys,
    payload: &[u8],
    stamp: Stamp,
    rest: bool,
    out: &mut Vec<Event>,
) -> (r: Result<(), CodecError>)
    requires
        keys.wf(),
    ensures
        old(out)@.is_prefix_of(final(out)@),
        match book_sides(payload@, rest) {
            Ok(x) => r is Ok && final(out)@ == old(out)@ + emit::snapshot_events(
                stamp,
                x.0,
                x.1,
                0,
            ),
            Err(e) => r == Err::<(), CodecError>(e),
        },
{
    let mut bids = Cursor::new(payload);
    if bids.skip_past_finder(&keys.bids).is_none() {
        return Err(CodecError::Structure("bids"));
    }
    let mut asks = Cursor::new(payload);
    if asks.skip_past_finder(&keys.asks).is_none() {
        return Err(CodecError::Structure("asks"));
    }
    out.push(stamp.ev(EventKind::Clear, 0, 0, 0));
    let begin: usize = out.len();
    out.push(stamp.ev(EventKind::SnapBegin, 0, 0, 0));
    proof {
        lemma_level_array_at(payload@, bids.at(), rest);
        lemma_level_array_at(payload@, asks.at(), rest);
    }
    let ghost lb = level_array_at(payload@, bids.at(), rest)->Ok_0;
    let ghost la = level_array_at(payload@, asks.at(), rest)->Ok_0;
    let nb: u64 = match level_array(&mut bids, stamp, EventKind::SnapBid, rest, out) {
        Ok(n) => n,
        Err(e) => {
            return Err(e);
        },
    };
    let na: u64 = match level_array(&mut asks, stamp, EventKind::SnapAsk, rest, out) {
        Ok(n) => n,
        Err(e) => {
            return Err(e);
        },
    };
    out.push(stamp.ev(EventKind::SnapEnd, 0, 0, 0));
    let n: u64 = (nb as u128 + na as u128) as u64;
    let e: Event = stamp.ev(EventKind::SnapBegin, 0, 0, n);
    assert(begin < out.len());
    out.set(begin, e);
    assert(out@ =~= old(out)@ + emit::snapshot_events(stamp, lb, la, 0));
    Ok(())
}

/// Fast WS `snapshot` -> full snapshot bracket.
pub fn fast_snapshot(
    keys: &Keys,
    table: &SymbolTable,
    payload: &[u8],
    recv_mono_ns: u64,
    recv_wall_ns: u64,
    out: &mut Vec<Event>,
) -> (r: Result<(), CodecError>)
    requires
        keys.wf(),
    ensures
        old(out)@.is_prefix_of(final(out)@),
        match snapshot_msg(payload@, table@) {
            Ok(m) => r is Ok && m is Snapshot && final(out)@ == old(out)@ + msg::book_events(
                m,
                recv_mono_ns,
                recv_wall_ns,
            ),
            Err(e) => r == Err::<(), CodecError>(e),
        },
{
    reveal(snapshot_msg);
    let ts: u64 = match fast_ts(keys, payload) {
        Ok(ts) => ts,
        Err(e) => {
            return Err(e);
        },
    };
    let mut c = Cursor::new(payload);
    let instrument: u32 = match product(&mut c, keys, table) {
        Ok(id) => id,
        Err(e) => {
            return Err(e);
        },
    };
    let stamp: Stamp = super::make_stamp(
        instrument,
        ts,
        0,
        flags::FROM_SNAPSHOT,
        recv_mono_ns,
        recv_wall_ns,
    );
    emit_levels(keys, payload, stamp, false, out)
}

/// REST `/products/<id>/book?level=2` body -> snapshot bracket.
pub fn rest_snapshot(
    keys: &Keys,
    instrument: u32,
    body: &[u8],
    recv_mono_ns: u64,
    recv_wall_ns: u64,
    out: &mut Vec<Event>,
) -> (r: Result<(), CodecError>)
    requires
        keys.wf(),
    ensures
        old(out)@.is_prefix_of(final(out)@),
        match rest_msg(body@, instrument) {
            Ok(m) => r is Ok && m is Snapshot && final(out)@ == old(out)@ + msg::book_events(
                m,
                recv_mono_ns,
                recv_wall_ns,
            ),
            Err(e) => r == Err::<(), CodecError>(e),
        },
{
    reveal(rest_msg);
    let ts: u64 = match rest_ts(body) {
        Ok(ts) => ts,
        Err(e) => {
            return Err(e);
        },
    };
    let mut c = Cursor::new(body);
    let seq: u64 = match key_u64(&mut c, &keys.sequence, "sequence") {
        Ok(seq) => seq,
        Err(e) => {
            return Err(e);
        },
    };
    assert(flags::FROM_SNAPSHOT | flags::SYNTHETIC == 6) by (bit_vector);
    let stamp: Stamp = super::make_stamp(
        instrument,
        ts,
        seq,
        flags::FROM_SNAPSHOT | flags::SYNTHETIC,
        recv_mono_ns,
        recv_wall_ns,
    );
    emit_levels(keys, body, stamp, true, out)
}

/// The `type` of a message.
pub fn fast_type<'a>(keys: &Keys, payload: &'a [u8]) -> (r: Result<&'a [u8], CodecError>)
    requires
        keys.wf(),
    ensures
        match type_of(payload@) {
            Ok(s) => r matches Ok(x) && x@ == s,
            Err(e) => r matches Err(f) && f == e,
        },
{
    reveal(type_of);
    let mut c = Cursor::new(payload);
    match mark(&mut c, 0x7b, "not an object") {
        Ok(_) => {},
        Err(e) => {
            return Err(e);
        },
    }
    key_str(&mut c, &keys.ty, "type")
}

} // verus!
