//! The reference reading of a Coinbase message, over a parsed JSON document.
use super::msg;
use super::msg::{Heartbeat, Match, Msg, Snapshot};
use crate::codec;
use crate::codec::{CodecError, SymbolTable};
use crate::emit;
use crate::emit::Stamp;
use crate::event::{flags, Event, EventKind};
use crate::fixed;
use crate::fixed::parse_fixed;
use crate::json;
use crate::json::{Json, JsonValue};
use crate::scan;
use crate::scan::parse_rfc3339_ns;
use vstd::prelude::*;
use vstd::utf8::*;

verus! {

/// The venue timestamp of a document; 0 where it has none.
pub open spec fn doc_ts(v: JsonValue) -> Result<u64, CodecError> {
    match json::member(v, "time"@) {
        None => Ok(0),
        Some(JsonValue::Str(s)) => match scan::rfc3339_spec(encode_utf8(s)) {
            Some(ts) => Ok(ts),
            None => Err(CodecError::Structure("time")),
        },
        Some(_) => Err(CodecError::Structure("time")),
    }
}

/// The required string under `key`.
pub open spec fn need_str(v: JsonValue, key: &'static str) -> Result<Seq<char>, CodecError> {
    match json::str_member(v, key@) {
        Some(s) => Ok(s),
        None => Err(CodecError::Structure(key)),
    }
}

/// The required unsigned integer under `key`.
pub open spec fn need_u64(v: JsonValue, key: &'static str) -> Result<u64, CodecError> {
    match json::u64_member(v, key@) {
        Some(n) => Ok(n),
        None => Err(CodecError::Structure(key)),
    }
}

/// The required array under `key`.
pub open spec fn need_arr(v: JsonValue, key: &'static str) -> Result<Seq<JsonValue>, CodecError> {
    match json::arr_member(v, key@) {
        Some(a) => Ok(a),
        None => Err(CodecError::Structure(key)),
    }
}

/// The exact decimal in the text `s`.
pub open spec fn fixed_text(s: Seq<char>) -> Result<i64, CodecError> {
    match fixed::parse_fixed_spec(encode_utf8(s)) {
        Ok(x) => Ok(x),
        Err(e) => Err(CodecError::Fixed(e)),
    }
}

/// The required exact decimal in the string under `key`.
pub open spec fn need_fixed(v: JsonValue, key: &'static str) -> Result<i64, CodecError> {
    match need_str(v, key) {
        Ok(s) => fixed_text(s),
        Err(e) => Err(e),
    }
}

/// The exact decimal in the string that `v` has to be.
pub open spec fn item_fixed(v: JsonValue, what: &'static str) -> Result<i64, CodecError> {
    match json::str_of(v) {
        Some(s) => fixed_text(s),
        None => Err(CodecError::Structure(what)),
    }
}

/// The instrument of the document's product.
pub open spec fn doc_product(v: JsonValue, table: Seq<(Seq<u8>, u32)>) -> Result<
    u32,
    CodecError,
> {
    match need_str(v, "product_id") {
        Err(e) => Err(e),
        Ok(s) => match codec::lookup_in(table, encode_utf8(s)) {
            Some(id) => Ok(id),
            None => Err(CodecError::UnknownInstrument),
        },
    }
}

/// The side that `v` names: whether it is a bid.
pub open spec fn side_value(v: Option<Seq<char>>, what: &'static str) -> Result<
    bool,
    CodecError,
> {
    if v == Some("buy"@) {
        Ok(true)
    } else if v == Some("sell"@) {
        Ok(false)
    } else {
        Err(CodecError::Structure(what))
    }
}

/// The level change that `v` is.
pub open spec fn change_value(v: JsonValue) -> Result<(bool, i64, i64), CodecError> {
    match json::arr_of(v) {
        Some(a) if a.len() == 3 => match side_value(json::str_of(a[0]), "change side") {
            Err(e) => Err(e),
            Ok(bid) => match item_fixed(a[1], "change price") {
                Err(e) => Err(e),
                Ok(p) => match item_fixed(a[2], "change qty") {
                    Err(e) => Err(e),
                    Ok(q) => Ok((bid, p, q)),
                },
            },
        },
        _ => Err(CodecError::Structure("change entry")),
    }
}

/// The level that `v` is.
pub open spec fn level_value(v: JsonValue) -> Result<(i64, i64), CodecError> {
    match json::arr_of(v) {
        Some(a) if a.len() == 2 => match item_fixed(a[0], "level price") {
            Err(e) => Err(e),
            Ok(p) => match item_fixed(a[1], "level qty") {
                Err(e) => Err(e),
                Ok(q) => Ok((p, q)),
            },
        },
        _ => Err(CodecError::Structure("level entry")),
    }
}

/// The level changes of `a` from `k` on, behind `acc`.
pub open spec fn change_values(
    a: Seq<JsonValue>,
    k: int,
    acc: Seq<(bool, i64, i64)>,
) -> Result<Seq<(bool, i64, i64)>, CodecError>
    decreases a.len() - k,
{
    if !(0 <= k < a.len()) {
        Ok(acc)
    } else {
        match change_value(a[k]) {
            Err(e) => Err(e),
            Ok(x) => change_values(a, k + 1, acc.push(x)),
        }
    }
}

/// The levels of `a` from `k` on, behind `acc`.
pub open spec fn level_values(a: Seq<JsonValue>, k: int, acc: Seq<(i64, i64)>) -> Result<
    Seq<(i64, i64)>,
    CodecError,
>
    decreases a.len() - k,
{
    if !(0 <= k < a.len()) {
        Ok(acc)
    } else {
        match level_value(a[k]) {
            Err(e) => Err(e),
            Ok(x) => level_values(a, k + 1, acc.push(x)),
        }
    }
}

/// The update that the document is.
pub open spec fn update_doc(v: JsonValue, table: Seq<(Seq<u8>, u32)>) -> Result<Msg, CodecError> {
    match doc_ts(v) {
        Err(e) => Err(e),
        Ok(ts) => match doc_product(v, table) {
            Err(e) => Err(e),
            Ok(instrument) => match need_arr(v, "changes") {
                Err(e) => Err(e),
                Ok(a) => match change_values(a, 0, Seq::empty()) {
                    Err(e) => Err(e),
                    Ok(cs) => Ok(Msg::L2Update(instrument, ts, cs)),
                },
            },
        },
    }
}

/// The id, side, size and price of the match that the document is.
pub open spec fn match_doc_head(v: JsonValue) -> Result<(u64, bool, i64, i64), CodecError> {
    match need_u64(v, "trade_id") {
        Err(e) => Err(e),
        Ok(id) => match need_str(v, "side") {
            Err(e) => Err(e),
            Ok(s) => match side_value(Some(s), "side") {
                Err(e) => Err(e),
                Ok(taker_sell) => match need_fixed(v, "size") {
                    Err(e) => Err(e),
                    Ok(qty) => match need_fixed(v, "price") {
                        Err(e) => Err(e),
                        Ok(price) => Ok((id, taker_sell, qty, price)),
                    },
                },
            },
        },
    }
}

/// The match that the document is.
pub open spec fn match_doc(
    v: JsonValue,
    table: Seq<(Seq<u8>, u32)>,
    gap_check: bool,
) -> Result<Match, CodecError> {
    match doc_ts(v) {
        Err(e) => Err(e),
        Ok(ts) => match match_doc_head(v) {
            Err(e) => Err(e),
            Ok((id, taker_sell, qty, price)) => match doc_product(v, table) {
                Err(e) => Err(e),
                Ok(instrument) => match need_u64(v, "sequence") {
                    Err(e) => Err(e),
                    Ok(seq) => Ok(
                        Match { instrument, ts, seq, id, taker_sell, price, qty, gap_check },
                    ),
                },
            },
        },
    }
}

/// The heartbeat that the document is.
pub open spec fn heartbeat_doc(v: JsonValue, table: Seq<(Seq<u8>, u32)>) -> Result<
    Heartbeat,
    CodecError,
> {
    match doc_ts(v) {
        Err(e) => Err(e),
        Ok(ts) => match need_u64(v, "last_trade_id") {
            Err(e) => Err(e),
            Ok(last_trade_id) => match doc_product(v, table) {
                Err(e) => Err(e),
                Ok(instrument) => match need_u64(v, "sequence") {
                    Err(e) => Err(e),
                    Ok(seq) => Ok(Heartbeat { instrument, ts, seq, last_trade_id }),
                },
            },
        },
    }
}

/// The snapshot that the document is.
pub open spec fn snapshot_doc(v: JsonValue, table: Seq<(Seq<u8>, u32)>) -> Result<
    Msg,
    CodecError,
> {
    match doc_ts(v) {
        Err(e) => Err(e),
        Ok(ts) => match doc_product(v, table) {
            Err(e) => Err(e),
            Ok(instrument) => match (need_arr(v, "bids"), need_arr(v, "asks")) {
                (Err(e), _) => Err(e),
                (_, Err(e)) => Err(e),
                (Ok(b), Ok(a)) => match level_values(b, 0, Seq::empty()) {
                    Err(e) => Err(e),
                    Ok(bids) => match level_values(a, 0, Seq::empty()) {
                        Err(e) => Err(e),
                        Ok(asks) => Ok(
                            Msg::Snapshot(
                                Snapshot { instrument, ts, seq: 0, rest: false, bids, asks },
                            ),
                        ),
                    },
                },
            },
        },
    }
}

/// What the document `v` says.
pub open spec fn doc_msg(v: JsonValue, table: Seq<(Seq<u8>, u32)>) -> Result<Msg, CodecError> {
    match need_str(v, "type") {
        Err(e) => Err(e),
        Ok(ty) => if ty == "l2update"@ {
            update_doc(v, table)
        } else if ty == "match"@ {
            match match_doc(v, table, true) {
                Ok(m) => Ok(Msg::Match(m)),
                Err(e) => Err(e),
            }
        } else if ty == "last_match"@ {
            match match_doc(v, table, false) {
                Ok(m) => Ok(Msg::Match(m)),
                Err(e) => Err(e),
            }
        } else if ty == "heartbeat"@ {
            match heartbeat_doc(v, table) {
                Ok(h) => Ok(Msg::Heartbeat(h)),
                Err(e) => Err(e),
            }
        } else if ty == "snapshot"@ {
            snapshot_doc(v, table)
        } else if ty == "subscriptions"@ || ty == "error"@ {
            Ok(Msg::Control)
        } else {
            Ok(Msg::Ignored)
        },
    }
}

/// What the slow path reads in the message `b`.
pub open spec fn slow_msg(b: Seq<u8>, table: Seq<(Seq<u8>, u32)>) -> Result<Msg, CodecError> {
    match json::json_of(b) {
        Err(_) => Err(CodecError::Structure("invalid json")),
        Ok(v) => doc_msg(v, table),
    }
}

/// Venue timestamp from a document.
fn slow_ts(v: &Json) -> (r: Result<u64, CodecError>)
    ensures
        r == doc_ts(v.view()),
{
    match v.get("time") {
        None => Ok(0),
        Some(Json::Str(s)) => match parse_rfc3339_ns(s.as_str().as_bytes()) {
            Some(ts) => Ok(ts),
            None => Err(CodecError::Structure("time")),
        },
        Some(_) => Err(CodecError::Structure("time")),
    }
}

/// Required string field from a document.
pub(crate) fn slow_str<'v>(v: &'v Json, key: &'static str) -> (r: Result<&'v str, CodecError>)
    ensures
        match need_str(v.view(), key) {
            Ok(s) => r matches Ok(x) && x@ == s,
            Err(e) => r matches Err(f) && f == e,
        },
{
    match v.get_str(key) {
        Some(s) => Ok(s),
        None => Err(CodecError::Structure(key)),
    }
}

/// Required u64 field from a document.
fn slow_u64(v: &Json, key: &'static str) -> (r: Result<u64, CodecError>)
    ensures
        r == need_u64(v.view(), key),
{
    match v.get_u64(key) {
        Some(n) => Ok(n),
        None => Err(CodecError::Structure(key)),
    }
}

/// Exact decimal of a text.
fn text_fixed(s: &str) -> (r: Result<i64, CodecError>)
    ensures
        r == fixed_text(s@),
{
    match parse_fixed(s.as_bytes()) {
        Ok(x) => Ok(x),
        Err(e) => Err(CodecError::Fixed(e)),
    }
}

/// Required fixed-point-in-string field from a document.
fn slow_fixed(v: &Json, key: &'static str) -> (r: Result<i64, CodecError>)
    ensures
        r == need_fixed(v.view(), key),
{
    match slow_str(v, key) {
        Ok(s) => text_fixed(s),
        Err(e) => Err(e),
    }
}

/// Fixed-point-in-string item of a list.
fn slow_item(v: &Json, what: &'static str) -> (r: Result<i64, CodecError>)
    ensures
        r == item_fixed(v.view(), what),
{
    match v.as_str() {
        Some(s) => text_fixed(s),
        None => Err(CodecError::Structure(what)),
    }
}

/// Instrument of the document's product.
fn slow_product(v: &Json, table: &SymbolTable) -> (r: Result<u32, CodecError>)
    ensures
        r == doc_product(v.view(), table@),
{
    match slow_str(v, "product_id") {
        Err(e) => Err(e),
        Ok(s) => match table.lookup(s.as_bytes()) {
            Some(id) => Ok(id),
            None => Err(CodecError::UnknownInstrument),
        },
    }
}

/// Side that a text names.
fn slow_side(s: Option<&str>, what: &'static str) -> (r: Result<bool, CodecError>)
    ensures
        match s {
            Some(x) => r == side_value(Some(x@), what),
            None => r == side_value(None, what),
        },
{
    match s {
        Some(x) => if json::same_str(x, "buy") {
            Ok(true)
        } else if json::same_str(x, "sell") {
            Ok(false)
        } else {
            Err(CodecError::Structure(what))
        },
        None => Err(CodecError::Structure(what)),
    }
}

/// One level change from a document.
fn slow_change(v: &Json) -> (r: Result<(bool, i64, i64), CodecError>)
    ensures
        r == change_value(v.view()),
{
    let a: &Vec<Json> = match v.as_arr() {
        Some(a) => a,
        None => {
            return Err(CodecError::Structure("change entry"));
        },
    };
    if a.len() != 3 {
        return Err(CodecError::Structure("change entry"));
    }
    let bid: bool = match slow_side(a[0].as_str(), "change side") {
        Ok(b) => b,
        Err(e) => {
            return Err(e);
        },
    };
    let p: i64 = match slow_item(&a[1], "change price") {
        Ok(p) => p,
        Err(e) => {
            return Err(e);
        },
    };
    match slow_item(&a[2], "change qty") {
        Ok(q) => Ok((bid, p, q)),
        Err(e) => Err(e),
    }
}

/// One level from a document.
fn slow_level(v: &Json) -> (r: Result<(i64, i64), CodecError>)
    ensures
        r == level_value(v.view()),
{
    let a: &Vec<Json> = match v.as_arr() {
        Some(a) => a,
        None => {
            return Err(CodecError::Structure("level entry"));
        },
    };
    if a.len() != 2 {
        return Err(CodecError::Structure("level entry"));
    }
    let p: i64 = match slow_item(&a[0], "level price") {
        Ok(p) => p,
        Err(e) => {
            return Err(e);
        },
    };
    match slow_item(&a[1], "level qty") {
        Ok(q) => Ok((p, q)),
        Err(e) => Err(e),
    }
}

/// Append one event per level of `a`.
fn slow_levels(a: &Vec<Json>, stamp: Stamp, kind: EventKind, out: &mut Vec<Event>) -> (r: Result<
    (),
    CodecError,
>)
    ensures
        old(out)@.is_prefix_of(final(out)@),
        match level_values(json::views(a@), 0, Seq::empty()) {
            Ok(ls) => r is Ok && ls.len() == a@.len() && final(out)@ == old(out)@
                + emit::level_events(stamp, kind, ls),
            Err(e) => r == Err::<(), CodecError>(e),
        },
{
    let ghost vs = json::views(a@);
    let ghost mut acc: Seq<(i64, i64)> = Seq::empty();
    let mut i: usize = 0;
    assert(out@ =~= old(out)@ + emit::level_events(stamp, kind, acc));
    while i < a.len()
        invariant
            i <= a@.len(),
            vs == json::views(a@),
            acc.len() == i,
            out@ == old(out)@ + emit::level_events(stamp, kind, acc),
            level_values(vs, i as int, acc) == level_values(vs, 0, Seq::empty()),
        decreases a@.len() - i,
    {
        let l: (i64, i64) = match slow_level(&a[i]) {
            Ok(l) => l,
            Err(e) => {
                return Err(e);
            },
        };
        out.push(stamp.ev(kind, l.0, l.1, 0));
        proof {
            emit::lemma_level_events_push(stamp, kind, acc, l);
            assert(out@ =~= old(out)@ + emit::level_events(stamp, kind, acc.push(l)));
            acc = acc.push(l);
        }
        i += 1;
    }
    Ok(())
}

/// Slow `l2update`.
pub fn slow_l2update(
    table: &SymbolTable,
    v: &Json,
    recv_mono_ns: u64,
    recv_wall_ns: u64,
    out: &mut Vec<Event>,
) -> (r: Result<(), CodecError>)
    ensures
        old(out)@.is_prefix_of(final(out)@),
        match update_doc(v.view(), table@) {
            Ok(m) => r is Ok && final(out)@ == old(out)@ + msg::book_events(
                m,
                recv_mono_ns,
                recv_wall_ns,
            ),
            Err(e) => r == Err::<(), CodecError>(e),
        },
{
    let ts: u64 = match slow_ts(v) {
        Ok(ts) => ts,
        Err(e) => {
            return Err(e);
        },
    };
    let instrument: u32 = match slow_product(v, table) {
        Ok(id) => id,
        Err(e) => {
            return Err(e);
        },
    };
    let a: &Vec<Json> = match v.get_arr("changes") {
        Some(a) => a,
        None => {
            return Err(CodecError::Structure("changes"));
        },
    };
    let stamp: Stamp = super::make_stamp(instrument, ts, 0, 0, recv_mono_ns, recv_wall_ns);
    let ghost vs = json::views(a@);
    let ghost mut acc: Seq<(bool, i64, i64)> = Seq::empty();
    let mut i: usize = 0;
    assert(out@ =~= old(out)@ + msg::change_events(stamp, acc));
    while i < a.len()
        invariant
            i <= a@.len(),
            vs == json::views(a@),
            out@ == old(out)@ + msg::change_events(stamp, acc),
            stamp == msg::stamp(instrument, ts, 0, 0, recv_mono_ns, recv_wall_ns),
            update_doc(v.view(), table@) == (match change_values(vs, i as int, acc) {
                Ok(cs) => Ok::<Msg, CodecError>(Msg::L2Update(instrument, ts, cs)),
                Err(e) => Err(e),
            }),
        decreases a@.len() - i,
    {
        let x: (bool, i64, i64) = match slow_change(&a[i]) {
            Ok(x) => x,
            Err(e) => {
                return Err(e);
            },
        };
        let kind: EventKind = if x.0 {
            EventKind::BidSet
        } else {
            EventKind::AskSet
        };
        out.push(stamp.ev(kind, x.1, x.2, 0));
        proof {
            assert(out@ =~= old(out)@ + msg::change_events(stamp, acc.push(x)));
            acc = acc.push(x);
        }
        i += 1;
    }
    Ok(())
}

/// Id, side, size and price of a match from a document.
fn slow_match_head(v: &Json) -> (r: Result<(u64, bool, i64, i64), CodecError>)
    ensures
        r == match_doc_head(v.view()),
{
    let id: u64 = match slow_u64(v, "trade_id") {
        Ok(id) => id,
        Err(e) => {
            return Err(e);
        },
    };
    // Maker-side semantics: a resting bid that was hit means that the taker
    // sold.
    let taker_sell: bool = match slow_str(v, "side") {
        Ok(s) => match slow_side(Some(s), "side") {
            Ok(b) => b,
            Err(e) => {
                return Err(e);
            },
        },
        Err(e) => {
            return Err(e);
        },
    };
    let qty: i64 = match slow_fixed(v, "size") {
        Ok(q) => q,
        Err(e) => {
            return Err(e);
        },
    };
    match slow_fixed(v, "price") {
        Ok(price) => Ok((id, taker_sell, qty, price)),
        Err(e) => Err(e),
    }
}

/// Slow `match` / `last_match`.
pub fn slow_match(table: &SymbolTable, v: &Json, gap_check: bool) -> (r: Result<Match, CodecError>)
    ensures
        r == match_doc(v.view(), table@, gap_check),
{
    let ts: u64 = match slow_ts(v) {
        Ok(ts) => ts,
        Err(e) => {
            return Err(e);
        },
    };
    let (id, taker_sell, qty, price): (u64, bool, i64, i64) = match slow_match_head(v) {
        Ok(x) => x,
        Err(e) => {
            return Err(e);
        },
    };
    let instrument: u32 = match slow_product(v, table) {
        Ok(id) => id,
        Err(e) => {
            return Err(e);
        },
    };
    match slow_u64(v, "sequence") {
        Ok(seq) => Ok(Match { instrument, ts, seq, id, taker_sell, price, qty, gap_check }),
        Err(e) => Err(e),
    }
}

/// Slow `heartbeat`.
pub fn slow_heartbeat(table: &SymbolTable, v: &Json) -> (r: Result<Heartbeat, CodecError>)
    ensures
        r == heartbeat_doc(v.view(), table@),
{
    let ts: u64 = match slow_ts(v) {
        Ok(ts) => ts,
        Err(e) => {
            return Err(e);
        },
    };
    let last_trade_id: u64 = match slow_u64(v, "last_trade_id") {
        Ok(id) => id,
        Err(e) => {
            return Err(e);
        },
    };
    let instrument: u32 = match slow_product(v, table) {
        Ok(id) => id,
        Err(e) => {
            return Err(e);
        },
    };
    match slow_u64(v, "sequence") {
        Ok(seq) => Ok(Heartbeat { instrument, ts, seq, last_trade_id }),
        Err(e) => Err(e),
    }
}

/// Slow WS `snapshot`.
pub fn slow_snapshot(
    table: &SymbolTable,
    v: &Json,
    recv_mono_ns: u64,
    recv_wall_ns: u64,
    out: &mut Vec<Event>,
) -> (r: Result<(), CodecError>)
    ensures
        old(out)@.is_prefix_of(final(out)@),
        match snapshot_doc(v.view(), table@) {
            Ok(m) => r is Ok && final(out)@ == old(out)@ + msg::book_events(
                m,
                recv_mono_ns,
                recv_wall_ns,
            ),
            Err(e) => r == Err::<(), CodecError>(e),
        },
{
    let ts: u64 = match slow_ts(v) {
        Ok(ts) => ts,
        Err(e) => {
            return Err(e);
        },
    };
    let instrument: u32 = match slow_product(v, table) {
        Ok(id) => id,
        Err(e) => {
            return Err(e);
        },
    };
    let bids: &Vec<Json> = match v.get_arr("bids") {
        Some(a) => a,
        None => {
            return Err(CodecError::Structure("bids"));
        },
    };
    let asks: &Vec<Json> = match v.get_arr("asks") {
        Some(a) => a,
        None => {
            return Err(CodecError::Structure("asks"));
        },
    };
    let stamp: Stamp = super::make_stamp(
        instrument,
        ts,
        0,
        flags::FROM_SNAPSHOT,
        recv_mono_ns,
        recv_wall_ns,
    );
    let n: u64 = (bids.len() as u128 + asks.len() as u128) as u64;
    out.push(stamp.ev(EventKind::Clear, 0, 0, 0));
    out.push(stamp.ev(EventKind::SnapBegin, 0, 0, n));
    match slow_levels(bids, stamp, EventKind::SnapBid, out) {
        Ok(_) => {},
        Err(e) => {
            return Err(e);
        },
    }
    match slow_levels(asks, stamp, EventKind::SnapAsk, out) {
        Ok(_) => {},
        Err(e) => {
            return Err(e);
        },
    }
    out.push(stamp.ev(EventKind::SnapEnd, 0, 0, 0));
    proof {
        let lb = level_values(json::views(bids@), 0, Seq::empty())->Ok_0;
        let la = level_values(json::views(asks@), 0, Seq::empty())->Ok_0;
        assert(out@ =~= old(out)@ + emit::snapshot_events(stamp, lb, la, 0));
    }
    Ok(())
}

} // verus!
