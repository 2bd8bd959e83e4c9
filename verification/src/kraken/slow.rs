//! The reference reading of a Kraken frame, over parsed JSON documents.
//!
//! The header, the entries and the levels are records: objects, or arrays of
//! their members in a fixed order. A member that an object has twice counts
//! as it stands last, and a string is what its escapes stand for.
use super::frame;
use super::frame::{BookEntry, Frame, TradeEntry};
use crate::codec;
use crate::codec::{CodecError, SymbolTable};
use crate::emit;
use crate::emit::Stamp;
use crate::event::{flags, Event, EventKind, Venue};
use crate::json;
use crate::json::{Json, JsonValue};
use crate::scan;
use crate::scan::parse_rfc3339_ns;
use vstd::prelude::*;
use vstd::utf8::*;

verus! {

/// Where a frame goes by its header.
#[derive(Debug, Clone, Copy, PartialEq, Eq, Structural)]
pub enum Route {
    Control,
    Heartbeat,
    Book {
        snapshot: bool,
    },
    Trade {
        snapshot: bool,
    },
    Ignored,
}

/// An optional string member: absent and null are `Some(None)`, and anything
/// but a string is `None`.
pub open spec fn opt_str(x: Option<JsonValue>) -> Option<Option<Seq<char>>> {
    match x {
        None => Some(None),
        Some(JsonValue::Null) => Some(None),
        Some(JsonValue::Str(s)) => Some(Some(s)),
        Some(_) => None,
    }
}

/// The `type` of a data frame: whether it is a snapshot.
pub open spec fn snapshot_type(t: Option<Seq<char>>) -> Result<bool, CodecError> {
    if t == Some("snapshot"@) {
        Ok(true)
    } else if t == Some("update"@) {
        Ok(false)
    } else {
        Err(CodecError::Structure("msg type value"))
    }
}

/// Where the frame `v` goes.
pub open spec fn route(v: JsonValue) -> Result<Route, CodecError> {
    match (
        opt_str(json::field(v, "channel"@, 0)),
        opt_str(json::field(v, "method"@, 1)),
        opt_str(json::field(v, "type"@, 2)),
    ) {
        (Some(channel), Some(method), Some(ty)) if json::is_record(v, 3) => if method is Some {
            Ok(Route::Control)
        } else {
            match channel {
                None => Err(CodecError::Structure("no channel or method")),
                Some(ch) => if ch == "status"@ {
                    Ok(Route::Control)
                } else if ch == "heartbeat"@ {
                    Ok(Route::Heartbeat)
                } else if ch == "book"@ {
                    match snapshot_type(ty) {
                        Ok(snapshot) => Ok(Route::Book { snapshot }),
                        Err(e) => Err(e),
                    }
                } else if ch == "trade"@ {
                    match snapshot_type(ty) {
                        Ok(snapshot) => Ok(Route::Trade { snapshot }),
                        Err(e) => Err(e),
                    }
                } else {
                    Ok(Route::Ignored)
                },
            }
        },
        _ => Err(CodecError::Structure("envelope")),
    }
}

/// The tokens of a price level.
pub open spec fn raw_level(v: JsonValue) -> Option<(Seq<char>, Seq<char>)> {
    match (json::str_field(v, "price"@, 0), json::str_field(v, "qty"@, 1)) {
        (Some(p), Some(q)) if json::is_record(v, 2) => Some((p, q)),
        _ => None,
    }
}

/// The items of `a` are all price levels.
pub open spec fn raw_levels_ok(a: Seq<JsonValue>) -> bool {
    forall|i: int| 0 <= i < a.len() ==> #[trigger] raw_level(a[i]) is Some
}

/// `v` has the shape of a book entry.
pub open spec fn raw_book_ok(v: JsonValue) -> bool {
    &&& json::is_record(v, 5)
    &&& json::str_field(v, "symbol"@, 0) is Some
    &&& json::arr_field(v, "bids"@, 1) matches Some(a) && raw_levels_ok(a)
    &&& json::arr_field(v, "asks"@, 2) matches Some(a) && raw_levels_ok(a)
    &&& json::u64_field(v, "checksum"@, 3) is Some
    &&& opt_str(json::field(v, "timestamp"@, 4)) is Some
}

/// `v` has the shape of a trade.
pub open spec fn raw_trade_ok(v: JsonValue) -> bool {
    &&& json::is_record(v, 6)
    &&& json::str_field(v, "symbol"@, 0) is Some
    &&& json::str_field(v, "side"@, 1) is Some
    &&& json::str_field(v, "price"@, 2) is Some
    &&& json::str_field(v, "qty"@, 3) is Some
    &&& json::u64_field(v, "trade_id"@, 4) is Some
    &&& json::str_field(v, "timestamp"@, 5) is Some
}

/// The exact values of the levels of `a` from `k` on, behind `acc`.
pub open spec fn fixed_levels(a: Seq<JsonValue>, k: int, acc: Seq<(i64, i64)>) -> Result<
    Seq<(i64, i64)>,
    CodecError,
>
    decreases a.len() - k,
{
    if !(0 <= k < a.len()) {
        Ok(acc)
    } else {
        let (p, q) = raw_level(a[k])->Some_0;
        match codec::fixed_pair_spec(encode_utf8(p), encode_utf8(q)) {
            Err(e) => Err(e),
            Ok(l) => fixed_levels(a, k + 1, acc.push(l)),
        }
    }
}

/// The venue timestamp of a book entry: 0 for a snapshot.
pub open spec fn book_ts(v: JsonValue, snapshot: bool) -> Result<u64, CodecError> {
    if snapshot {
        Ok(0)
    } else {
        match opt_str(json::field(v, "timestamp"@, 4))->Some_0 {
            None => Err(CodecError::Structure("update missing timestamp")),
            Some(t) => match scan::rfc3339_spec(encode_utf8(t)) {
                None => Err(CodecError::Structure("bad timestamp")),
                Some(ts) => Ok(ts),
            },
        }
    }
}

/// The book entry that `v` is.
pub open spec fn book_entry(
    v: JsonValue,
    table: Seq<(Seq<u8>, u32)>,
    snapshot: bool,
) -> Result<BookEntry, CodecError> {
    match codec::lookup_in(table, encode_utf8(json::str_field(v, "symbol"@, 0)->Some_0)) {
        None => Err(CodecError::UnknownInstrument),
        Some(instrument) => match book_ts(v, snapshot) {
            Err(e) => Err(e),
            Ok(ts) => match fixed_levels(
                json::arr_field(v, "bids"@, 1)->Some_0,
                0,
                Seq::empty(),
            ) {
                Err(e) => Err(e),
                Ok(bids) => match fixed_levels(
                    json::arr_field(v, "asks"@, 2)->Some_0,
                    0,
                    Seq::empty(),
                ) {
                    Err(e) => Err(e),
                    Ok(asks) => Ok(
                        BookEntry {
                            instrument,
                            bids,
                            asks,
                            checksum: json::u64_field(v, "checksum"@, 3)->Some_0,
                            ts,
                        },
                    ),
                },
            },
        },
    }
}

/// The book entries of `a` from `k` on, behind `acc`.
pub open spec fn book_entries(
    a: Seq<JsonValue>,
    k: int,
    table: Seq<(Seq<u8>, u32)>,
    snapshot: bool,
    acc: Seq<BookEntry>,
) -> Result<Seq<BookEntry>, CodecError>
    decreases a.len() - k,
{
    if !(0 <= k < a.len()) {
        Ok(acc)
    } else {
        match book_entry(a[k], table, snapshot) {
            Err(e) => Err(e),
            Ok(x) => book_entries(a, k + 1, table, snapshot, acc.push(x)),
        }
    }
}

/// The book frame that the document `v` is. Its shape is looked at as a
/// whole, before any entry.
pub open spec fn book_frame(v: JsonValue, table: Seq<(Seq<u8>, u32)>, snapshot: bool) -> Result<
    Frame,
    CodecError,
> {
    match json::arr_member(v, "data"@) {
        Some(a) if (forall|i: int| 0 <= i < a.len() ==> #[trigger] raw_book_ok(a[i])) => {
            match book_entries(a, 0, table, snapshot, Seq::empty()) {
                Err(e) => Err(e),
                Ok(es) => Ok(Frame::Book(snapshot, es)),
            }
        },
        _ => Err(CodecError::Structure("book entries")),
    }
}

/// The trade that `v` is.
pub open spec fn trade_entry(v: JsonValue, table: Seq<(Seq<u8>, u32)>) -> Result<
    TradeEntry,
    CodecError,
> {
    let side = json::str_field(v, "side"@, 1)->Some_0;
    match codec::lookup_in(table, encode_utf8(json::str_field(v, "symbol"@, 0)->Some_0)) {
        None => Err(CodecError::UnknownInstrument),
        Some(instrument) => if side != "sell"@ && side != "buy"@ {
            Err(CodecError::Structure("trade side value"))
        } else {
            match scan::rfc3339_spec(encode_utf8(json::str_field(v, "timestamp"@, 5)->Some_0)) {
                None => Err(CodecError::Structure("bad timestamp")),
                Some(ts) => match codec::fixed_pair_spec(
                    encode_utf8(json::str_field(v, "price"@, 2)->Some_0),
                    encode_utf8(json::str_field(v, "qty"@, 3)->Some_0),
                ) {
                    Err(e) => Err(e),
                    Ok((price, qty)) => Ok(
                        TradeEntry {
                            instrument,
                            taker_sell: side == "sell"@,
                            price,
                            qty,
                            id: json::u64_field(v, "trade_id"@, 4)->Some_0,
                            ts,
                        },
                    ),
                },
            }
        },
    }
}

/// The trades of `a` from `k` on, behind `acc`.
pub open spec fn trade_entries(
    a: Seq<JsonValue>,
    k: int,
    table: Seq<(Seq<u8>, u32)>,
    acc: Seq<TradeEntry>,
) -> Result<Seq<TradeEntry>, CodecError>
    decreases a.len() - k,
{
    if !(0 <= k < a.len()) {
        Ok(acc)
    } else {
        match trade_entry(a[k], table) {
            Err(e) => Err(e),
            Ok(x) => trade_entries(a, k + 1, table, acc.push(x)),
        }
    }
}

/// The trade frame that the document `v` is.
pub open spec fn trade_frame(v: JsonValue, table: Seq<(Seq<u8>, u32)>, snapshot: bool) -> Result<
    Frame,
    CodecError,
> {
    match json::arr_member(v, "data"@) {
        Some(a) if (forall|i: int| 0 <= i < a.len() ==> #[trigger] raw_trade_ok(a[i])) => {
            match trade_entries(a, 0, table, Seq::empty()) {
                Err(e) => Err(e),
                Ok(es) => Ok(Frame::Trade(snapshot, es)),
            }
        },
        _ => Err(CodecError::Structure("trade entries")),
    }
}

/// The offset behind the first `"price":` or `"qty":` of `b`.
pub open spec fn quote_key_end(b: Seq<u8>) -> Option<int> {
    match (
        scan::find(b, codec::lit("\"price\":")),
        scan::find(b, codec::lit("\"qty\":")),
    ) {
        (Some(p), Some(q)) => if p < q {
            Some(p + codec::lit("\"price\":").len())
        } else {
            Some(q + codec::lit("\"qty\":").len())
        },
        (Some(p), None) => Some(p + codec::lit("\"price\":").len()),
        (None, Some(q)) => Some(q + codec::lit("\"qty\":").len()),
        (None, None) => None,
    }
}

/// A key that is found ends within the text.
pub proof fn lemma_quote_key_end(b: Seq<u8>)
    ensures
        quote_key_end(b) matches Some(i) ==> 0 < i <= b.len(),
{
    scan::lemma_find(b, codec::lit("\"price\":"));
    scan::lemma_find(b, codec::lit("\"qty\":"));
    reveal_strlit("\"price\":");
    reveal_strlit("\"qty\":");
    is_ascii_chars_encode_utf8("\"price\":"@);
    is_ascii_chars_encode_utf8("\"qty\":"@);
}

/// `b` with the number token behind every `"price":` and `"qty":` put in
/// quotes, and everything else as it is.
pub open spec fn quoted(b: Seq<u8>) -> Seq<u8>
    decreases b.len(),
{
    match quote_key_end(b) {
        None => b,
        Some(i) => {
            let w = scan::ws_end(b, i);
            let n = scan::num_end(b, w);
            proof {
                lemma_quote_key_end(b);
                scan::lemma_ws_end(b, i);
                scan::lemma_num_end(b, w);
            }
            b.take(w) + (if n > w {
                seq![0x22u8] + b.subrange(w, n) + seq![0x22u8]
            } else {
                Seq::empty()
            }) + quoted(b.skip(n))
        },
    }
}

/// What the slow path reads in the frame `b`: its header in the document as
/// it is, its entries in the document with the number tokens quoted.
pub open spec fn slow_frame(b: Seq<u8>, table: Seq<(Seq<u8>, u32)>) -> Result<Frame, CodecError> {
    if !valid_utf8(b) {
        Err(CodecError::Structure("not utf-8"))
    } else {
        match json::json_of(b) {
            Err(_) => Err(CodecError::Structure("envelope")),
            Ok(v) => match route(v) {
                Err(e) => Err(e),
                Ok(Route::Control) => Ok(Frame::Control),
                Ok(Route::Heartbeat) => Ok(Frame::Heartbeat),
                Ok(Route::Ignored) => Ok(Frame::Ignored),
                Ok(Route::Book { snapshot }) => match json::json_of(quoted(b)) {
                    Err(_) => Err(CodecError::Structure("book entries")),
                    Ok(q) => book_frame(q, table, snapshot),
                },
                Ok(Route::Trade { snapshot }) => match json::json_of(quoted(b)) {
                    Err(_) => Err(CodecError::Structure("trade entries")),
                    Ok(q) => trade_frame(q, table, snapshot),
                },
            },
        }
    }
}

/// What an optional string member holds.
fn read_opt_str<'a>(x: Option<&'a Json>) -> (r: Option<Option<&'a str>>)
    ensures
        ({
            let said = opt_str(
                match x {
                    Some(j) => Some(j.view()),
                    None => None,
                },
            );
            match r {
                Some(Some(s)) => said == Some(Some(s@)),
                Some(None) => said == Some(None::<Seq<char>>),
                None => said is None,
            }
        }),
{
    match x {
        None => Some(None),
        Some(Json::Null) => Some(None),
        Some(Json::Str(s)) => Some(Some(s.as_str())),
        Some(_) => None,
    }
}

/// `"type"` field of a data message; true for snapshot.
fn slow_msg_type(t: Option<&str>) -> (r: Result<bool, CodecError>)
    ensures
        match t {
            Some(s) => r == snapshot_type(Some(s@)),
            None => r == snapshot_type(None),
        },
{
    match t {
        Some(s) => if json::same_str(s, "snapshot") {
            Ok(true)
        } else if json::same_str(s, "update") {
            Ok(false)
        } else {
            Err(CodecError::Structure("msg type value"))
        },
        None => Err(CodecError::Structure("msg type value")),
    }
}

/// Where the frame with the document `doc` goes.
pub fn dispatch(doc: &Json) -> (r: Result<Route, CodecError>)
    ensures
        r == route(doc.view()),
{
    if !doc.is_record(3) {
        return Err(CodecError::Structure("envelope"));
    }
    let (channel, method, ty): (Option<&str>, Option<&str>, Option<&str>) = match (
        read_opt_str(doc.field("channel", 0)),
        read_opt_str(doc.field("method", 1)),
        read_opt_str(doc.field("type", 2)),
    ) {
        (Some(c), Some(m), Some(t)) => (c, m, t),
        _ => {
            return Err(CodecError::Structure("envelope"));
        },
    };
    if method.is_some() {
        return Ok(Route::Control);
    }
    match channel {
        None => Err(CodecError::Structure("no channel or method")),
        Some(ch) => if json::same_str(ch, "status") {
            Ok(Route::Control)
        } else if json::same_str(ch, "heartbeat") {
            Ok(Route::Heartbeat)
        } else if json::same_str(ch, "book") {
            match slow_msg_type(ty) {
                Ok(snapshot) => Ok(Route::Book { snapshot }),
                Err(e) => Err(e),
            }
        } else if json::same_str(ch, "trade") {
            match slow_msg_type(ty) {
                Ok(snapshot) => Ok(Route::Trade { snapshot }),
                Err(e) => Err(e),
            }
        } else {
            Ok(Route::Ignored)
        },
    }
}

/// Rewrite `"price":<number>` / `"qty":<number>` into `"price":"<number>"` /
/// `"qty":"<number>"`, so that the JSON parser hands the untouched decimal
/// token back as a string (its number type would round-trip through a
/// float). Legal JSON whitespace between the key's colon and the number stays
/// as it is and the number that follows it is still quoted. The transform is
/// purely textual and leaves everything else - already-quoted or non-numeric
/// values too - byte-for-byte intact. Slow path only; allocates.
pub fn quote_numeric_tokens(text: &[u8]) -> (r: Vec<u8>)
    ensures
        r@ == quoted(text@),
{
    let mut out: Vec<u8> = Vec::new();
    let mut pos: usize = 0;
    assert(text@.skip(0) =~= text@);
    assert(out@ + quoted(text@.skip(0)) =~= quoted(text@));
    loop
        invariant
            pos <= text@.len(),
            out@ + quoted(text@.skip(pos as int)) == quoted(text@),
        decreases text@.len() - pos,
    {
        let rest: &[u8] = vstd::slice::slice_subrange(text, pos, text.len());
        let ghost b = rest@;
        assert(b =~= text@.skip(pos as int));
        let price: &[u8] = "\"price\":".as_bytes();
        let qty: &[u8] = "\"qty\":".as_bytes();
        let at_price: Option<usize> = scan::memmem_find(rest, price);
        let at_qty: Option<usize> = scan::memmem_find(rest, qty);
        proof {
            lemma_quote_key_end(b);
            match at_price {
                Some(p) => scan::lemma_find_is(b, price@, p as int),
                None => scan::lemma_find(b, price@),
            }
            match at_qty {
                Some(q) => scan::lemma_find_is(b, qty@, q as int),
                None => scan::lemma_find(b, qty@),
            }
        }
        let key_end: usize = match (at_price, at_qty) {
            (Some(p), Some(q)) => if p < q {
                p + price.len()
            } else {
                q + qty.len()
            },
            (Some(p), None) => p + price.len(),
            (None, Some(q)) => q + qty.len(),
            (None, None) => {
                out.extend_from_slice(rest);
                assert(out@ =~= quoted(text@));
                return out;
            },
        };
        proof {
            scan::lemma_ws_end(b, key_end as int);
            scan::lemma_num_end(b, scan::ws_end(b, key_end as int));
        }
        let mut c = scan::Cursor::new(rest);
        c.set_pos(key_end);
        c.skip_ws();
        let w: usize = c.pos();
        let ghost before = out@;
        out.extend_from_slice(vstd::slice::slice_subrange(rest, 0, w));
        assert(out@ =~= before + b.take(w as int));
        if let Some(token) = c.read_number() {
            out.push(0x22);
            out.extend_from_slice(token);
            out.push(0x22);
        }
        let n: usize = c.pos();
        proof {
            let tail = quoted(b.skip(n as int));
            assert(text@.skip(pos + n) =~= b.skip(n as int));
            if n > w {
                assert(out@ =~= before + b.take(w as int) + (seq![0x22u8] + b.subrange(
                    w as int,
                    n as int,
                ) + seq![0x22u8]));
            } else {
                assert(out@ =~= before + b.take(w as int) + Seq::<u8>::empty());
            }
            assert(quoted(b) == b.take(w as int) + (if n > w {
                seq![0x22u8] + b.subrange(w as int, n as int) + seq![0x22u8]
            } else {
                Seq::empty()
            }) + tail);
            assert(out@ + tail =~= before + quoted(b));
        }
        pos = pos + n;
    }
}

/// The items of `a` are all price levels.
fn levels_shape(a: &Vec<Json>) -> (r: bool)
    ensures
        r == raw_levels_ok(json::views(a@)),
{
    let ghost vs = json::views(a@);
    let mut i: usize = 0;
    while i < a.len()
        invariant
            i <= a@.len(),
            vs == json::views(a@),
            forall|k: int| 0 <= k < i ==> #[trigger] raw_level(vs[k]) is Some,
        decreases a@.len() - i,
    {
        if !a[i].is_record(2) || a[i].str_field("price", 0).is_none() || a[i].str_field(
            "qty",
            1,
        ).is_none() {
            assert(raw_level(vs[i as int]) is None);
            return false;
        }
        assert(raw_level(vs[i as int]) is Some);
        i += 1;
    }
    true
}

/// `v` has the shape of a book entry.
fn book_shape(v: &Json) -> (r: bool)
    ensures
        r == raw_book_ok(v.view()),
{
    v.is_record(5) && v.str_field("symbol", 0).is_some() && (match v.arr_field("bids", 1) {
        Some(a) => levels_shape(a),
        None => false,
    }) && (match v.arr_field("asks", 2) {
        Some(a) => levels_shape(a),
        None => false,
    }) && v.u64_field("checksum", 3).is_some() && read_opt_str(v.field("timestamp", 4)).is_some()
}

/// `v` has the shape of a trade.
fn trade_shape(v: &Json) -> (r: bool)
    ensures
        r == raw_trade_ok(v.view()),
{
    v.is_record(6) && v.str_field("symbol", 0).is_some() && v.str_field("side", 1).is_some() && v.str_field("price", 2).is_some()
        && v.str_field("qty", 3).is_some() && v.u64_field("trade_id", 4).is_some() && v.str_field("timestamp", 5).is_some()
}

/// Append one event per level of `a`.
fn slow_levels(a: &Vec<Json>, stamp: Stamp, kind: EventKind, out: &mut Vec<Event>) -> (r: Result<
    (),
    CodecError,
>)
    requires
        raw_levels_ok(json::views(a@)),
    ensures
        old(out)@.is_prefix_of(final(out)@),
        match fixed_levels(json::views(a@), 0, Seq::empty()) {
            Ok(ls) => r is Ok && final(out)@ == old(out)@ + emit::level_events(stamp, kind, ls)
                && ls.len() == a@.len(),
            Err(e) => r == Err::<(), CodecError>(e),
        },
{
    let ghost vs = json::views(a@);
    let ghost mut acc: Seq<(i64, i64)> = Seq::empty();
    let mut i: usize = 0;
    assert(out@ =~= old(out)@ + emit::level_events(stamp, kind, acc));
    while i < a.len()
        invariant
            i <= a@.len(),
            vs == json::views(a@),
            raw_levels_ok(vs),
            acc.len() == i,
            out@ == old(out)@ + emit::level_events(stamp, kind, acc),
            fixed_levels(vs, i as int, acc) == fixed_levels(vs, 0, Seq::empty()),
        decreases a@.len() - i,
    {
        assert(raw_level(vs[i as int]) is Some);
        let l: (i64, i64) = match (
            a[i].str_field("price", 0),
            a[i].str_field("qty", 1),
        ) {
            (Some(p), Some(q)) => match codec::fixed_pair(p.as_bytes(), q.as_bytes()) {
                Ok(l) => l,
                Err(e) => {
                    return Err(e);
                },
            },
            _ => (0, 0),
        };
        out.push(stamp.ev(kind, l.0, l.1, 0));
        proof {
            emit::lemma_level_events_push(stamp, kind, acc, l);
            assert(out@ =~= old(out)@ + emit::level_events(stamp, kind, acc.push(l)));
            acc = acc.push(l);
        }
        i += 1;
    }
    Ok(())
}

/// The venue timestamp of a book entry.
fn slow_book_ts(v: &Json, snapshot: bool) -> (r: Result<u64, CodecError>)
    requires
        raw_book_ok(v.view()),
    ensures
        r == book_ts(v.view(), snapshot),
{
    if snapshot {
        return Ok(0);
    }
    match read_opt_str(v.field("timestamp", 4)) {
        Some(Some(t)) => match parse_rfc3339_ns(t.as_bytes()) {
            Some(ts) => Ok(ts),
            None => Err(CodecError::Structure("bad timestamp")),
        },
        _ => Err(CodecError::Structure("update missing timestamp")),
    }
}

/// Append the events of one book entry.
fn slow_book_entry(
    table: &SymbolTable,
    v: &Json,
    snapshot: bool,
    recv_mono_ns: u64,
    recv_wall_ns: u64,
    out: &mut Vec<Event>,
) -> (r: Result<(), CodecError>)
    requires
        raw_book_ok(v.view()),
    ensures
        old(out)@.is_prefix_of(final(out)@),
        match book_entry(v.view(), table@, snapshot) {
            Ok(e) => r is Ok && final(out)@ == old(out)@ + frame::book_events(
                snapshot,
                e,
                recv_mono_ns,
                recv_wall_ns,
            ),
            Err(e) => r == Err::<(), CodecError>(e),
        },
{
    let instrument: u32 = match v.str_field("symbol", 0) {
        Some(sym) => match table.lookup(sym.as_bytes()) {
            Some(id) => id,
            None => {
                return Err(CodecError::UnknownInstrument);
            },
        },
        None => 0,
    };
    let ts: u64 = match slow_book_ts(v, snapshot) {
        Ok(ts) => ts,
        Err(e) => {
            return Err(e);
        },
    };
    let checksum: u64 = match v.u64_field("checksum", 3) {
        Some(c) => c,
        None => 0,
    };
    let stamp = Stamp {
        recv_mono_ns,
        recv_wall_ns,
        venue_ts_ns: ts,
        venue_seq: 0,
        instrument,
        venue: Venue::Kraken,
        flags: if snapshot {
            flags::FROM_SNAPSHOT
        } else {
            0
        },
    };
    if let (Some(bids), Some(asks)) = (v.arr_field("bids", 1), v.arr_field("asks", 2)) {
        if snapshot {
            let n: u64 = (bids.len() as u128 + asks.len() as u128) as u64;
            out.push(stamp.ev(EventKind::Clear, 0, 0, 0));
            out.push(stamp.ev(EventKind::SnapBegin, 0, 0, n));
        }
        let (bid_kind, ask_kind): (EventKind, EventKind) = if snapshot {
            (EventKind::SnapBid, EventKind::SnapAsk)
        } else {
            (EventKind::BidSet, EventKind::AskSet)
        };
        match slow_levels(bids, stamp, bid_kind, out) {
            Ok(_) => {},
            Err(e) => {
                return Err(e);
            },
        }
        match slow_levels(asks, stamp, ask_kind, out) {
            Ok(_) => {},
            Err(e) => {
                return Err(e);
            },
        }
        if snapshot {
            out.push(stamp.ev(EventKind::SnapEnd, 0, 0, checksum));
        } else {
            out.push(stamp.ev(EventKind::Checksum, 0, 0, checksum));
        }
        proof {
            let e = book_entry(v.view(), table@, snapshot)->Ok_0;
            assert(out@ =~= old(out)@ + frame::book_events(
                snapshot,
                e,
                recv_mono_ns,
                recv_wall_ns,
            ));
        }
    }
    Ok(())
}

/// Append the events of the book frame with the document `doc`. On an error
/// the events in front of it may have been appended.
pub fn emit_book(
    table: &SymbolTable,
    doc: &Json,
    snapshot: bool,
    recv_mono_ns: u64,
    recv_wall_ns: u64,
    out: &mut Vec<Event>,
) -> (r: Result<(), CodecError>)
    ensures
        old(out)@.is_prefix_of(final(out)@),
        match book_frame(doc.view(), table@, snapshot) {
            Ok(f) => r is Ok && final(out)@ == old(out)@ + frame::frame_events(
                f,
                recv_mono_ns,
                recv_wall_ns,
            ),
            Err(e) => r == Err::<(), CodecError>(e),
        },
{
    let a: &Vec<Json> = match doc.get_arr("data") {
        Some(a) => a,
        None => {
            return Err(CodecError::Structure("book entries"));
        },
    };
    let ghost vs = json::views(a@);
    let mut i: usize = 0;
    while i < a.len()
        invariant
            i <= a@.len(),
            vs == json::views(a@),
            json::arr_member(doc.view(), "data"@) == Some(vs),
            forall|k: int| 0 <= k < i ==> #[trigger] raw_book_ok(vs[k]),
        decreases a@.len() - i,
    {
        if !book_shape(&a[i]) {
            assert(!raw_book_ok(vs[i as int]));
            return Err(CodecError::Structure("book entries"));
        }
        i += 1;
    }
    let ghost mut acc: Seq<BookEntry> = Seq::empty();
    let mut i: usize = 0;
    assert(out@ =~= old(out)@ + frame::all_book_events(snapshot, acc, recv_mono_ns, recv_wall_ns));
    while i < a.len()
        invariant
            i <= a@.len(),
            vs == json::views(a@),
            json::arr_member(doc.view(), "data"@) == Some(vs),
            forall|k: int| 0 <= k < a@.len() ==> #[trigger] raw_book_ok(vs[k]),
            out@ == old(out)@ + frame::all_book_events(snapshot, acc, recv_mono_ns, recv_wall_ns),
            book_entries(vs, i as int, table@, snapshot, acc) == book_entries(
                vs,
                0,
                table@,
                snapshot,
                Seq::empty(),
            ),
        decreases a@.len() - i,
    {
        assert(raw_book_ok(vs[i as int]));
        match slow_book_entry(table, &a[i], snapshot, recv_mono_ns, recv_wall_ns, out) {
            Ok(_) => {},
            Err(e) => {
                return Err(e);
            },
        }
        proof {
            let x = book_entry(vs[i as int], table@, snapshot)->Ok_0;
            assert(acc.push(x).drop_last() =~= acc);
            assert(out@ =~= old(out)@ + frame::all_book_events(
                snapshot,
                acc.push(x),
                recv_mono_ns,
                recv_wall_ns,
            ));
            acc = acc.push(x);
        }
        i += 1;
    }
    Ok(())
}

/// The event of one trade.
fn slow_trade_entry(
    table: &SymbolTable,
    v: &Json,
    snapshot: bool,
    recv_mono_ns: u64,
    recv_wall_ns: u64,
) -> (r: Result<Event, CodecError>)
    requires
        raw_trade_ok(v.view()),
    ensures
        match trade_entry(v.view(), table@) {
            Ok(x) => r matches Ok(e) && e == frame::trade_event(
                snapshot,
                x,
                recv_mono_ns,
                recv_wall_ns,
            ),
            Err(e) => r == Err::<Event, CodecError>(e),
        },
{
    let instrument: u32 = match v.str_field("symbol", 0) {
        Some(sym) => match table.lookup(sym.as_bytes()) {
            Some(id) => id,
            None => {
                return Err(CodecError::UnknownInstrument);
            },
        },
        None => 0,
    };
    let taker_sell: bool = match v.str_field("side", 1) {
        Some(s) => if json::same_str(s, "sell") {
            true
        } else if json::same_str(s, "buy") {
            false
        } else {
            return Err(CodecError::Structure("trade side value"));
        },
        None => false,
    };
    let ts: u64 = match v.str_field("timestamp", 5) {
        Some(t) => match parse_rfc3339_ns(t.as_bytes()) {
            Some(ts) => ts,
            None => {
                return Err(CodecError::Structure("bad timestamp"));
            },
        },
        None => 0,
    };
    let pq: (i64, i64) = match (v.str_field("price", 2), v.str_field("qty", 3)) {
        (Some(p), Some(q)) => match codec::fixed_pair(p.as_bytes(), q.as_bytes()) {
            Ok(pq) => pq,
            Err(e) => {
                return Err(e);
            },
        },
        _ => (0, 0),
    };
    let id: u64 = match v.u64_field("trade_id", 4) {
        Some(id) => id,
        None => 0,
    };
    Ok(
        super::trade_ev(
            snapshot,
            taker_sell,
            instrument,
            id,
            ts,
            pq,
            recv_mono_ns,
            recv_wall_ns,
        ),
    )
}

/// Append the events of the trade frame with the document `doc`. On an error
/// the events in front of it may have been appended.
pub fn emit_trades(
    table: &SymbolTable,
    doc: &Json,
    snapshot: bool,
    recv_mono_ns: u64,
    recv_wall_ns: u64,
    out: &mut Vec<Event>,
) -> (r: Result<(), CodecError>)
    ensures
        old(out)@.is_prefix_of(final(out)@),
        match trade_frame(doc.view(), table@, snapshot) {
            Ok(f) => r is Ok && final(out)@ == old(out)@ + frame::frame_events(
                f,
                recv_mono_ns,
                recv_wall_ns,
            ),
            Err(e) => r == Err::<(), CodecError>(e),
        },
{
    let a: &Vec<Json> = match doc.get_arr("data") {
        Some(a) => a,
        None => {
            return Err(CodecError::Structure("trade entries"));
        },
    };
    let ghost vs = json::views(a@);
    let mut i: usize = 0;
    while i < a.len()
        invariant
            i <= a@.len(),
            vs == json::views(a@),
            json::arr_member(doc.view(), "data"@) == Some(vs),
            forall|k: int| 0 <= k < i ==> #[trigger] raw_trade_ok(vs[k]),
        decreases a@.len() - i,
    {
        if !trade_shape(&a[i]) {
            assert(!raw_trade_ok(vs[i as int]));
            return Err(CodecError::Structure("trade entries"));
        }
        i += 1;
    }
    let ghost mut acc: Seq<TradeEntry> = Seq::empty();
    let mut i: usize = 0;
    assert(out@ =~= old(out)@ + frame::frame_events(
        Frame::Trade(snapshot, acc),
        recv_mono_ns,
        recv_wall_ns,
    ));
    while i < a.len()
        invariant
            i <= a@.len(),
            vs == json::views(a@),
            json::arr_member(doc.view(), "data"@) == Some(vs),
            forall|k: int| 0 <= k < a@.len() ==> #[trigger] raw_trade_ok(vs[k]),
            out@ == old(out)@ + frame::frame_events(
                Frame::Trade(snapshot, acc),
                recv_mono_ns,
                recv_wall_ns,
            ),
            trade_entries(vs, i as int, table@, acc) == trade_entries(vs, 0, table@, Seq::empty()),
        decreases a@.len() - i,
    {
        assert(raw_trade_ok(vs[i as int]));
        match slow_trade_entry(table, &a[i], snapshot, recv_mono_ns, recv_wall_ns) {
            Ok(e) => {
                out.push(e);
            },
            Err(e) => {
                return Err(e);
            },
        }
        proof {
            let x = trade_entry(vs[i as int], table@)->Ok_0;
            assert(out@ =~= old(out)@ + frame::frame_events(
                Frame::Trade(snapshot, acc.push(x)),
                recv_mono_ns,
                recv_wall_ns,
            ));
            acc = acc.push(x);
        }
        i += 1;
    }
    Ok(())
}

} // verus!
