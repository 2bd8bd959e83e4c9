//! The reference reading of a Binance message, over a parsed JSON document.
use super::msg;
use super::msg::{DiffHead, Msg, Snapshot, TradeMsg};
use crate::codec;
use crate::codec::{CodecError, SymbolTable};
use crate::emit;
use crate::emit::Stamp;
use crate::event::{Event, EventKind};
use crate::json;
use crate::json::{Json, JsonValue};
use vstd::prelude::*;
use vstd::utf8::*;

verus! {

/// The unsigned integer under `key`.
pub open spec fn need_u64(v: JsonValue, key: Seq<char>, what: &'static str) -> Result<
    u64,
    CodecError,
> {
    match json::u64_member(v, key) {
        Some(n) => Ok(n),
        None => Err(CodecError::Structure(what)),
    }
}

/// The string under `key`.
pub open spec fn need_str(v: JsonValue, key: Seq<char>, what: &'static str) -> Result<
    Seq<char>,
    CodecError,
> {
    match json::str_member(v, key) {
        Some(s) => Ok(s),
        None => Err(CodecError::Structure(what)),
    }
}

/// The `["price","qty"]` level that `v` is.
pub open spec fn level_value(v: JsonValue) -> Result<(i64, i64), CodecError> {
    match json::arr_of(v) {
        None => Err(CodecError::Structure("slow level: not array")),
        Some(a) => if a.len() != 2 {
            Err(CodecError::Structure("slow level: arity"))
        } else {
            match (json::str_of(a[0]), json::str_of(a[1])) {
                (None, _) => Err(CodecError::Structure("slow level: price")),
                (_, None) => Err(CodecError::Structure("slow level: qty")),
                (Some(p), Some(q)) => codec::fixed_pair_spec(encode_utf8(p), encode_utf8(q)),
            }
        },
    }
}

/// The levels of `a` from `k` on, behind `acc`.
pub open spec fn level_values(a: Seq<JsonValue>, k: int, acc: Seq<(i64, i64)>) -> Result<
    Seq<(i64, i64)>,
    CodecError,
>
    decreases a.len() - k,
{
    if !(0 <= k < a.len()) {
        Ok(acc)
    } else {
        match level_value(a[k]) {
            Err(e) => Err(e),
            Ok(x) => level_values(a, k + 1, acc.push(x)),
        }
    }
}

/// The levels of a diff under `key`.
pub open spec fn diff_levels(v: JsonValue, key: Seq<char>) -> Result<Seq<(i64, i64)>, CodecError> {
    match json::arr_member(v, key) {
        None => Err(CodecError::Structure("slow depth: levels")),
        Some(a) => level_values(a, 0, Seq::empty()),
    }
}

/// The instrument of the symbol `sym`.
pub open spec fn instrument_of(sym: Seq<char>, table: Seq<(Seq<u8>, u32)>) -> Result<
    u32,
    CodecError,
> {
    match codec::lookup_in(table, encode_utf8(sym)) {
        Some(id) => Ok(id),
        None => Err(CodecError::UnknownInstrument),
    }
}

/// The header of the diff that the `data` member `v` is.
pub open spec fn diff_head(v: JsonValue, table: Seq<(Seq<u8>, u32)>) -> Result<
    DiffHead,
    CodecError,
> {
    match need_u64(v, "E"@, "slow depth: E") {
        Err(e) => Err(e),
        Ok(e_ms) => match need_str(v, "s"@, "slow depth: s") {
            Err(e) => Err(e),
            Ok(sym) => match instrument_of(sym, table) {
                Err(e) => Err(e),
                Ok(instrument) => match need_u64(v, "U"@, "slow depth: U") {
                    Err(e) => Err(e),
                    Ok(first_u) => match need_u64(v, "u"@, "slow depth: u") {
                        Err(e) => Err(e),
                        Ok(final_u) => Ok(
                            DiffHead { instrument, first_u, final_u, ts: msg::ms_to_ns(e_ms) },
                        ),
                    },
                },
            },
        },
    }
}

/// The diff that the `data` member `v` is.
pub open spec fn diff_data(v: JsonValue, table: Seq<(Seq<u8>, u32)>) -> Result<Msg, CodecError> {
    match diff_head(v, table) {
        Err(e) => Err(e),
        Ok(h) => match diff_levels(v, "b"@) {
            Err(e) => Err(e),
            Ok(bids) => match diff_levels(v, "a"@) {
                Err(e) => Err(e),
                Ok(asks) => Ok(Msg::Diff(h, bids, asks)),
            },
        },
    }
}

/// The tokens, the time and the maker flag of the trade that `v` is.
pub open spec fn trade_tokens(v: JsonValue) -> Result<
    (Seq<char>, Seq<char>, u64, bool),
    CodecError,
> {
    match need_str(v, "p"@, "slow trade: p") {
        Err(e) => Err(e),
        Ok(p) => match need_str(v, "q"@, "slow trade: q") {
            Err(e) => Err(e),
            Ok(q) => match need_u64(v, "T"@, "slow trade: T") {
                Err(e) => Err(e),
                Ok(t_ms) => match json::member(v, "m"@) {
                    Some(JsonValue::Bool(m)) => Ok((p, q, t_ms, m)),
                    _ => Err(CodecError::Structure("slow trade: m")),
                },
            },
        },
    }
}

/// The trade that the `data` member `v` is.
pub open spec fn trade_data(v: JsonValue, table: Seq<(Seq<u8>, u32)>) -> Result<
    TradeMsg,
    CodecError,
> {
    match need_str(v, "s"@, "slow trade: s") {
        Err(e) => Err(e),
        Ok(sym) => match instrument_of(sym, table) {
            Err(e) => Err(e),
            Ok(instrument) => match need_u64(v, "t"@, "slow trade: t") {
                Err(e) => Err(e),
                Ok(id) => match trade_tokens(v) {
                    Err(e) => Err(e),
                    Ok((p, q, t_ms, taker_sell)) => match codec::fixed_pair_spec(
                        encode_utf8(p),
                        encode_utf8(q),
                    ) {
                        Err(e) => Err(e),
                        Ok((price, qty)) => Ok(
                            TradeMsg {
                                instrument,
                                id,
                                price,
                                qty,
                                ts: msg::ms_to_ns(t_ms),
                                taker_sell,
                            },
                        ),
                    },
                },
            },
        },
    }
}

/// What the `data` member `d` of the event type `e` says.
pub open spec fn data_msg(e: Seq<char>, d: JsonValue, table: Seq<(Seq<u8>, u32)>) -> Result<
    Msg,
    CodecError,
> {
    if e == "depthUpdate"@ {
        diff_data(d, table)
    } else if e == "trade"@ {
        match trade_data(d, table) {
            Ok(t) => Ok(Msg::Trade(t)),
            Err(e) => Err(e),
        }
    } else if e == "serverShutdown"@ {
        Ok(Msg::Shutdown)
    } else {
        Ok(Msg::Ignored)
    }
}

/// What the document of a frame with a `stream` says.
pub open spec fn stream_msg(v: JsonValue, table: Seq<(Seq<u8>, u32)>) -> Result<Msg, CodecError> {
    match (json::str_member(v, "stream"@), json::member(v, "data"@)) {
        (None, _) => Err(CodecError::Structure("slow: no stream")),
        (_, Some(JsonValue::Obj(m))) => {
            let d = JsonValue::Obj(m);
            match json::str_member(d, "e"@) {
                None => Ok(Msg::Ignored),
                Some(e) => data_msg(e, d, table),
            }
        },
        _ => Err(CodecError::Structure("slow: no data")),
    }
}

/// What the document `v` says.
pub open spec fn doc_msg(v: JsonValue, table: Seq<(Seq<u8>, u32)>) -> Result<Msg, CodecError> {
    if !(v is Obj) {
        Err(CodecError::Structure("slow: not an object"))
    } else {
        match json::member(v, "result"@) {
            Some(r) => if r is Null && json::u64_member(v, "id"@) is Some {
                Ok(Msg::Control)
            } else {
                Err(CodecError::Structure("slow: control shape"))
            },
            None => stream_msg(v, table),
        }
    }
}

/// What the slow path reads in the message `b`.
pub open spec fn slow_msg(b: Seq<u8>, table: Seq<(Seq<u8>, u32)>) -> Result<Msg, CodecError> {
    match json::json_of(b) {
        Err(_) => Err(CodecError::Structure("slow: invalid json")),
        Ok(v) => doc_msg(v, table),
    }
}

/// The snapshot that the document `v` is, for an instrument in the state
/// `d`.
pub open spec fn snapshot_doc(v: JsonValue, d: msg::Depth) -> Result<Snapshot, CodecError> {
    match (
        json::u64_member(v, "lastUpdateId"@),
        json::arr_member(v, "bids"@),
        json::arr_member(v, "asks"@),
    ) {
        (None, _, _) => Err(CodecError::Structure("snapshot: lastUpdateId")),
        (_, None, _) => Err(CodecError::Structure("snapshot: bids")),
        (_, _, None) => Err(CodecError::Structure("snapshot: asks")),
        (Some(last_update_id), Some(b), Some(a)) => if msg::stale(d, last_update_id) {
            Err(CodecError::Structure("stale rest snapshot"))
        } else {
            match level_values(b, 0, Seq::empty()) {
                Err(e) => Err(e),
                Ok(bids) => match level_values(a, 0, Seq::empty()) {
                    Err(e) => Err(e),
                    Ok(asks) => Ok(Snapshot { last_update_id, bids, asks }),
                },
            }
        },
    }
}

/// The snapshot that the REST body `b` is.
pub open spec fn snapshot_body(b: Seq<u8>, d: msg::Depth) -> Result<Snapshot, CodecError> {
    match json::json_of(b) {
        Err(_) => Err(CodecError::Structure("snapshot: invalid json")),
        Ok(v) => snapshot_doc(v, d),
    }
}

/// Unsigned integer field.
fn slow_u64(v: &Json, key: &str, what: &'static str) -> (r: Result<u64, CodecError>)
    ensures
        r == need_u64(v.view(), key@, what),
{
    match v.get_u64(key) {
        Some(n) => Ok(n),
        None => Err(CodecError::Structure(what)),
    }
}

/// String field.
fn slow_str<'v>(v: &'v Json, key: &str, what: &'static str) -> (r: Result<&'v str, CodecError>)
    ensures
        match need_str(v.view(), key@, what) {
            Ok(s) => r matches Ok(x) && x@ == s,
            Err(e) => r matches Err(f) && f == e,
        },
{
    match v.get_str(key) {
        Some(s) => Ok(s),
        None => Err(CodecError::Structure(what)),
    }
}

/// Instrument of a symbol.
fn slow_instrument(sym: &str, table: &SymbolTable) -> (r: Result<u32, CodecError>)
    ensures
        r == instrument_of(sym@, table@),
{
    match table.lookup(sym.as_bytes()) {
        Some(id) => Ok(id),
        None => Err(CodecError::UnknownInstrument),
    }
}

/// Extract one `["price","qty"]` level from a document.
fn slow_level(level: &Json) -> (r: Result<(i64, i64), CodecError>)
    ensures
        r == level_value(level.view()),
{
    let pair: &Vec<Json> = match level.as_arr() {
        Some(a) => a,
        None => {
            return Err(CodecError::Structure("slow level: not array"));
        },
    };
    if pair.len() != 2 {
        return Err(CodecError::Structure("slow level: arity"));
    }
    match (pair[0].as_str(), pair[1].as_str()) {
        (None, _) => Err(CodecError::Structure("slow level: price")),
        (_, None) => Err(CodecError::Structure("slow level: qty")),
        (Some(p), Some(q)) => codec::fixed_pair(p.as_bytes(), q.as_bytes()),
    }
}

/// Append one event per level of `a`.
pub(crate) fn slow_levels(
    a: &Vec<Json>,
    stamp: Stamp,
    kind: EventKind,
    out: &mut Vec<Event>,
) -> (r: Result<(), CodecError>)
    ensures
        old(out)@.is_prefix_of(final(out)@),
        match level_values(json::views(a@), 0, Seq::empty()) {
            Ok(ls) => r is Ok && ls.len() == a@.len() && final(out)@ == old(out)@
                + emit::level_events(stamp, kind, ls),
            Err(e) => r == Err::<(), CodecError>(e),
        },
{
    let ghost vs = json::views(a@);
    let ghost mut acc: Seq<(i64, i64)> = Seq::empty();
    let mut i: usize = 0;
    assert(out@ =~= old(out)@ + emit::level_events(stamp, kind, acc));
    while i < a.len()
        invariant
            i <= a@.len(),
            vs == json::views(a@),
            acc.len() == i,
            out@ == old(out)@ + emit::level_events(stamp, kind, acc),
            level_values(vs, i as int, acc) == level_values(vs, 0, Seq::empty()),
        decreases a@.len() - i,
    {
        let l: (i64, i64) = match slow_level(&a[i]) {
            Ok(l) => l,
            Err(e) => {
                return Err(e);
            },
        };
        out.push(stamp.ev(kind, l.0, l.1, 0));
        proof {
            emit::lemma_level_events_push(stamp, kind, acc, l);
            assert(out@ =~= old(out)@ + emit::level_events(stamp, kind, acc.push(l)));
            acc = acc.push(l);
        }
        i += 1;
    }
    Ok(())
}

/// Header of a diff from its `data` member.
fn slow_diff_head(v: &Json, table: &SymbolTable) -> (r: Result<DiffHead, CodecError>)
    ensures
        r == diff_head(v.view(), table@),
{
    let e_ms: u64 = match slow_u64(v, "E", "slow depth: E") {
        Ok(n) => n,
        Err(e) => {
            return Err(e);
        },
    };
    let instrument: u32 = match slow_str(v, "s", "slow depth: s") {
        Ok(s) => match slow_instrument(s, table) {
            Ok(id) => id,
            Err(e) => {
                return Err(e);
            },
        },
        Err(e) => {
            return Err(e);
        },
    };
    let first_u: u64 = match slow_u64(v, "U", "slow depth: U") {
        Ok(n) => n,
        Err(e) => {
            return Err(e);
        },
    };
    match slow_u64(v, "u", "slow depth: u") {
        Ok(final_u) => Ok(DiffHead { instrument, first_u, final_u, ts: super::to_ns(e_ms) }),
        Err(e) => Err(e),
    }
}

/// Diff from its `data` member. Appends the events of all levels and returns
/// the header.
pub fn slow_depth(
    v: &Json,
    table: &SymbolTable,
    recv_mono_ns: u64,
    recv_wall_ns: u64,
    out: &mut Vec<Event>,
) -> (r: Result<DiffHead, CodecError>)
    ensures
        old(out)@.is_prefix_of(final(out)@),
        match diff_data(v.view(), table@) {
            Ok(m) => r matches Ok(h) && m is Diff && m->Diff_0 == h && final(out)@ == old(out)@
                + msg::diff_events(h, m->Diff_1, m->Diff_2, recv_mono_ns, recv_wall_ns),
            Err(e) => r == Err::<DiffHead, CodecError>(e),
        },
{
    let h: DiffHead = match slow_diff_head(v, table) {
        Ok(h) => h,
        Err(e) => {
            return Err(e);
        },
    };
    let stamp: Stamp = super::make_stamp(
        h.instrument,
        h.ts,
        h.final_u,
        0,
        recv_mono_ns,
        recv_wall_ns,
    );
    match v.get_arr("b") {
        Some(a) => match slow_levels(a, stamp, EventKind::BidSet, out) {
            Ok(_) => {},
            Err(e) => {
                return Err(e);
            },
        },
        None => {
            return Err(CodecError::Structure("slow depth: levels"));
        },
    }
    match v.get_arr("a") {
        Some(a) => match slow_levels(a, stamp, EventKind::AskSet, out) {
            Ok(_) => {},
            Err(e) => {
                return Err(e);
            },
        },
        None => {
            return Err(CodecError::Structure("slow depth: levels"));
        },
    }
    proof {
        let m = diff_data(v.view(), table@)->Ok_0;
        assert(out@ =~= old(out)@ + msg::diff_events(
            h,
            m->Diff_1,
            m->Diff_2,
            recv_mono_ns,
            recv_wall_ns,
        ));
    }
    Ok(h)
}

/// Tokens, time and maker flag of a trade.
fn slow_trade_tokens<'v>(v: &'v Json) -> (r: Result<(&'v str, &'v str, u64, bool), CodecError>)
    ensures
        match trade_tokens(v.view()) {
            Ok(x) => r matches Ok(y) && y.0@ == x.0 && y.1@ == x.1 && y.2 == x.2 && y.3 == x.3,
            Err(e) => r matches Err(f) && f == e,
        },
{
    let p: &'v str = match slow_str(v, "p", "slow trade: p") {
        Ok(s) => s,
        Err(e) => {
            return Err(e);
        },
    };
    let q: &'v str = match slow_str(v, "q", "slow trade: q") {
        Ok(s) => s,
        Err(e) => {
            return Err(e);
        },
    };
    let t_ms: u64 = match slow_u64(v, "T", "slow trade: T") {
        Ok(n) => n,
        Err(e) => {
            return Err(e);
        },
    };
    match v.get("m") {
        Some(Json::Bool(m)) => Ok((p, q, t_ms, *m)),
        _ => Err(CodecError::Structure("slow trade: m")),
    }
}

/// Trade from its `data` member.
pub fn slow_trade(v: &Json, table: &SymbolTable) -> (r: Result<TradeMsg, CodecError>)
    ensures
        r == trade_data(v.view(), table@),
{
    let instrument: u32 = match slow_str(v, "s", "slow trade: s") {
        Ok(s) => match slow_instrument(s, table) {
            Ok(id) => id,
            Err(e) => {
                return Err(e);
            },
        },
        Err(e) => {
            return Err(e);
        },
    };
    let id: u64 = match slow_u64(v, "t", "slow trade: t") {
        Ok(n) => n,
        Err(e) => {
            return Err(e);
        },
    };
    let (p, q, t_ms, taker_sell): (&str, &str, u64, bool) = match slow_trade_tokens(v) {
        Ok(x) => x,
        Err(e) => {
            return Err(e);
        },
    };
    match codec::fixed_pair(p.as_bytes(), q.as_bytes()) {
        Ok((price, qty)) => Ok(
            TradeMsg { instrument, id, price, qty, ts: super::to_ns(t_ms), taker_sell },
        ),
        Err(e) => Err(e),
    }
}

} // verus!
