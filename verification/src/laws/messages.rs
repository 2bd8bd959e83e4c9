//! Laws of what the venues' messages say: each value of a message comes from
//! its own field, and every item of a list comes out.
use crate::binance::diff_wire::DiffText;
use crate::binance::msg;
use crate::binance::slow as bslow;
use crate::binance::wire as bwire;
use crate::codec;
use crate::codec::CodecError;
use crate::coinbase::msg as cmsg;
use crate::coinbase::slow as cslow;
use crate::coinbase::wire as cwire;
use crate::coinbase::wire::{ChangeText, HeartbeatText, MatchText, SnapshotText, UpdateText};
use crate::fixed;
use crate::json;
use crate::json::JsonValue;
use crate::kraken::frame::{BookEntry, Frame, TradeEntry};
use crate::kraken::slow as kslow;
use crate::kraken::trade_wire;
use crate::kraken::trade_wire::{TradeText, TradesText};
use crate::kraken::wire as kwire;
use crate::kraken::wire::{BookText, EntryText};
use crate::levels;
use crate::levels::LevelText;
use crate::scan;
use vstd::prelude::*;
use vstd::utf8::*;

verus! {

/// What a level of a Kraken document says, given that it has the shape of
/// one.
pub open spec fn kraken_level(v: JsonValue) -> Result<(i64, i64), CodecError> {
    let (p, q) = kslow::raw_level(v)->Some_0;
    codec::fixed_pair_spec(encode_utf8(p), encode_utf8(q))
}

/// What the items of `a` from `k` on say by `f`, behind `acc`: the first that
/// says nothing spoils all.
pub open spec fn each<A, B>(
    a: Seq<A>,
    k: int,
    f: spec_fn(A) -> Result<B, CodecError>,
    acc: Seq<B>,
) -> Result<Seq<B>, CodecError>
    decreases a.len() - k,
{
    if !(0 <= k < a.len()) {
        Ok(acc)
    } else {
        match f(a[k]) {
            Err(e) => Err(e),
            Ok(x) => each(a, k + 1, f, acc.push(x)),
        }
    }
}

/// A list is read exactly where each of its items is, and then all of them
/// come out, one for one and in order, behind what came before.
pub proof fn lemma_each<A, B>(
    a: Seq<A>,
    k: int,
    f: spec_fn(A) -> Result<B, CodecError>,
    acc: Seq<B>,
)
    requires
        0 <= k <= a.len(),
    ensures
        each(a, k, f, acc) is Ok <==> forall|i: int| k <= i < a.len() ==> f(#[trigger] a[i]) is Ok,
        each(a, k, f, acc) matches Ok(v) ==> {
            &&& v.len() == acc.len() + a.len() - k
            &&& v.take(acc.len() as int) == acc
            &&& forall|i: int|
                k <= i < a.len() ==> f(#[trigger] a[i]) == Ok::<B, CodecError>(
                    v[acc.len() + i - k],
                )
        },
    decreases a.len() - k,
{
    let r = each(a, k, f, acc);
    if k < a.len() {
        if let Ok(x) = f(a[k]) {
            let next = acc.push(x);
            lemma_each(a, k + 1, f, next);
            if let Ok(v) = r {
                assert(next[acc.len() as int] == x);
                assert(v.take(next.len() as int)[acc.len() as int] == x);
                assert(v.take(acc.len() as int) =~= acc) by {
                    assert forall|i: int| 0 <= i < acc.len() implies v.take(acc.len() as int)[i]
                        == acc[i] by {
                        assert(v.take(next.len() as int)[i] == next[i]);
                    }
                }
            }
        }
    } else if let Ok(v) = r {
        assert(v.take(acc.len() as int) =~= acc);
    }
}

/// What came out of a list that was read from its start: the `i`-th item says
/// the `i`-th value.
proof fn lemma_read_whole<A, B>(
    a: Seq<A>,
    f: spec_fn(A) -> Result<B, CodecError>,
    v: Seq<B>,
)
    requires
        each(a, 0, f, Seq::empty()) == Ok::<Seq<B>, CodecError>(v),
    ensures
        v.len() == a.len(),
        forall|i: int| 0 <= i < v.len() ==> f(a[i]) == Ok::<B, CodecError>(#[trigger] v[i]),
{
    lemma_each(a, 0, f, Seq::empty());
    assert forall|i: int| 0 <= i < v.len() implies f(a[i]) == Ok::<B, CodecError>(
        #[trigger] v[i],
    ) by {
        assert(a[i] == a[i]);
    }
}

/// The levels of a frame are read one by one, all of them.
pub proof fn lemma_levels(
    a: Seq<LevelText>,
    k: int,
    acc: Seq<(i64, i64)>,
)
    requires
        0 <= k <= a.len(),
    ensures
        levels::said_levels(a, k, acc) == each(a, k, |x: LevelText| codec::fixed_pair_spec(encode_utf8(x.0), encode_utf8(x.1)), acc),
    decreases a.len() - k,
{
    if k < a.len() {
        if let Ok(x) = codec::fixed_pair_spec(encode_utf8(a[k].0), encode_utf8(a[k].1)) {
            lemma_levels(a, k + 1, acc.push(x));
        }
    }
}

/// The level changes of a frame are read one by one, all of them.
pub proof fn lemma_changes(
    a: Seq<ChangeText>,
    k: int,
    acc: Seq<(bool, i64, i64)>,
)
    requires
        0 <= k <= a.len(),
    ensures
        cwire::said_changes(a, k, acc) == each(a, k, |x: ChangeText| cwire::said_change(x), acc),
    decreases a.len() - k,
{
    if k < a.len() {
        if let Ok(x) = cwire::said_change(a[k]) {
            lemma_changes(a, k + 1, acc.push(x));
        }
    }
}

/// The book entries of a frame are read one by one, all of them.
pub proof fn lemma_entries(
    a: Seq<EntryText>,
    k: int,
    table: Seq<(Seq<u8>, u32)>,
    snapshot: bool,
    acc: Seq<BookEntry>,
)
    requires
        0 <= k <= a.len(),
    ensures
        kwire::said_entries(a, k, table, snapshot, acc) == each(a, k, |x: EntryText| x.said(table, snapshot), acc),
    decreases a.len() - k,
{
    if k < a.len() {
        if let Ok(x) = a[k].said(table, snapshot) {
            lemma_entries(a, k + 1, table, snapshot, acc.push(x));
        }
    }
}

/// The trades of a frame are read one by one, all of them.
pub proof fn lemma_trades(
    a: Seq<TradeText>,
    k: int,
    table: Seq<(Seq<u8>, u32)>,
    acc: Seq<TradeEntry>,
)
    requires
        0 <= k <= a.len(),
    ensures
        trade_wire::said_trades(a, k, table, acc) == each(a, k, |x: TradeText| x.said(table), acc),
    decreases a.len() - k,
{
    if k < a.len() {
        if let Ok(x) = a[k].said(table) {
            lemma_trades(a, k + 1, table, acc.push(x));
        }
    }
}

/// The levels of a Binance document are read one by one, all of them.
pub proof fn lemma_binance_levels(
    a: Seq<JsonValue>,
    k: int,
    acc: Seq<(i64, i64)>,
)
    requires
        0 <= k <= a.len(),
    ensures
        bslow::level_values(a, k, acc) == each(a, k, |x: JsonValue| bslow::level_value(x), acc),
    decreases a.len() - k,
{
    if k < a.len() {
        if let Ok(x) = bslow::level_value(a[k]) {
            lemma_binance_levels(a, k + 1, acc.push(x));
        }
    }
}

/// The levels of a Coinbase document are read one by one, all of them.
pub proof fn lemma_coinbase_levels(
    a: Seq<JsonValue>,
    k: int,
    acc: Seq<(i64, i64)>,
)
    requires
        0 <= k <= a.len(),
    ensures
        cslow::level_values(a, k, acc) == each(a, k, |x: JsonValue| cslow::level_value(x), acc),
    decreases a.len() - k,
{
    if k < a.len() {
        if let Ok(x) = cslow::level_value(a[k]) {
            lemma_coinbase_levels(a, k + 1, acc.push(x));
        }
    }
}

/// The level changes of a Coinbase document are read one by one, all of them.
pub proof fn lemma_coinbase_changes(
    a: Seq<JsonValue>,
    k: int,
    acc: Seq<(bool, i64, i64)>,
)
    requires
        0 <= k <= a.len(),
    ensures
        cslow::change_values(a, k, acc) == each(a, k, |x: JsonValue| cslow::change_value(x), acc),
    decreases a.len() - k,
{
    if k < a.len() {
        if let Ok(x) = cslow::change_value(a[k]) {
            lemma_coinbase_changes(a, k + 1, acc.push(x));
        }
    }
}

/// The book entries of a Kraken document are read one by one, all of them.
pub proof fn lemma_kraken_entries(
    a: Seq<JsonValue>,
    k: int,
    table: Seq<(Seq<u8>, u32)>,
    snapshot: bool,
    acc: Seq<BookEntry>,
)
    requires
        0 <= k <= a.len(),
    ensures
        kslow::book_entries(a, k, table, snapshot, acc) == each(a, k, |x: JsonValue| kslow::book_entry(x, table, snapshot), acc),
    decreases a.len() - k,
{
    if k < a.len() {
        if let Ok(x) = kslow::book_entry(a[k], table, snapshot) {
            lemma_kraken_entries(a, k + 1, table, snapshot, acc.push(x));
        }
    }
}

/// The trades of a Kraken document are read one by one, all of them.
pub proof fn lemma_kraken_trades(
    a: Seq<JsonValue>,
    k: int,
    table: Seq<(Seq<u8>, u32)>,
    acc: Seq<TradeEntry>,
)
    requires
        0 <= k <= a.len(),
    ensures
        kslow::trade_entries(a, k, table, acc) == each(a, k, |x: JsonValue| kslow::trade_entry(x, table), acc),
    decreases a.len() - k,
{
    if k < a.len() {
        if let Ok(x) = kslow::trade_entry(a[k], table) {
            lemma_kraken_trades(a, k + 1, table, acc.push(x));
        }
    }
}

/// The levels of a Kraken document are read one by one, all of them.
pub proof fn lemma_kraken_levels(
    a: Seq<JsonValue>,
    k: int,
    acc: Seq<(i64, i64)>,
)
    requires
        0 <= k <= a.len(),
    ensures
        kslow::fixed_levels(a, k, acc) == each(a, k, |x: JsonValue| kraken_level(x), acc),
    decreases a.len() - k,
{
    if k < a.len() {
        if let Ok(x) = kraken_level(a[k]) {
            lemma_kraken_levels(a, k + 1, acc.push(x));
        }
    }
}

/// A Binance trade frame says its own id, price, quantity and time, and that
/// the taker sold where the buyer was the maker; it says nothing where its
/// symbol is not known or a token of it is no exact decimal.
pub proof fn lemma_binance_trade_says(f: bwire::TradeText, table: Seq<(Seq<u8>, u32)>)
    ensures
        f.said(table) is Ok <==> codec::lookup_in(table, encode_utf8(f.symbol)) is Some
            && fixed::parse_fixed_spec(encode_utf8(f.price)) is Ok && fixed::parse_fixed_spec(
            encode_utf8(f.qty),
        ) is Ok,
        f.said(table) matches Ok(m) ==> m matches msg::Msg::Trade(t) && {
            &&& codec::lookup_in(table, encode_utf8(f.symbol)) == Some(t.instrument)
            &&& t.id == f.id
            &&& fixed::parse_fixed_spec(encode_utf8(f.price)) == Ok::<
                i64,
                fixed::ParseFixedError,
            >(t.price)
            &&& fixed::parse_fixed_spec(encode_utf8(f.qty)) == Ok::<i64, fixed::ParseFixedError>(
                t.qty,
            )
            &&& t.taker_sell == f.buyer_made
            &&& f.trade_ms <= 18_446_744_073_709 ==> t.ts == f.trade_ms * 1_000_000
        },
{
}

/// A Binance diff frame says its own update ids and event time, and the
/// levels of both of its sides.
pub proof fn lemma_binance_diff_says(f: DiffText, table: Seq<(Seq<u8>, u32)>)
    ensures
        f.said(table) matches Ok(m) ==> m matches msg::Msg::Diff(h, bids, asks) && {
            &&& codec::lookup_in(table, encode_utf8(f.symbol)) == Some(h.instrument)
            &&& h.first_u == f.first_u
            &&& h.final_u == f.final_u
            &&& f.event_ms <= 18_446_744_073_709 ==> h.ts == f.event_ms * 1_000_000
            &&& levels::said_levels(f.bids, 0, Seq::empty()) == Ok::<
                Seq<(i64, i64)>,
                CodecError,
            >(bids)
            &&& levels::said_levels(f.asks, 0, Seq::empty()) == Ok::<
                Seq<(i64, i64)>,
                CodecError,
            >(asks)
            &&& bids.len() == f.bids.len()
            &&& asks.len() == f.asks.len()
        },
{
    lemma_levels(f.bids, 0, Seq::empty());
    if let Ok(x) = levels::said_levels(f.bids, 0, Seq::empty()) {
        lemma_read_whole(
            f.bids,
            |x: LevelText| codec::fixed_pair_spec(encode_utf8(x.0), encode_utf8(x.1)),
            x,
        );
    }
    lemma_levels(f.asks, 0, Seq::empty());
    if let Ok(x) = levels::said_levels(f.asks, 0, Seq::empty()) {
        lemma_read_whole(
            f.asks,
            |x: LevelText| codec::fixed_pair_spec(encode_utf8(x.0), encode_utf8(x.1)),
            x,
        );
    }
}

/// A level of a Binance document is an array of two strings, both exact
/// decimals: the price, then the quantity.
pub proof fn lemma_binance_level(v: JsonValue)
    ensures
        bslow::level_value(v) matches Ok(l) ==> v matches JsonValue::Arr(a) && a.len() == 2
            && a[0] is Str && a[1] is Str && codec::fixed_pair_spec(
            encode_utf8(a[0]->Str_0),
            encode_utf8(a[1]->Str_0),
        ) == Ok::<(i64, i64), CodecError>(l),
        v matches JsonValue::Arr(a) ==> (a.len() == 2 && a[0] is Str && a[1] is Str
            && codec::fixed_pair_spec(
            encode_utf8(a[0]->Str_0),
            encode_utf8(a[1]->Str_0),
        ) is Ok ==> bslow::level_value(v) is Ok),
{
}

/// A Binance diff document says what its members hold: `U` and `u`, the time
/// `E`, the symbol `s`, the bids `b` and the asks `a`.
pub proof fn lemma_binance_diff_doc(v: JsonValue, table: Seq<(Seq<u8>, u32)>)
    ensures
        bslow::diff_data(v, table) matches Ok(m) ==> m matches msg::Msg::Diff(h, bids, asks) && {
            &&& json::u64_member(v, "U"@) == Some(h.first_u)
            &&& json::u64_member(v, "u"@) == Some(h.final_u)
            &&& json::u64_member(v, "E"@) is Some && (json::u64_member(v, "E"@)->0
                <= 18_446_744_073_709 ==> h.ts == json::u64_member(v, "E"@)->0 * 1_000_000)
            &&& json::str_member(v, "s"@) is Some && codec::lookup_in(
                table,
                encode_utf8(json::str_member(v, "s"@)->0),
            ) == Some(h.instrument)
            &&& json::arr_member(v, "b"@) is Some && json::arr_member(v, "b"@)->0.len()
                == bids.len()
            &&& json::arr_member(v, "a"@) is Some && json::arr_member(v, "a"@)->0.len()
                == asks.len()
            &&& forall|i: int|
                0 <= i < bids.len() ==> bslow::level_value(json::arr_member(v, "b"@)->0[i])
                    == Ok::<(i64, i64), CodecError>(#[trigger] bids[i])
            &&& forall|i: int|
                0 <= i < asks.len() ==> bslow::level_value(json::arr_member(v, "a"@)->0[i])
                    == Ok::<(i64, i64), CodecError>(#[trigger] asks[i])
        },
{
    if let Some(b) = json::arr_member(v, "b"@) {
        lemma_binance_levels(b, 0, Seq::empty());
        if let Ok(x) = bslow::level_values(b, 0, Seq::empty()) {
            lemma_read_whole(b, |x: JsonValue| bslow::level_value(x), x);
        }
    }
    if let Some(a) = json::arr_member(v, "a"@) {
        lemma_binance_levels(a, 0, Seq::empty());
        if let Ok(x) = bslow::level_values(a, 0, Seq::empty()) {
            lemma_read_whole(a, |x: JsonValue| bslow::level_value(x), x);
        }
    }
}

/// A Binance trade document says what its members hold: the symbol `s`, the
/// id `t`, the price `p`, the quantity `q`, the time `T` and the maker flag
/// `m`.
pub proof fn lemma_binance_trade_doc(v: JsonValue, table: Seq<(Seq<u8>, u32)>)
    ensures
        bslow::trade_data(v, table) matches Ok(t) ==> {
            &&& json::str_member(v, "s"@) is Some && codec::lookup_in(
                table,
                encode_utf8(json::str_member(v, "s"@)->0),
            ) == Some(t.instrument)
            &&& json::u64_member(v, "t"@) == Some(t.id)
            &&& json::str_member(v, "p"@) is Some && fixed::parse_fixed_spec(
                encode_utf8(json::str_member(v, "p"@)->0),
            ) == Ok::<i64, fixed::ParseFixedError>(t.price)
            &&& json::str_member(v, "q"@) is Some && fixed::parse_fixed_spec(
                encode_utf8(json::str_member(v, "q"@)->0),
            ) == Ok::<i64, fixed::ParseFixedError>(t.qty)
            &&& json::u64_member(v, "T"@) is Some && (json::u64_member(v, "T"@)->0
                <= 18_446_744_073_709 ==> t.ts == json::u64_member(v, "T"@)->0 * 1_000_000)
            &&& json::member(v, "m"@) == Some(JsonValue::Bool(t.taker_sell))
        },
{
}

/// A Binance REST snapshot says its own update id and the levels of both of
/// its sides, and it is refused where it is older than a diff that was seen
/// before it.
pub proof fn lemma_binance_snapshot_doc(v: JsonValue, d: msg::Depth)
    ensures
        bslow::snapshot_doc(v, d) matches Ok(s) ==> {
            &&& json::u64_member(v, "lastUpdateId"@) == Some(s.last_update_id)
            &&& json::arr_member(v, "bids"@) is Some && json::arr_member(v, "bids"@)->0.len()
                == s.bids.len()
            &&& json::arr_member(v, "asks"@) is Some && json::arr_member(v, "asks"@)->0.len()
                == s.asks.len()
            &&& d matches msg::Depth::Unsynced { mark: Some(m) } ==> m <= s.last_update_id
            &&& forall|i: int|
                0 <= i < s.bids.len() ==> bslow::level_value(json::arr_member(v, "bids"@)->0[i])
                    == Ok::<(i64, i64), CodecError>(#[trigger] s.bids[i])
            &&& forall|i: int|
                0 <= i < s.asks.len() ==> bslow::level_value(json::arr_member(v, "asks"@)->0[i])
                    == Ok::<(i64, i64), CodecError>(#[trigger] s.asks[i])
        },
        json::u64_member(v, "lastUpdateId"@) matches Some(id) ==> (json::arr_member(
            v,
            "bids"@,
        ) matches Some(b) ==> (json::arr_member(v, "asks"@) matches Some(a) ==> {
            let old = d matches msg::Depth::Unsynced { mark: Some(m) } && id < m;
            &&& old ==> bslow::snapshot_doc(v, d) is Err
            &&& !old && bslow::level_values(b, 0, Seq::empty()) is Ok && bslow::level_values(
                a,
                0,
                Seq::empty(),
            ) is Ok ==> bslow::snapshot_doc(v, d) is Ok
        })),
{
    if let Some(b) = json::arr_member(v, "bids"@) {
        lemma_binance_levels(b, 0, Seq::empty());
        if let Ok(x) = bslow::level_values(b, 0, Seq::empty()) {
            lemma_read_whole(b, |x: JsonValue| bslow::level_value(x), x);
        }
    }
    if let Some(a) = json::arr_member(v, "asks"@) {
        lemma_binance_levels(a, 0, Seq::empty());
        if let Ok(x) = bslow::level_values(a, 0, Seq::empty()) {
            lemma_read_whole(a, |x: JsonValue| bslow::level_value(x), x);
        }
    }
}

/// A Coinbase side: `buy` is a bid, `sell` an ask, and nothing else is one.
pub proof fn lemma_coinbase_side(v: Option<Seq<char>>, what: &'static str)
    ensures
        cslow::side_value(v, what) == Ok::<bool, CodecError>(true) <==> v == Some("buy"@),
        cslow::side_value(v, what) == Ok::<bool, CodecError>(false) <==> v == Some("sell"@),
        v != Some("buy"@) && v != Some("sell"@) ==> cslow::side_value(v, what) is Err,
{
    reveal_strlit("buy");
    reveal_strlit("sell");
    assert("buy"@.len() == 3);
    assert("sell"@.len() == 4);
}

/// A Coinbase heartbeat says its own last trade id and sequence number, its
/// time and its product; it says nothing where one of the latter two cannot
/// be read.
pub proof fn lemma_coinbase_heartbeat_says(f: HeartbeatText, table: Seq<(Seq<u8>, u32)>)
    ensures
        f.said(table) is Ok <==> scan::rfc3339_spec(encode_utf8(f.time)) is Some
            && codec::lookup_in(table, encode_utf8(f.product)) is Some,
        f.said(table) matches Ok(m) ==> m matches cmsg::Msg::Heartbeat(h) && {
            &&& h.last_trade_id == f.last_trade_id
            &&& h.seq == f.seq
            &&& scan::rfc3339_spec(encode_utf8(f.time)) == Some(h.ts)
            &&& codec::lookup_in(table, encode_utf8(f.product)) == Some(h.instrument)
        },
{
}

/// A Coinbase match says its own trade id, sequence number, price and size,
/// that the taker sold where the maker bought, and whether it is checked for
/// gaps, which a `last_match` is not.
pub proof fn lemma_coinbase_match_says(f: MatchText, table: Seq<(Seq<u8>, u32)>)
    ensures
        f.said(table) matches Ok(m) ==> m matches cmsg::Msg::Match(x) && {
            &&& x.id == f.id
            &&& x.seq == f.seq
            &&& x.gap_check == !f.last
            &&& (f.side == "buy"@ || f.side == "sell"@)
            &&& x.taker_sell == (f.side == "buy"@)
            &&& fixed::parse_fixed_spec(encode_utf8(f.price)) == Ok::<
                i64,
                fixed::ParseFixedError,
            >(x.price)
            &&& fixed::parse_fixed_spec(encode_utf8(f.size)) == Ok::<i64, fixed::ParseFixedError>(
                x.qty,
            )
            &&& scan::rfc3339_spec(encode_utf8(f.time)) == Some(x.ts)
            &&& codec::lookup_in(table, encode_utf8(f.product)) == Some(x.instrument)
        },
        scan::rfc3339_spec(encode_utf8(f.time)) is Some && codec::lookup_in(
            table,
            encode_utf8(f.product),
        ) is Some && (f.side == "buy"@ || f.side == "sell"@) && fixed::parse_fixed_spec(
            encode_utf8(f.price),
        ) is Ok && fixed::parse_fixed_spec(encode_utf8(f.size)) is Ok ==> f.said(table) is Ok,
{
    reveal_strlit("buy");
    reveal_strlit("sell");
    assert("buy"@.len() == 3);
    assert("sell"@.len() == 4);
}

/// A level change of Coinbase says its side, its price and its quantity.
pub proof fn lemma_coinbase_change_says(c: ChangeText)
    ensures
        cwire::said_change(c) matches Ok(x) ==> {
            &&& (c.0 == "buy"@ || c.0 == "sell"@)
            &&& x.0 == (c.0 == "buy"@)
            &&& fixed::parse_fixed_spec(encode_utf8(c.1)) == Ok::<i64, fixed::ParseFixedError>(x.1)
            &&& fixed::parse_fixed_spec(encode_utf8(c.2)) == Ok::<i64, fixed::ParseFixedError>(x.2)
        },
        (c.0 == "buy"@ || c.0 == "sell"@) && fixed::parse_fixed_spec(encode_utf8(c.1)) is Ok
            && fixed::parse_fixed_spec(encode_utf8(c.2)) is Ok ==> cwire::said_change(c) is Ok,
{
    reveal_strlit("buy");
    reveal_strlit("sell");
    assert("buy"@.len() == 3);
    assert("sell"@.len() == 4);
}

/// A Coinbase update says its time, its product and all of its changes; a
/// snapshot its time, its product and all the levels of both sides.
pub proof fn lemma_coinbase_book_says(
    f: UpdateText,
    s: SnapshotText,
    table: Seq<(Seq<u8>, u32)>,
)
    ensures
        f.said(table) matches Ok(m) ==> m matches cmsg::Msg::L2Update(id, ts, cs) && {
            &&& scan::rfc3339_spec(encode_utf8(f.time)) == Some(ts)
            &&& codec::lookup_in(table, encode_utf8(f.product)) == Some(id)
            &&& cs.len() == f.changes.len()
            &&& forall|i: int|
                0 <= i < cs.len() ==> cwire::said_change(f.changes[i]) == Ok::<
                    (bool, i64, i64),
                    CodecError,
                >(#[trigger] cs[i])
        },
        s.said(table) matches Ok(m) ==> m matches cmsg::Msg::Snapshot(x) && {
            &&& scan::rfc3339_spec(encode_utf8(s.time)) == Some(x.ts)
            &&& codec::lookup_in(table, encode_utf8(s.product)) == Some(x.instrument)
            &&& x.seq == 0
            &&& !x.rest
            &&& x.bids.len() == s.bids.len()
            &&& x.asks.len() == s.asks.len()
            &&& levels::said_levels(s.bids, 0, Seq::empty()) == Ok::<
                Seq<(i64, i64)>,
                CodecError,
            >(x.bids)
            &&& levels::said_levels(s.asks, 0, Seq::empty()) == Ok::<
                Seq<(i64, i64)>,
                CodecError,
            >(x.asks)
        },
{
    lemma_changes(f.changes, 0, Seq::empty());
    lemma_levels(s.bids, 0, Seq::empty());
    if let Ok(x) = levels::said_levels(s.bids, 0, Seq::empty()) {
        lemma_read_whole(
            s.bids,
            |x: LevelText| codec::fixed_pair_spec(encode_utf8(x.0), encode_utf8(x.1)),
            x,
        );
    }
    lemma_levels(s.asks, 0, Seq::empty());
    if let Ok(x) = levels::said_levels(s.asks, 0, Seq::empty()) {
        lemma_read_whole(
            s.asks,
            |x: LevelText| codec::fixed_pair_spec(encode_utf8(x.0), encode_utf8(x.1)),
            x,
        );
    }
    if let Ok(cs) = cwire::said_changes(f.changes, 0, Seq::empty()) {
        lemma_read_whole(f.changes, |x: ChangeText| cwire::said_change(x), cs);
    }
}

/// A Coinbase document is read by its type: matches with the gap check and
/// without, heartbeats, updates and snapshots; what it says of each comes
/// from the members of that name.
pub proof fn lemma_coinbase_docs(v: JsonValue, table: Seq<(Seq<u8>, u32)>, check: bool)
    ensures
        cslow::match_doc(v, table, check) matches Ok(m) ==> {
            &&& m.gap_check == check
            &&& json::u64_member(v, "trade_id"@) == Some(m.id)
            &&& json::u64_member(v, "sequence"@) == Some(m.seq)
            &&& json::str_member(v, "side"@) == (if m.taker_sell {
                Some("buy"@)
            } else {
                Some("sell"@)
            })
            &&& json::str_member(v, "price"@) is Some && fixed::parse_fixed_spec(
                encode_utf8(json::str_member(v, "price"@)->0),
            ) == Ok::<i64, fixed::ParseFixedError>(m.price)
            &&& json::str_member(v, "size"@) is Some && fixed::parse_fixed_spec(
                encode_utf8(json::str_member(v, "size"@)->0),
            ) == Ok::<i64, fixed::ParseFixedError>(m.qty)
            &&& json::str_member(v, "product_id"@) is Some && codec::lookup_in(
                table,
                encode_utf8(json::str_member(v, "product_id"@)->0),
            ) == Some(m.instrument)
        },
        cslow::heartbeat_doc(v, table) matches Ok(h) ==> {
            &&& json::u64_member(v, "last_trade_id"@) == Some(h.last_trade_id)
            &&& json::u64_member(v, "sequence"@) == Some(h.seq)
            &&& json::str_member(v, "product_id"@) is Some && codec::lookup_in(
                table,
                encode_utf8(json::str_member(v, "product_id"@)->0),
            ) == Some(h.instrument)
        },
        cslow::doc_ts(v) matches Ok(ts) ==> (json::member(v, "time"@) is None && ts == 0) || (
        json::str_member(v, "time"@) is Some && scan::rfc3339_spec(
            encode_utf8(json::str_member(v, "time"@)->0),
        ) == Some(ts)),
{
}

/// A level change of a Coinbase document is an array of three strings: the
/// side, the price and the quantity; a level one of two.
pub proof fn lemma_coinbase_items(v: JsonValue)
    ensures
        cslow::change_value(v) matches Ok(x) ==> v matches JsonValue::Arr(a) && a.len() == 3
            && a[0] is Str && a[1] is Str && a[2] is Str && cwire::said_change(
            (a[0]->Str_0, a[1]->Str_0, a[2]->Str_0),
        ) == Ok::<(bool, i64, i64), CodecError>(x),
        v matches JsonValue::Arr(a) ==> (a.len() == 3 && a[0] is Str && a[1] is Str && a[2] is Str
            && cwire::said_change((a[0]->Str_0, a[1]->Str_0, a[2]->Str_0)) is Ok
            ==> cslow::change_value(v) is Ok),
        cslow::level_value(v) matches Ok(x) ==> v matches JsonValue::Arr(a) && a.len() == 2
            && a[0] is Str && a[1] is Str && codec::fixed_pair_spec(
            encode_utf8(a[0]->Str_0),
            encode_utf8(a[1]->Str_0),
        ) == Ok::<(i64, i64), CodecError>(x),
        v matches JsonValue::Arr(a) ==> (a.len() == 2 && a[0] is Str && a[1] is Str
            && codec::fixed_pair_spec(
            encode_utf8(a[0]->Str_0),
            encode_utf8(a[1]->Str_0),
        ) is Ok ==> cslow::level_value(v) is Ok),
{
}

/// A Kraken book entry says its symbol, its checksum and all the levels of
/// both sides; an update says its time too, and has to have one.
pub proof fn lemma_kraken_entry_says(
    f: EntryText,
    table: Seq<(Seq<u8>, u32)>,
    snapshot: bool,
)
    ensures
        f.said(table, snapshot) matches Ok(e) ==> {
            &&& codec::lookup_in(table, encode_utf8(f.symbol)) == Some(e.instrument)
            &&& e.checksum == f.checksum
            &&& snapshot ==> e.ts == 0
            &&& !snapshot ==> f.timestamp is Some && scan::rfc3339_spec(
                encode_utf8(f.timestamp->0),
            ) == Some(e.ts)
            &&& levels::said_levels(f.bids, 0, Seq::empty()) == Ok::<
                Seq<(i64, i64)>,
                CodecError,
            >(e.bids)
            &&& levels::said_levels(f.asks, 0, Seq::empty()) == Ok::<
                Seq<(i64, i64)>,
                CodecError,
            >(e.asks)
            &&& e.bids.len() == f.bids.len()
            &&& e.asks.len() == f.asks.len()
        },
{
    lemma_levels(f.bids, 0, Seq::empty());
    if let Ok(x) = levels::said_levels(f.bids, 0, Seq::empty()) {
        lemma_read_whole(
            f.bids,
            |x: LevelText| codec::fixed_pair_spec(encode_utf8(x.0), encode_utf8(x.1)),
            x,
        );
    }
    lemma_levels(f.asks, 0, Seq::empty());
    if let Ok(x) = levels::said_levels(f.asks, 0, Seq::empty()) {
        lemma_read_whole(
            f.asks,
            |x: LevelText| codec::fixed_pair_spec(encode_utf8(x.0), encode_utf8(x.1)),
            x,
        );
    }
}

/// A Kraken trade says its symbol, its id, its price, its quantity and its
/// time, and that the taker sold where its side is `sell`.
pub proof fn lemma_kraken_trade_says(f: TradeText, table: Seq<(Seq<u8>, u32)>)
    ensures
        f.said(table) matches Ok(e) ==> {
            &&& codec::lookup_in(table, encode_utf8(f.symbol)) == Some(e.instrument)
            &&& e.id == f.id
            &&& (f.side == "buy"@ || f.side == "sell"@)
            &&& e.taker_sell == (f.side == "sell"@)
            &&& fixed::parse_fixed_spec(encode_utf8(f.price)) == Ok::<
                i64,
                fixed::ParseFixedError,
            >(e.price)
            &&& fixed::parse_fixed_spec(encode_utf8(f.qty)) == Ok::<i64, fixed::ParseFixedError>(
                e.qty,
            )
            &&& scan::rfc3339_spec(encode_utf8(f.timestamp)) == Some(e.ts)
        },
        codec::lookup_in(table, encode_utf8(f.symbol)) is Some && (f.side == "buy"@ || f.side
            == "sell"@) && fixed::parse_fixed_spec(encode_utf8(f.price)) is Ok
            && fixed::parse_fixed_spec(encode_utf8(f.qty)) is Ok && scan::rfc3339_spec(
            encode_utf8(f.timestamp),
        ) is Some ==> f.said(table) is Ok,
{
    reveal_strlit("buy");
    reveal_strlit("sell");
    assert("buy"@.len() == 3);
    assert("sell"@.len() == 4);
}

/// A Kraken book frame says all of its entries, and whether it is a snapshot.
pub proof fn lemma_kraken_book_says(f: BookText, table: Seq<(Seq<u8>, u32)>)
    ensures
        f.said(table) matches Ok(x) ==> x matches Frame::Book(snapshot, es) && snapshot
            == f.snapshot && each(
            f.entries,
            0,
            |e: EntryText| e.said(table, f.snapshot),
            Seq::empty(),
        ) == Ok::<Seq<BookEntry>, CodecError>(es) && es.len() == f.entries.len(),
{
    lemma_entries(f.entries, 0, table, f.snapshot, Seq::empty());
    if let Ok(es) = kwire::said_entries(f.entries, 0, table, f.snapshot, Seq::empty()) {
        lemma_read_whole(f.entries, |e: EntryText| e.said(table, f.snapshot), es);
    }
}

/// A Kraken trade frame says all of its trades, and whether it is a snapshot.
pub proof fn lemma_kraken_trades_say(t: TradesText, table: Seq<(Seq<u8>, u32)>)
    ensures
        t.said(table) matches Ok(x) ==> x matches Frame::Trade(snapshot, ts) && snapshot
            == t.snapshot && each(t.trades, 0, |e: TradeText| e.said(table), Seq::empty()) == Ok::<
            Seq<TradeEntry>,
            CodecError,
        >(ts) && ts.len() == t.trades.len(),
{
    lemma_trades(t.trades, 0, table, Seq::empty());
    if let Ok(ts) = trade_wire::said_trades(t.trades, 0, table, Seq::empty()) {
        lemma_read_whole(t.trades, |e: TradeText| e.said(table), ts);
    }
}

/// What kind of message a Binance document is, by its event: a diff, a trade,
/// a shutdown, or one that is ignored. An answer to a request is control.
pub proof fn lemma_binance_kinds(e: Seq<char>, v: JsonValue, table: Seq<(Seq<u8>, u32)>)
    ensures
        bslow::data_msg(e, v, table) matches Ok(m) ==> {
            &&& m is Diff ==> e == "depthUpdate"@
            &&& m is Trade ==> e == "trade"@
            &&& m is Shutdown ==> e == "serverShutdown"@
            &&& m is Ignored ==> e != "depthUpdate"@ && e != "trade"@ && e != "serverShutdown"@
            &&& !(m is Control)
        },
        e == "serverShutdown"@ ==> bslow::data_msg(e, v, table) is Ok,
        e != "depthUpdate"@ && e != "trade"@ && e != "serverShutdown"@ ==> bslow::data_msg(
            e,
            v,
            table,
        ) is Ok,
        bslow::doc_msg(v, table) matches Ok(m) ==> (m is Control <==> json::member(
            v,
            "result"@,
        ) is Some),
{
    reveal_strlit("depthUpdate");
    reveal_strlit("trade");
    reveal_strlit("serverShutdown");
    assert("depthUpdate"@.len() == 11);
    assert("trade"@.len() == 5);
    assert("serverShutdown"@.len() == 14);
}

/// What kind of message a Coinbase document is, by its type: only matches are
/// checked for gaps, subscriptions and errors are control, and what is of no
/// known type is ignored.
pub proof fn lemma_coinbase_kinds(v: JsonValue, table: Seq<(Seq<u8>, u32)>)
    ensures
        json::str_member(v, "type"@) is None ==> cslow::doc_msg(v, table) is Err,
        json::str_member(v, "type"@) matches Some(ty) ==> (cslow::doc_msg(
            v,
            table,
        ) matches Ok(m) ==> {
            &&& m is L2Update ==> ty == "l2update"@
            &&& m is Heartbeat ==> ty == "heartbeat"@
            &&& m is Snapshot ==> ty == "snapshot"@
            &&& m is Control <==> ty == "subscriptions"@ || ty == "error"@
            &&& m matches cmsg::Msg::Match(x) ==> (x.gap_check ==> ty == "match"@) && (
            !x.gap_check ==> ty == "last_match"@)
        }),
{
    reveal_strlit("l2update");
    reveal_strlit("match");
    reveal_strlit("last_match");
    reveal_strlit("heartbeat");
    reveal_strlit("snapshot");
    reveal_strlit("subscriptions");
    reveal_strlit("error");
    let m = "match"@;
    let e = "error"@;
    assert(m[0] == 'm' && e[0] == 'e');
    assert("l2update"@[0] == 'l' && "snapshot"@[0] == 's');
    assert("l2update"@.len() == 8 && "snapshot"@.len() == 8);
    assert("last_match"@.len() == 10 && "heartbeat"@.len() == 9 && "subscriptions"@.len() == 13);
    assert(m.len() == 5 && e.len() == 5);
}

/// Where a Kraken document goes: an answer to a request and a status are
/// control, the channels of heartbeats, books and trades go to their own, and
/// any other channel is ignored.
pub proof fn lemma_kraken_routes(v: JsonValue)
    ensures
        kslow::route(v) matches Ok(r) ==> {
            &&& r is Heartbeat ==> kslow::opt_str(json::field(v, "channel"@, 0)) == Some(
                Some("heartbeat"@),
            )
            &&& r is Book ==> kslow::opt_str(json::field(v, "channel"@, 0)) == Some(Some("book"@))
            &&& r is Trade ==> kslow::opt_str(json::field(v, "channel"@, 0)) == Some(
                Some("trade"@),
            )
            &&& r matches kslow::Route::Book { snapshot } ==> kslow::opt_str(
                json::field(v, "type"@, 2),
            ) == Some(Some(kwire::kind_name(snapshot)))
            &&& r matches kslow::Route::Trade { snapshot } ==> kslow::opt_str(
                json::field(v, "type"@, 2),
            ) == Some(Some(kwire::kind_name(snapshot)))
            &&& kslow::opt_str(json::field(v, "method"@, 1)) matches Some(Some(_)) ==> r is Control
        },
        kslow::opt_str(json::field(v, "method"@, 1)) == Some(None::<Seq<char>>) && kslow::opt_str(
            json::field(v, "channel"@, 0),
        ) == Some(None::<Seq<char>>) ==> kslow::route(v) is Err,
{
}

/// What the members of a JSON document are read as: a string as a string, a
/// number as the integer that it is, an array as its items, and anything
/// else as none of them.
pub proof fn lemma_json_values(
    v: JsonValue,
    s: Seq<char>,
    u: Option<u64>,
    i: Option<i64>,
    b: bool,
    a: Seq<JsonValue>,
    n: u64,
)
    ensures
        json::str_of(v) is Some <==> v is Str,
        json::str_of(JsonValue::Str(s)) == Some(s),
        json::u64_of(JsonValue::Num(u, i)) == u,
        json::i64_of(JsonValue::Num(u, i)) == i,
        json::u64_of(v) is Some ==> v is Num,
        json::i64_of(v) is Some ==> v is Num,
        json::bool_of(JsonValue::Bool(b)) == Some(b),
        json::bool_of(v) is Some <==> v is Bool,
        json::arr_of(JsonValue::Arr(a)) == Some(a),
        json::arr_of(v) is Some <==> v is Arr,
        json::u64_of(json::number(n)) == Some(n),
        json::i64_of(json::number(n)) == (if n <= 0x7fff_ffff_ffff_ffff {
            Some(n as i64)
        } else {
            None
        }),
{
}

} // verus!
