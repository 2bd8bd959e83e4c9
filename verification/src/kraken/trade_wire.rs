//! What Kraken writes of trades, and that both paths read it alike.
use super::frame;
use super::frame::{Frame, TradeEntry};
use super::slow;
use super::wire as kwire;
use crate::codec;
use crate::codec::CodecError;
use crate::json;
use crate::json::JsonValue;
use crate::object;
use crate::scan;
use crate::text;
use crate::wire;
use vstd::prelude::*;
use vstd::utf8::*;

verus! {

/// The mark of a side.
proof fn lemma_lit_side()
    ensures
        kwire::starts(",\"side\":", 0x2c),
{
    reveal_strlit(",\"side\":");
    is_ascii_chars_encode_utf8(",\"side\":"@);
}

/// The mark of a price.
proof fn lemma_lit_price()
    ensures
        kwire::starts(",\"price\":", 0x2c),
{
    reveal_strlit(",\"price\":");
    is_ascii_chars_encode_utf8(",\"price\":"@);
}

/// The mark of an order type.
proof fn lemma_lit_order()
    ensures
        kwire::starts(",\"ord_type\":", 0x2c),
{
    reveal_strlit(",\"ord_type\":");
    is_ascii_chars_encode_utf8(",\"ord_type\":"@);
}

/// The mark of a trade id.
proof fn lemma_lit_id()
    ensures
        kwire::starts(",\"trade_id\":", 0x2c),
{
    reveal_strlit(",\"trade_id\":");
    is_ascii_chars_encode_utf8(",\"trade_id\":"@);
}

/// What a trade says. Texts are as the venue writes them: without quotes and
/// backslashes.
pub struct TradeText {
    pub symbol: Seq<char>,
    pub side: Seq<char>,
    pub price: Seq<char>,
    pub qty: Seq<char>,
    pub ord_type: Seq<char>,
    pub id: u64,
    pub timestamp: Seq<char>,
}

impl TradeText {
    /// The texts need no escapes, and the numbers are numbers.
    pub open spec fn writable(self) -> bool {
        &&& wire::plain(encode_utf8(self.symbol))
        &&& wire::plain(encode_utf8(self.side))
        &&& kwire::numeric(self.price)
        &&& kwire::numeric(self.qty)
        &&& wire::plain(encode_utf8(self.ord_type))
        &&& wire::plain(encode_utf8(self.timestamp))
    }

    /// The pieces of the trade as it is written.
    pub open spec fn parts(self) -> Seq<Seq<u8>> {
        seq![
            codec::lit("{\"symbol\":"),
            object::quoted(encode_utf8(self.symbol)),
            codec::lit(",\"side\":"),
            object::quoted(encode_utf8(self.side)),
            codec::lit(",\"price\":"),
            encode_utf8(self.price),
            codec::lit(",\"qty\":"),
            encode_utf8(self.qty),
            codec::lit(",\"ord_type\":"),
            object::quoted(encode_utf8(self.ord_type)),
            codec::lit(",\"trade_id\":"),
            text::dec_bytes(self.id as nat),
            codec::lit(",\"timestamp\":"),
            object::quoted(encode_utf8(self.timestamp)),
            codec::lit("}"),
        ]
    }

    /// The trade as it is written.
    pub open spec fn frame(self) -> Seq<u8> {
        wire::joined(self.parts())
    }

    /// What the side says: whether the taker sold.
    pub open spec fn said_side(self) -> Result<bool, CodecError> {
        if self.side == "sell"@ {
            Ok(true)
        } else if self.side == "buy"@ {
            Ok(false)
        } else {
            Err(CodecError::Structure("trade side value"))
        }
    }

    /// What the trade says of the instruments of `table`.
    pub open spec fn said(self, table: Seq<(Seq<u8>, u32)>) -> Result<TradeEntry, CodecError> {
        match codec::lookup_in(table, encode_utf8(self.symbol)) {
            None => Err(CodecError::UnknownInstrument),
            Some(instrument) => match self.said_side() {
                Err(e) => Err(e),
                Ok(taker_sell) => match scan::rfc3339_spec(encode_utf8(self.timestamp)) {
                    None => Err(CodecError::Structure("bad timestamp")),
                    Some(ts) => match codec::fixed_pair_spec(
                        encode_utf8(self.price),
                        encode_utf8(self.qty),
                    ) {
                        Err(e) => Err(e),
                        Ok((price, qty)) => Ok(
                            TradeEntry { instrument, taker_sell, price, qty, id: self.id, ts },
                        ),
                    },
                },
            },
        }
    }

    /// The document `v` is that of the trade, with its numbers as text, in
    /// whatever order its members stand.
    pub open spec fn is_doc(self, v: JsonValue) -> bool {
        &&& json::str_member(v, "symbol"@) == Some(self.symbol)
        &&& json::str_member(v, "side"@) == Some(self.side)
        &&& json::str_member(v, "price"@) == Some(self.price)
        &&& json::str_member(v, "qty"@) == Some(self.qty)
        &&& json::u64_member(v, "trade_id"@) == Some(self.id)
        &&& json::str_member(v, "timestamp"@) == Some(self.timestamp)
    }
}

/// The pieces of a trade stand one behind the other.
proof fn lemma_pieces(b: Seq<u8>, i: int, t: TradeText, k: int)
    requires
        scan::occurs_at(b, t.frame(), i),
        0 <= k < t.parts().len(),
    ensures
        scan::occurs_at(b, t.parts()[k], i + wire::part_start(t.parts(), k)),
        wire::part_start(t.parts(), k + 1) == wire::part_start(t.parts(), k) + t.parts()[k].len(),
        k == 0 ==> wire::part_start(t.parts(), k) == 0,
        k == t.parts().len() - 1 ==> wire::part_start(t.parts(), k + 1) == t.frame().len(),
{
    wire::lemma_joined(t.parts(), k);
    wire::lemma_occurs_in(b, t.frame(), i, t.parts()[k], wire::part_start(t.parts(), k));
}

/// The side of a trade is read as what it says.
proof fn lemma_side_read(b: Seq<u8>, i: int, t: TradeText)
    requires
        scan::occurs_at(b, t.frame(), i),
        t.writable(),
    ensures
        frame::side_at(b, i + wire::part_start(t.parts(), 2)) == (match t.said_side() {
            Err(e) => Err::<(bool, int), CodecError>(e),
            Ok(s) => Ok((s, i + wire::part_start(t.parts(), 4))),
        }),
{
    let s = encode_utf8(t.side);
    lemma_pieces(b, i, t, 2);
    lemma_pieces(b, i, t, 3);
    object::lemma_quoted_read(b, i + wire::part_start(t.parts(), 3), s);
    if s == codec::lit("sell") {
        json::lemma_utf8_injective(t.side, "sell"@);
    }
    if s == codec::lit("buy") {
        json::lemma_utf8_injective(t.side, "buy"@);
    }
}

/// The price and the quantity of a trade are read as they stand.
proof fn lemma_price_qty_read(b: Seq<u8>, i: int, t: TradeText)
    requires
        scan::occurs_at(b, t.frame(), i),
        t.writable(),
    ensures
        frame::price_qty_at(b, i + wire::part_start(t.parts(), 4)) == Ok::<
            (Seq<u8>, Seq<u8>, int),
            CodecError,
        >((encode_utf8(t.price), encode_utf8(t.qty), i + wire::part_start(t.parts(), 8))),
{
    let ps = t.parts();
    lemma_pieces(b, i, t, 4);
    lemma_pieces(b, i, t, 5);
    lemma_pieces(b, i, t, 6);
    lemma_pieces(b, i, t, 7);
    lemma_pieces(b, i, t, 8);
    kwire::lemma_lit_qty();
    lemma_lit_order();
    kwire::lemma_starts(b, i + wire::part_start(ps, 6), ",\"qty\":", 0x2c);
    kwire::lemma_starts(b, i + wire::part_start(ps, 8), ",\"ord_type\":", 0x2c);
    wire::lemma_num_at_is(b, i + wire::part_start(ps, 5), encode_utf8(t.price));
    wire::lemma_num_at_is(b, i + wire::part_start(ps, 7), encode_utf8(t.qty));
}

/// The id and the timestamp of a trade are read as they stand.
proof fn lemma_id_ts_read(b: Seq<u8>, i: int, t: TradeText)
    requires
        scan::occurs_at(b, t.frame(), i),
        t.writable(),
    ensures
        frame::id_ts_at(b, i + wire::part_start(t.parts(), 8)) == (match scan::rfc3339_spec(
            encode_utf8(t.timestamp),
        ) {
            None => Err::<(u64, u64, int), CodecError>(CodecError::Structure("bad timestamp")),
            Some(ts) => Ok((t.id, ts, i + t.frame().len())),
        }),
{
    let ps = t.parts();
    lemma_pieces(b, i, t, 8);
    lemma_pieces(b, i, t, 9);
    lemma_pieces(b, i, t, 10);
    lemma_pieces(b, i, t, 11);
    lemma_pieces(b, i, t, 12);
    lemma_pieces(b, i, t, 13);
    lemma_pieces(b, i, t, 14);
    kwire::lemma_lit_timestamp();
    kwire::lemma_starts(b, i + wire::part_start(ps, 12), ",\"timestamp\":", 0x2c);
    object::lemma_quoted_read(b, i + wire::part_start(ps, 9), encode_utf8(t.ord_type));
    wire::lemma_u64_at_is(b, i + wire::part_start(ps, 11), t.id);
    object::lemma_quoted_read(b, i + wire::part_start(ps, 13), encode_utf8(t.timestamp));
    kwire::lemma_close(b, i + wire::part_start(ps, 14));
}

/// A trade is read as what it says.
proof fn lemma_trade_read(b: Seq<u8>, i: int, t: TradeText, table: Seq<(Seq<u8>, u32)>)
    requires
        t.writable(),
        scan::occurs_at(b, t.frame(), i),
    ensures
        0 <= i < b.len(),
        b[i] == 0x7b,
        frame::trade_at(b, i, table) == (match t.said(table) {
            Err(e) => Err::<(TradeEntry, int), CodecError>(e),
            Ok(x) => Ok((x, i + t.frame().len())),
        }),
{
    lemma_pieces(b, i, t, 0);
    lemma_pieces(b, i, t, 1);
    kwire::lemma_symbol_mark(b, i);
    object::lemma_quoted_read(
        b,
        i + wire::part_start(t.parts(), 1),
        encode_utf8(t.symbol),
    );
    lemma_side_read(b, i, t);
    lemma_price_qty_read(b, i, t);
    lemma_id_ts_read(b, i, t);
    reveal(frame::trade_at);
}

/// The trades as they are written.
pub open spec fn trade_frames(ts: Seq<TradeText>) -> Seq<Seq<u8>> {
    Seq::new(ts.len(), |i: int| ts[i].frame())
}

/// The texts of the trades need no escapes, and their numbers are numbers.
pub open spec fn trades_writable(ts: Seq<TradeText>) -> bool {
    forall|i: int| 0 <= i < ts.len() ==> (#[trigger] ts[i]).writable()
}

/// What the trades from `k` on say, behind `acc`.
pub open spec fn said_trades(
    ts: Seq<TradeText>,
    k: int,
    table: Seq<(Seq<u8>, u32)>,
    acc: Seq<TradeEntry>,
) -> Result<Seq<TradeEntry>, CodecError>
    decreases ts.len() - k,
{
    if !(0 <= k < ts.len()) {
        Ok(acc)
    } else {
        match ts[k].said(table) {
            Err(e) => Err(e),
            Ok(x) => said_trades(ts, k + 1, table, acc.push(x)),
        }
    }
}

/// The trades from `k` on are read as what they say, from the byte behind the
/// trade `k - 1` on.
proof fn lemma_trades_from(
    b: Seq<u8>,
    i: int,
    ts: Seq<TradeText>,
    k: int,
    table: Seq<(Seq<u8>, u32)>,
    acc: Seq<TradeEntry>,
)
    requires
        trades_writable(ts),
        0 < k <= ts.len(),
        acc.len() > 0,
        0 <= i < b.len(),
        k < ts.len() ==> b[i] == 0x2c && scan::occurs_at(
            b,
            wire::list_from(trade_frames(ts), k),
            i + 1,
        ),
        k == ts.len() ==> b[i] == 0x5d,
    ensures
        frame::trades_at(b, i, table, acc) == said_trades(ts, k, table, acc),
    decreases ts.len() - k,
{
    let items = trade_frames(ts);
    if k < ts.len() {
        wire::lemma_list_item(b, i + 1, items, k);
        lemma_trade_read(b, i + 1, ts[k], table);
        match ts[k].said(table) {
            Err(_) => {},
            Ok(x) => {
                lemma_trades_from(b, i + 1 + items[k].len(), ts, k + 1, table, acc.push(x));
            },
        }
    }
}

/// The trades are read as what they say.
proof fn lemma_trades_read(b: Seq<u8>, i: int, ts: Seq<TradeText>, table: Seq<(Seq<u8>, u32)>)
    requires
        trades_writable(ts),
        scan::occurs_at(b, wire::list_from(trade_frames(ts), 0), i),
    ensures
        frame::trades_at(b, i, table, Seq::empty()) == said_trades(ts, 0, table, Seq::empty()),
{
    let items = trade_frames(ts);
    let none = Seq::<TradeEntry>::empty();
    if ts.len() > 0 {
        wire::lemma_list_item(b, i, items, 0);
        lemma_trade_read(b, i, ts[0], table);
        match ts[0].said(table) {
            Err(_) => {},
            Ok(x) => {
                lemma_trades_from(b, i + items[0].len(), ts, 1, table, none.push(x));
            },
        }
    } else {
        wire::lemma_list_empty(b, i, items);
    }
}

/// What a trade frame says.
pub struct TradesText {
    pub snapshot: bool,
    pub trades: Seq<TradeText>,
}

impl TradesText {
    /// The texts need no escapes, and the numbers are numbers.
    pub open spec fn writable(self) -> bool {
        trades_writable(self.trades)
    }

    /// The pieces of the frame.
    pub open spec fn parts(self) -> Seq<Seq<u8>> {
        seq![
            codec::lit("{\"channel\":\"trade\",\"type\":"),
            object::quoted(encode_utf8(kwire::kind_name(self.snapshot))),
            codec::lit(",\"data\":"),
            codec::lit("["),
            wire::list_from(trade_frames(self.trades), 0),
            codec::lit("}"),
        ]
    }

    /// The frame.
    pub open spec fn frame(self) -> Seq<u8> {
        wire::joined(self.parts())
    }

    /// What the frame says of the instruments of `table`.
    pub open spec fn said(self, table: Seq<(Seq<u8>, u32)>) -> Result<Frame, CodecError> {
        match said_trades(self.trades, 0, table, Seq::empty()) {
            Err(e) => Err(e),
            Ok(ts) => Ok(Frame::Trade(self.snapshot, ts)),
        }
    }

    /// The documents `v` of the frame and `q` of the frame with its numbers
    /// as text are as the frame says, in whatever order their members stand.
    pub open spec fn is_doc(self, v: JsonValue, q: JsonValue) -> bool {
        &&& kwire::is_header(v, "trade"@, self.snapshot)
        &&& json::arr_member(q, "data"@) matches Some(a) && a.len() == self.trades.len()
            && forall|i: int|
            0 <= i < a.len() ==> self.trades[i].is_doc(#[trigger] a[i])
    }
}

/// The channel and the key of the type that start a frame.
proof fn lemma_trade_channel(b: Seq<u8>)
    requires
        scan::occurs_at(b, codec::lit("{\"channel\":\"trade\",\"type\":"), 0),
    ensures
        scan::ws_end(b, 0) == 0,
        scan::occurs_at(b, codec::lit("{\"channel\":\"trade\""), 0),
        !scan::occurs_at(b, codec::lit("{\"channel\":\"book\""), 0),
        text::all_ascii(codec::lit("{\"channel\":\"trade\",\"type\":")),
        scan::past(b, 0, codec::lit("\"type\":")) == Some(
            codec::lit("{\"channel\":\"trade\",\"type\":").len() as int,
        ),
{
    reveal_strlit("{\"channel\":\"trade\",\"type\":");
    reveal_strlit("{\"channel\":\"trade\"");
    reveal_strlit("{\"channel\":\"book\"");
    reveal_strlit("\"type\":");
    is_ascii_chars_encode_utf8("{\"channel\":\"trade\",\"type\":"@);
    is_ascii_chars_encode_utf8("{\"channel\":\"trade\""@);
    is_ascii_chars_encode_utf8("{\"channel\":\"book\""@);
    is_ascii_chars_encode_utf8("\"type\":"@);
    let m = codec::lit("{\"channel\":\"trade\",\"type\":");
    let k = codec::lit("\"type\":");
    let c = codec::lit("{\"channel\":\"trade\"");
    let o = codec::lit("{\"channel\":\"book\"");
    assert(m =~= seq![0x7bu8, 0x22, 0x63, 0x68, 0x61, 0x6e, 0x6e, 0x65, 0x6c, 0x22, 0x3a, 0x22, 0x74, 0x72, 0x61, 0x64, 0x65, 0x22, 0x2c, 0x22, 0x74, 0x79, 0x70, 0x65, 0x22, 0x3a]);
    assert(k =~= seq![0x22u8, 0x74, 0x79, 0x70, 0x65, 0x22, 0x3a]);
    assert(m.subrange(0, 18) =~= c);
    assert(m.subrange(19, 26) =~= k);
    wire::lemma_occurs_in(b, m, 0, c, 0);
    wire::lemma_occurs_bytes(b, m, 0);
    assert(b[0] == m[0] && b[12] == m[12]);
    if scan::occurs_at(b, o, 0) {
        wire::lemma_occurs_bytes(b, o, 0);
        assert(b[12] == o[12]);
    }
    wire::lemma_key_in_mark(b, 0, m, k, 0, 19);
}

/// Where the pieces of a trade frame stand.
proof fn lemma_frame_layout(f: TradesText) -> (o: (int, int, int))
    ensures
        scan::occurs_at(f.frame(), codec::lit("{\"channel\":\"trade\",\"type\":"), 0),
        o.0 == codec::lit("{\"channel\":\"trade\",\"type\":").len(),
        scan::occurs_at(
            f.frame(),
            object::quoted(encode_utf8(kwire::kind_name(f.snapshot))),
            o.0,
        ),
        o.1 == o.0 + object::quoted(encode_utf8(kwire::kind_name(f.snapshot))).len(),
        scan::occurs_at(f.frame(), codec::lit(",\"data\":"), o.1),
        o.2 == o.1 + codec::lit(",\"data\":").len(),
        scan::occurs_at(f.frame(), codec::lit("["), o.2),
        scan::occurs_at(f.frame(), wire::list_from(trade_frames(f.trades), 0), o.2 + 1),
{
    let ps = f.parts();
    wire::lemma_joined(ps, 0);
    wire::lemma_joined(ps, 1);
    wire::lemma_joined(ps, 2);
    wire::lemma_joined(ps, 3);
    wire::lemma_joined(ps, 4);
    assert(wire::part_start(ps, 0) == 0);
    assert(codec::lit("[").len() == 1) by {
        reveal_strlit("[");
        is_ascii_chars_encode_utf8("["@);
    }
    (wire::part_start(ps, 1), wire::part_start(ps, 2), wire::part_start(ps, 3))
}

/// A trade frame is read as what it says.
proof fn lemma_frame_read(f: TradesText, table: Seq<(Seq<u8>, u32)>)
    requires
        f.writable(),
    ensures
        frame::fast_frame(f.frame(), table) == f.said(table),
{
    let b = f.frame();
    let o = lemma_frame_layout(f);
    lemma_trade_channel(b);
    kwire::lemma_kind_names(f.snapshot);
    object::lemma_quoted_read(b, o.0, encode_utf8(kwire::kind_name(f.snapshot)));
    kwire::lemma_mark_data(b, o.1);
    kwire::lemma_lit_list();
    kwire::lemma_starts(b, o.2, "[", 0x5b);
    lemma_trades_read(b, o.2 + 1, f.trades, table);
}

/// The document of a trade says what it says.
proof fn lemma_trade_doc(v: JsonValue, t: TradeText, table: Seq<(Seq<u8>, u32)>)
    requires
        t.is_doc(v),
    ensures
        slow::raw_trade_ok(v),
        slow::trade_entry(v, table) == t.said(table),
{
    reveal_strlit("sell");
    reveal_strlit("buy");
    assert("sell"@.len() != "buy"@.len());
}

/// The documents of the trades say what they say.
proof fn lemma_trades_doc(
    a: Seq<JsonValue>,
    ts: Seq<TradeText>,
    k: int,
    table: Seq<(Seq<u8>, u32)>,
    acc: Seq<TradeEntry>,
)
    requires
        a.len() == ts.len(),
        forall|i: int| 0 <= i < a.len() ==> ts[i].is_doc(#[trigger] a[i]),
        0 <= k <= ts.len(),
    ensures
        slow::trade_entries(a, k, table, acc) == said_trades(ts, k, table, acc),
    decreases ts.len() - k,
{
    if k < ts.len() {
        lemma_trade_doc(a[k], ts[k], table);
        match ts[k].said(table) {
            Err(_) => {},
            Ok(x) => {
                lemma_trades_doc(a, ts, k + 1, table, acc.push(x));
            },
        }
    }
}

/// The documents of a trade frame say what the frame says.
proof fn lemma_frame_doc(
    f: TradesText,
    v: JsonValue,
    q: JsonValue,
    table: Seq<(Seq<u8>, u32)>,
)
    requires
        f.is_doc(v, q),
    ensures
        slow::route(v) == Ok::<slow::Route, CodecError>(
            slow::Route::Trade { snapshot: f.snapshot },
        ),
        slow::trade_frame(q, table, f.snapshot) == f.said(table),
{
    let a = json::arr_member(q, "data"@)->Some_0;
    kwire::lemma_kind_names(f.snapshot);
    kwire::lemma_channels();
    assert forall|i: int| 0 <= i < a.len() implies #[trigger] slow::raw_trade_ok(a[i]) by {
        lemma_trade_doc(a[i], f.trades[i], table);
    }
    lemma_trades_doc(a, f.trades, 0, table, Seq::empty());
}

/// A trade is text.
proof fn lemma_trade_valid(t: TradeText)
    ensures
        valid_utf8(t.frame()),
{
    kwire::lemma_lit_symbol();
    lemma_lit_side();
    lemma_lit_price();
    kwire::lemma_lit_qty();
    lemma_lit_order();
    lemma_lit_id();
    kwire::lemma_lit_timestamp();
    kwire::lemma_lit_close();
    wire::lemma_ascii_valid(codec::lit("{\"symbol\":"));
    wire::lemma_ascii_valid(codec::lit(",\"side\":"));
    wire::lemma_ascii_valid(codec::lit(",\"price\":"));
    wire::lemma_ascii_valid(codec::lit(",\"qty\":"));
    wire::lemma_ascii_valid(codec::lit(",\"ord_type\":"));
    wire::lemma_ascii_valid(codec::lit(",\"trade_id\":"));
    wire::lemma_ascii_valid(codec::lit(",\"timestamp\":"));
    wire::lemma_ascii_valid(codec::lit("}"));
    kwire::lemma_quoted_valid(t.symbol);
    kwire::lemma_quoted_valid(t.side);
    encode_utf8_valid_utf8(t.price);
    encode_utf8_valid_utf8(t.qty);
    kwire::lemma_quoted_valid(t.ord_type);
    text::lemma_dec_bytes(t.id as nat);
    wire::lemma_ascii_valid(text::dec_bytes(t.id as nat));
    kwire::lemma_quoted_valid(t.timestamp);
    wire::lemma_joined_valid(t.parts());
}

/// A trade frame is text.
proof fn lemma_frame_valid(f: TradesText)
    ensures
        valid_utf8(f.frame()),
{
    let ts = f.trades;
    assert forall|i: int| 0 <= i < ts.len() implies valid_utf8(#[trigger] trade_frames(ts)[i]) by {
        lemma_trade_valid(ts[i]);
    }
    wire::lemma_list_valid(trade_frames(ts), 0);
    wire::lemma_joined(f.parts(), 0);
    assert(wire::part_start(f.parts(), 0) == 0);
    lemma_trade_channel(f.frame());
    kwire::lemma_lit_data();
    kwire::lemma_lit_list();
    kwire::lemma_lit_close();
    kwire::lemma_quoted_valid(kwire::kind_name(f.snapshot));
    wire::lemma_ascii_valid(codec::lit("{\"channel\":\"trade\",\"type\":"));
    wire::lemma_ascii_valid(codec::lit(",\"data\":"));
    wire::lemma_ascii_valid(codec::lit("["));
    wire::lemma_ascii_valid(codec::lit("}"));
    wire::lemma_joined_valid(f.parts());
}

/// Both paths read every trade frame alike, and as what it says. (The slow
/// path reads the documents `v` and `q` that the JSON parser makes of the
/// frame, and of the frame with its numbers as text.)
pub proof fn lemma_trades_paths_agree(
    f: TradesText,
    v: JsonValue,
    q: JsonValue,
    table: Seq<(Seq<u8>, u32)>,
)
    requires
        f.writable(),
    ensures
        frame::fast_frame(f.frame(), table) == f.said(table),
        json::json_of(f.frame()) == Ok::<JsonValue, Seq<char>>(v) && json::json_of(
            slow::quoted(f.frame()),
        ) == Ok::<JsonValue, Seq<char>>(q) && f.is_doc(v, q) ==> slow::slow_frame(f.frame(), table)
            == frame::fast_frame(f.frame(), table),
{
    lemma_frame_read(f, table);
    lemma_frame_valid(f);
    if f.is_doc(v, q) {
        lemma_frame_doc(f, v, q, table);
    }
}

} // verus!
