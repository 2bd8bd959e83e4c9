//! What Binance writes, and that both paths read it alike.
use super::fast;
use super::msg;
use super::msg::{Msg, TradeMsg};
use super::slow;
use crate::codec;
use crate::codec::CodecError;
use crate::json;
use crate::json::JsonValue;
use crate::scan;
use crate::text;
use crate::wire;
use vstd::prelude::*;
use vstd::utf8::*;

verus! {

/// What a trade frame says. Texts are as the venue writes them: without
/// quotes and backslashes.
pub struct TradeText {
    pub stream: Seq<char>,
    pub event_ms: u64,
    pub symbol: Seq<char>,
    pub id: u64,
    pub price: Seq<char>,
    pub qty: Seq<char>,
    pub trade_ms: u64,
    pub buyer_made: bool,
    pub best: bool,
}

/// A truth value as JSON writes it.
pub open spec fn truth(b: bool) -> Seq<u8> {
    if b {
        codec::lit("true")
    } else {
        codec::lit("false")
    }
}

/// The document `v` is that of a frame of `stream` with the event `name`.
pub open spec fn is_envelope(v: JsonValue, stream: Seq<char>, name: Seq<char>) -> bool {
    &&& v is Obj
    &&& json::member(v, "result"@) is None
    &&& json::member(v, "stream"@) == Some(JsonValue::Str(stream))
    &&& json::member(v, "data"@) matches Some(d) && d is Obj && json::member(d, "e"@) == Some(
        JsonValue::Str(name),
    )
}

impl TradeText {
    /// The texts need no escapes.
    pub open spec fn writable(self) -> bool {
        &&& wire::plain(encode_utf8(self.stream))
        &&& wire::plain(encode_utf8(self.symbol))
        &&& wire::plain(encode_utf8(self.price))
        &&& wire::plain(encode_utf8(self.qty))
    }

    /// The parts of the frame.
    pub open spec fn parts(self) -> Seq<Seq<u8>> {
        seq![
            codec::lit("{\"stream\":\""),
            encode_utf8(self.stream),
            codec::lit("\","),
            codec::lit("\"data\":{\"e\":\""),
            codec::lit("trade\",\"E\":"),
            text::dec_bytes(self.event_ms as nat),
            codec::lit(",\"s\":\""),
            encode_utf8(self.symbol),
            codec::lit("\",\"t\":"),
            text::dec_bytes(self.id as nat),
            codec::lit(",\"p\":\""),
            encode_utf8(self.price),
            codec::lit("\",\"q\":\""),
            encode_utf8(self.qty),
            codec::lit("\",\"T\":"),
            text::dec_bytes(self.trade_ms as nat),
            codec::lit(",\"m\":"),
            truth(self.buyer_made),
            codec::lit(",\"M\":"),
            truth(self.best),
            codec::lit("}}"),
        ]
    }

    /// The frame.
    pub open spec fn frame(self) -> Seq<u8> {
        wire::joined(self.parts())
    }

    /// The document `v` is that of the frame, in whatever order its members
    /// stand.
    pub open spec fn is_doc(self, v: JsonValue) -> bool {
        &&& is_envelope(v, self.stream, "trade"@)
        &&& json::member(v, "data"@) matches Some(d) && {
            &&& json::member(d, "E"@) == Some(json::number(self.event_ms))
            &&& json::member(d, "s"@) == Some(JsonValue::Str(self.symbol))
            &&& json::member(d, "t"@) == Some(json::number(self.id))
            &&& json::member(d, "p"@) == Some(JsonValue::Str(self.price))
            &&& json::member(d, "q"@) == Some(JsonValue::Str(self.qty))
            &&& json::member(d, "T"@) == Some(json::number(self.trade_ms))
            &&& json::member(d, "m"@) == Some(JsonValue::Bool(self.buyer_made))
            &&& json::member(d, "M"@) == Some(JsonValue::Bool(self.best))
        }
    }

    /// What the frame says of the instruments of `table`.
    pub open spec fn said(self, table: Seq<(Seq<u8>, u32)>) -> Result<Msg, CodecError> {
        match codec::lookup_in(table, encode_utf8(self.symbol)) {
            None => Err(CodecError::UnknownInstrument),
            Some(instrument) => match codec::fixed_pair_spec(
                encode_utf8(self.price),
                encode_utf8(self.qty),
            ) {
                Err(e) => Err(e),
                Ok((price, qty)) => Ok(
                    Msg::Trade(
                        TradeMsg {
                            instrument,
                            id: self.id,
                            price,
                            qty,
                            ts: msg::ms_to_ns(self.trade_ms),
                            taker_sell: self.buyer_made,
                        },
                    ),
                ),
            },
        }
    }
}

/// The mark of a symbol.
proof fn lemma_mark_symbol(b: Seq<u8>, at: int)
    requires
        scan::occurs_at(b, codec::lit(",\"s\":\""), at),
    ensures
        codec::lit(",\"s\":\"").len() == 6,
        0 <= at,
        at + 6 <= b.len(),
        b[at] == 0x2c,
        b[at + 5] == 0x22,
{
    reveal_strlit(",\"s\":\"");
    is_ascii_chars_encode_utf8(",\"s\":\""@);
    let m = codec::lit(",\"s\":\"");
    assert(m =~= seq![0x2cu8, 0x22, 0x73, 0x22, 0x3a, 0x22]);
    wire::lemma_occurs_bytes(b, m, at);
    assert(b[at] == m[0] && b[at + 5] == m[5]);
}

/// The mark of a trade id.
proof fn lemma_mark_id(b: Seq<u8>, at: int)
    requires
        scan::occurs_at(b, codec::lit("\",\"t\":"), at),
    ensures
        codec::lit("\",\"t\":").len() == 6,
        0 <= at,
        at + 6 <= b.len(),
        b[at] == 0x22,
        b[at + 5] == 0x3a,
        scan::past(b, at + 1, codec::lit("\"t\":")) == Some(at + 6),
{
    reveal_strlit("\",\"t\":");
    reveal_strlit("\"t\":");
    is_ascii_chars_encode_utf8("\",\"t\":"@);
    is_ascii_chars_encode_utf8("\"t\":"@);
    let m = codec::lit("\",\"t\":");
    let k = codec::lit("\"t\":");
    assert(m =~= seq![0x22u8, 0x2c, 0x22, 0x74, 0x22, 0x3a]);
    assert(k =~= seq![0x22u8, 0x74, 0x22, 0x3a]);
    wire::lemma_occurs_bytes(b, m, at);
    assert(b[at] == m[0] && b[at + 5] == m[5]);
    assert(m.subrange(2, 6) =~= k);
    wire::lemma_key_in_mark(b, at, m, k, 1, 2);
}

/// The mark of a price.
proof fn lemma_mark_price(b: Seq<u8>, at: int)
    requires
        scan::occurs_at(b, codec::lit(",\"p\":\""), at),
    ensures
        codec::lit(",\"p\":\"").len() == 6,
        0 <= at,
        at + 6 <= b.len(),
        b[at] == 0x2c,
        b[at + 5] == 0x22,
        scan::past(b, at + 0, codec::lit("\"p\":")) == Some(at + 5),
{
    reveal_strlit(",\"p\":\"");
    reveal_strlit("\"p\":");
    is_ascii_chars_encode_utf8(",\"p\":\""@);
    is_ascii_chars_encode_utf8("\"p\":"@);
    let m = codec::lit(",\"p\":\"");
    let k = codec::lit("\"p\":");
    assert(m =~= seq![0x2cu8, 0x22, 0x70, 0x22, 0x3a, 0x22]);
    assert(k =~= seq![0x22u8, 0x70, 0x22, 0x3a]);
    wire::lemma_occurs_bytes(b, m, at);
    assert(b[at] == m[0] && b[at + 5] == m[5]);
    assert(m.subrange(1, 5) =~= k);
    wire::lemma_key_in_mark(b, at, m, k, 0, 1);
}

/// The mark of a quantity.
proof fn lemma_mark_qty(b: Seq<u8>, at: int)
    requires
        scan::occurs_at(b, codec::lit("\",\"q\":\""), at),
    ensures
        codec::lit("\",\"q\":\"").len() == 7,
        0 <= at,
        at + 7 <= b.len(),
        b[at] == 0x22,
        b[at + 6] == 0x22,
        scan::past(b, at + 1, codec::lit("\"q\":")) == Some(at + 6),
{
    reveal_strlit("\",\"q\":\"");
    reveal_strlit("\"q\":");
    is_ascii_chars_encode_utf8("\",\"q\":\""@);
    is_ascii_chars_encode_utf8("\"q\":"@);
    let m = codec::lit("\",\"q\":\"");
    let k = codec::lit("\"q\":");
    assert(m =~= seq![0x22u8, 0x2c, 0x22, 0x71, 0x22, 0x3a, 0x22]);
    assert(k =~= seq![0x22u8, 0x71, 0x22, 0x3a]);
    wire::lemma_occurs_bytes(b, m, at);
    assert(b[at] == m[0] && b[at + 6] == m[6]);
    assert(m.subrange(2, 6) =~= k);
    wire::lemma_key_in_mark(b, at, m, k, 1, 2);
}

/// The mark of a trade time.
proof fn lemma_mark_time(b: Seq<u8>, at: int)
    requires
        scan::occurs_at(b, codec::lit("\",\"T\":"), at),
    ensures
        codec::lit("\",\"T\":").len() == 6,
        0 <= at,
        at + 6 <= b.len(),
        b[at] == 0x22,
        b[at + 5] == 0x3a,
        scan::past(b, at + 1, codec::lit("\"T\":")) == Some(at + 6),
{
    reveal_strlit("\",\"T\":");
    reveal_strlit("\"T\":");
    is_ascii_chars_encode_utf8("\",\"T\":"@);
    is_ascii_chars_encode_utf8("\"T\":"@);
    let m = codec::lit("\",\"T\":");
    let k = codec::lit("\"T\":");
    assert(m =~= seq![0x22u8, 0x2c, 0x22, 0x54, 0x22, 0x3a]);
    assert(k =~= seq![0x22u8, 0x54, 0x22, 0x3a]);
    wire::lemma_occurs_bytes(b, m, at);
    assert(b[at] == m[0] && b[at + 5] == m[5]);
    assert(m.subrange(2, 6) =~= k);
    wire::lemma_key_in_mark(b, at, m, k, 1, 2);
}

/// The mark of the maker flag.
proof fn lemma_mark_maker(b: Seq<u8>, at: int)
    requires
        scan::occurs_at(b, codec::lit(",\"m\":"), at),
    ensures
        codec::lit(",\"m\":").len() == 5,
        0 <= at,
        at + 5 <= b.len(),
        b[at] == 0x2c,
        b[at + 4] == 0x3a,
        scan::past(b, at + 0, codec::lit("\"m\":")) == Some(at + 5),
{
    reveal_strlit(",\"m\":");
    reveal_strlit("\"m\":");
    is_ascii_chars_encode_utf8(",\"m\":"@);
    is_ascii_chars_encode_utf8("\"m\":"@);
    let m = codec::lit(",\"m\":");
    let k = codec::lit("\"m\":");
    assert(m =~= seq![0x2cu8, 0x22, 0x6d, 0x22, 0x3a]);
    assert(k =~= seq![0x22u8, 0x6d, 0x22, 0x3a]);
    wire::lemma_occurs_bytes(b, m, at);
    assert(b[at] == m[0] && b[at + 4] == m[4]);
    assert(m.subrange(1, 5) =~= k);
    wire::lemma_key_in_mark(b, at, m, k, 0, 1);
}

/// The bytes of the mark that opens a frame.
pub(crate) proof fn lemma_lit_stream()
    ensures
        codec::lit("{\"stream\":\"").len() == 11,
        codec::lit("{\"stream\":\"")[0] == 0x7b,
        codec::lit("{\"stream\":\"")[1] == 0x22,
        codec::lit("{\"stream\":\"")[2] == 0x73,
        codec::lit("{\"stream\":\"")[3] == 0x74,
        codec::lit("{\"stream\":\"")[4] == 0x72,
        codec::lit("{\"stream\":\"")[5] == 0x65,
        codec::lit("{\"stream\":\"")[6] == 0x61,
        codec::lit("{\"stream\":\"")[7] == 0x6d,
        codec::lit("{\"stream\":\"")[8] == 0x22,
        codec::lit("{\"stream\":\"")[9] == 0x3a,
        codec::lit("{\"stream\":\"")[10] == 0x22,
{
    reveal_strlit("{\"stream\":\"");
    is_ascii_chars_encode_utf8("{\"stream\":\""@);
}

/// The bytes of the key of the data object.
pub(crate) proof fn lemma_lit_data()
    ensures
        codec::lit("\"data\":{\"e\":\"").len() == 13,
        codec::lit("\"data\":{\"e\":\"")[0] == 0x22,
        codec::lit("\"data\":{\"e\":\"")[1] == 0x64,
        codec::lit("\"data\":{\"e\":\"")[2] == 0x61,
        codec::lit("\"data\":{\"e\":\"")[3] == 0x74,
        codec::lit("\"data\":{\"e\":\"")[4] == 0x61,
        codec::lit("\"data\":{\"e\":\"")[5] == 0x22,
        codec::lit("\"data\":{\"e\":\"")[6] == 0x3a,
        codec::lit("\"data\":{\"e\":\"")[7] == 0x7b,
        codec::lit("\"data\":{\"e\":\"")[8] == 0x22,
        codec::lit("\"data\":{\"e\":\"")[9] == 0x65,
        codec::lit("\"data\":{\"e\":\"")[10] == 0x22,
        codec::lit("\"data\":{\"e\":\"")[11] == 0x3a,
        codec::lit("\"data\":{\"e\":\"")[12] == 0x22,
{
    reveal_strlit("\"data\":{\"e\":\"");
    is_ascii_chars_encode_utf8("\"data\":{\"e\":\""@);
}

/// The bytes that end the name of a stream.
pub(crate) proof fn lemma_lit_end()
    ensures
        codec::lit("\",").len() == 2,
        codec::lit("\",")[0] == 0x22,
        codec::lit("\",")[1] == 0x2c,
{
    reveal_strlit("\",");
    is_ascii_chars_encode_utf8("\","@);
}

/// The bytes of the mark that opens a trade.
proof fn lemma_lit_trade()
    ensures
        codec::lit("trade\",\"E\":").len() == 11,
        codec::lit("trade\",\"E\":")[0] == 0x74,
        codec::lit("trade\",\"E\":")[1] == 0x72,
        codec::lit("trade\",\"E\":")[2] == 0x61,
        codec::lit("trade\",\"E\":")[3] == 0x64,
        codec::lit("trade\",\"E\":")[4] == 0x65,
        codec::lit("trade\",\"E\":")[5] == 0x22,
        codec::lit("trade\",\"E\":")[6] == 0x2c,
        codec::lit("trade\",\"E\":")[7] == 0x22,
        codec::lit("trade\",\"E\":")[8] == 0x45,
        codec::lit("trade\",\"E\":")[9] == 0x22,
        codec::lit("trade\",\"E\":")[10] == 0x3a,
{
    reveal_strlit("trade\",\"E\":");
    is_ascii_chars_encode_utf8("trade\",\"E\":"@);
}

/// The bytes of the mark of a symbol.
proof fn lemma_lit_symbol()
    ensures
        codec::lit(",\"s\":\"").len() == 6,
        codec::lit(",\"s\":\"")[0] == 0x2c,
        codec::lit(",\"s\":\"")[1] == 0x22,
        codec::lit(",\"s\":\"")[2] == 0x73,
        codec::lit(",\"s\":\"")[3] == 0x22,
        codec::lit(",\"s\":\"")[4] == 0x3a,
        codec::lit(",\"s\":\"")[5] == 0x22,
{
    reveal_strlit(",\"s\":\"");
    is_ascii_chars_encode_utf8(",\"s\":\""@);
}

/// The bytes of the key of a symbol.
proof fn lemma_lit_s()
    ensures
        codec::lit("\"s\":").len() == 4,
        codec::lit("\"s\":")[0] == 0x22,
        codec::lit("\"s\":")[1] == 0x73,
        codec::lit("\"s\":")[2] == 0x22,
        codec::lit("\"s\":")[3] == 0x3a,
{
    reveal_strlit("\"s\":");
    is_ascii_chars_encode_utf8("\"s\":"@);
}

/// A key that starts with a quote, a `d` and three plain bytes in front of a
/// quote and a colon is not found in a frame up to the end of its stream.
proof fn lemma_not_before(b: Seq<u8>, n: Seq<u8>, stream: Seq<u8>, j: int)
    requires
        b.len() >= 13 + stream.len(),
        forall|x: int| 0 <= x < 10 ==> !(#[trigger] b[x] == 0x22 && b[x + 1] == 0x64),
        forall|x: int| 11 <= x < 11 + stream.len() ==> #[trigger] b[x] != 0x22,
        b[stream.len() as int + 11] == 0x22,
        b[stream.len() as int + 12] == 0x2c,
        n.len() >= 7,
        n[0] == 0x22,
        n[1] == 0x64,
        n[2] != 0x22,
        n[3] != 0x22,
        n[4] != 0x22,
        n[5] == 0x22,
        n[6] == 0x3a,
        0 <= j < 13 + stream.len(),
    ensures
        !scan::occurs_at(b, n, j),
{
    if scan::occurs_at(b, n, j) {
        wire::lemma_occurs_bytes(b, n, j);
        let l = stream.len() as int;
        assert(b[j] == n[0]);
        assert(b[j + 1] == n[1]);
        if j == 10 {
            assert(b[12] == n[2]);
            assert(b[13] == n[3]);
            assert(b[14] == n[4]);
            assert(b[15] == n[5]);
            assert(b[16] == n[6]);
        }
    }
}

/// The data object of a frame: its key stands neither in the mark that opens
/// the frame nor in the name of its stream.
proof fn lemma_data_at(b: Seq<u8>, stream: Seq<u8>, at: int)
    requires
        scan::occurs_at(b, codec::lit("{\"stream\":\""), 0),
        scan::occurs_at(b, stream, 11),
        wire::plain(stream),
        at == 13 + stream.len(),
        scan::occurs_at(b, codec::lit("\","), at - 2),
        scan::occurs_at(b, codec::lit("\"data\":{\"e\":\""), at),
    ensures
        scan::past(b, 0, codec::lit("\"data\":{\"e\":\"")) == Some(at + 13),
{
    let n = codec::lit("\"data\":{\"e\":\"");
    let m = codec::lit("{\"stream\":\"");
    let q = codec::lit("\",");
    lemma_lit_stream();
    lemma_lit_data();
    lemma_lit_end();
    wire::lemma_occurs_bytes(b, m, 0);
    wire::lemma_occurs_bytes(b, stream, 11);
    wire::lemma_occurs_bytes(b, q, at - 2);
    let l = stream.len() as int;
    assert(b[11 + l] == q[0] && b[12 + l] == q[1]);
    assert forall|x: int| 0 <= x < 10 implies !(#[trigger] b[x] == 0x22 && b[x + 1] == 0x64) by {
        assert(b[x] == m[x] && b[x + 1] == m[x + 1]);
    }
    assert forall|x: int| 11 <= x < 11 + l implies #[trigger] b[x] != 0x22 by {
        assert(b[x] == stream[x - 11]);
    }
    assert forall|j: int| 0 <= j < at implies !#[trigger] scan::occurs_at(b, n, j) by {
        lemma_not_before(b, n, stream, j);
    }
    wire::lemma_past_is(b, 0, n, at);
}

/// A frame of the combined stream has the envelope of its data.
pub(crate) proof fn lemma_envelope(b: Seq<u8>, stream: Seq<u8>, at: int)
    requires
        scan::occurs_at(b, codec::lit("{\"stream\":\""), 0),
        scan::occurs_at(b, stream, 11),
        wire::plain(stream),
        at == 13 + stream.len(),
        scan::occurs_at(b, codec::lit("\","), at - 2),
        scan::occurs_at(b, codec::lit("\"data\":{\"e\":\""), at),
    ensures
        fast::envelope(b) == Ok::<fast::Envelope, CodecError>(fast::Envelope::Data(at + 13)),
{
    lemma_data_at(b, stream, at);
    let m = codec::lit("{\"stream\":\"");
    let r = codec::lit("{\"result\":");
    reveal_strlit("{\"stream\":\"");
    reveal_strlit("{\"result\":");
    is_ascii_chars_encode_utf8("{\"stream\":\""@);
    is_ascii_chars_encode_utf8("{\"result\":"@);
    assert(codec::lit("{\"stream\":\"") =~= seq![0x7bu8, 0x22, 0x73, 0x74, 0x72, 0x65, 0x61, 0x6d, 0x22, 0x3a, 0x22]);
    assert(codec::lit("{\"result\":") =~= seq![0x7bu8, 0x22, 0x72, 0x65, 0x73, 0x75, 0x6c, 0x74, 0x22, 0x3a]);
    wire::lemma_occurs_bytes(b, m, 0);
    assert(b[0] == m[0] && b[2] == m[2]);
    assert(scan::ws_end(b, 0) == 0);
    if scan::occurs_at(b, r, 0) {
        wire::lemma_occurs_bytes(b, r, 0);
        assert(b[2] == r[2]);
    }
}

/// The symbol of a trade is found behind its event time.
proof fn lemma_trade_symbol(b: Seq<u8>, e: int, d: Seq<u8>)
    requires
        scan::occurs_at(b, codec::lit("trade\",\"E\":"), e),
        scan::occurs_at(b, d, e + 11),
        text::all_digits(d),
        scan::occurs_at(b, codec::lit(",\"s\":\""), e + 11 + d.len()),
    ensures
        scan::past(b, e, codec::lit("\"s\":")) == Some(e + 16 + d.len()),
{
    let m = codec::lit("trade\",\"E\":");
    let s = codec::lit(",\"s\":\"");
    let n = codec::lit("\"s\":");
    lemma_lit_trade();
    lemma_lit_symbol();
    lemma_lit_s();
    let o = e + 11;
    let k = e + 12 + d.len();
    wire::lemma_occurs_bytes(b, m, e);
    wire::lemma_occurs_bytes(b, d, o);
    wire::lemma_occurs_bytes(b, s, k - 1);
    assert(b[k] == s[1] && b[k + 1] == s[2] && b[k + 2] == s[3] && b[k + 3] == s[4]);
    assert(b.subrange(k, k + 4) =~= n);
    assert forall|j: int| e <= j < k implies !#[trigger] scan::occurs_at(b, n, j) by {
        if scan::occurs_at(b, n, j) {
            assert(b[j] == b.subrange(j, j + 4)[0] && b[j + 1] == b.subrange(j, j + 4)[1]);
            if j < o {
                assert(b[j] == m[j - e]);
                if j + 1 < o {
                    assert(b[j + 1] == m[j + 1 - e]);
                }
            } else if j < k - 1 {
                assert(b[j] == d[j - o]);
            } else {
                assert(b[j] == s[0]);
            }
        }
    }
    wire::lemma_past_is(b, e, n, k);
}

/// A trade is told by its name.
proof fn lemma_trade_name(b: Seq<u8>, e: int)
    requires
        scan::occurs_at(b, codec::lit("trade\",\"E\":"), e),
    ensures
        scan::occurs_at(b, codec::lit("trade\""), e),
        !scan::occurs_at(b, codec::lit("depthUpdate\""), e),
{
    let m = codec::lit("trade\",\"E\":");
    let t = codec::lit("trade\"");
    let u = codec::lit("depthUpdate\"");
    lemma_lit_trade();
    reveal_strlit("trade\"");
    reveal_strlit("depthUpdate\"");
    is_ascii_chars_encode_utf8("trade\""@);
    is_ascii_chars_encode_utf8("depthUpdate\""@);
    wire::lemma_occurs_bytes(b, m, e);
    assert(b[e] == m[0] && b[e + 1] == m[1] && b[e + 2] == m[2] && b[e + 3] == m[3] && b[e + 4]
        == m[4] && b[e + 5] == m[5]);
    assert(b.subrange(e, e + 6) =~= t);
    if scan::occurs_at(b, u, e) {
        assert(b[e] == b.subrange(e, e + u.len())[0]);
        assert(u[0] == 0x64);
    }
}

/// The truth value at `i` is read as it stands.
proof fn lemma_truth(b: Seq<u8>, i: int, v: bool)
    requires
        scan::occurs_at(b, truth(v), i),
    ensures
        scan::occurs_at(b, codec::lit("true"), i) == v,
        scan::occurs_at(b, codec::lit("false"), i) == !v,
{
    let t = codec::lit("true");
    let f = codec::lit("false");
    reveal_strlit("true");
    reveal_strlit("false");
    is_ascii_chars_encode_utf8("true"@);
    is_ascii_chars_encode_utf8("false"@);
    assert(codec::lit("true") =~= seq![0x74u8, 0x72, 0x75, 0x65]);
    assert(codec::lit("false") =~= seq![0x66u8, 0x61, 0x6c, 0x73, 0x65]);
    wire::lemma_occurs_bytes(b, truth(v), i);
    assert(b[i] == truth(v)[0]);
    if scan::occurs_at(b, t, i) {
        wire::lemma_occurs_bytes(b, t, i);
        assert(b[i] == t[0]);
    }
    if scan::occurs_at(b, f, i) {
        wire::lemma_occurs_bytes(b, f, i);
        assert(b[i] == f[0]);
    }
}

/// The symbol and the id of a trade frame are read as they stand.
#[verifier::rlimit(60)]
proof fn lemma_head_read(f: TradeText, table: Seq<(Seq<u8>, u32)>)
    requires
        f.writable(),
    ensures
        fast::trade_head_at(f.frame(), wire::part_start(f.parts(), 4), table) == (
        match codec::lookup_in(table, encode_utf8(f.symbol)) {
            None => Err::<(u32, u64, int), CodecError>(CodecError::UnknownInstrument),
            Some(instrument) => Ok((instrument, f.id, wire::part_start(f.parts(), 10))),
        }),
{
    let ps = f.parts();
    let b = f.frame();
    wire::lemma_joined(ps, 4);
    wire::lemma_joined(ps, 5);
    wire::lemma_joined(ps, 6);
    wire::lemma_joined(ps, 7);
    wire::lemma_joined(ps, 8);
    wire::lemma_joined(ps, 9);
    wire::lemma_joined(ps, 10);
    let o4 = wire::part_start(ps, 4);
    let o5 = wire::part_start(ps, 5);
    let o6 = wire::part_start(ps, 6);
    let o7 = wire::part_start(ps, 7);
    let o8 = wire::part_start(ps, 8);
    let o9 = wire::part_start(ps, 9);
    let o10 = wire::part_start(ps, 10);
    text::lemma_dec_bytes(f.event_ms as nat);
    assert(codec::lit("trade\",\"E\":").len() == 11) by {
        lemma_lit_trade();
    }
    lemma_trade_symbol(b, o4, ps[5]);
    lemma_mark_symbol(b, o6);
    lemma_mark_id(b, o8);
    lemma_mark_price(b, o10);
    wire::lemma_str_at_is(b, o6 + 5, encode_utf8(f.symbol));
    wire::lemma_u64_at_is(b, o9, f.id);
}

/// The price, the quantity and the time of a trade frame are read as they
/// stand.
#[verifier::rlimit(60)]
proof fn lemma_body_read(f: TradeText)
    requires
        f.writable(),
    ensures
        fast::trade_body_at(f.frame(), wire::part_start(f.parts(), 10)) == Ok::<
            (Seq<u8>, Seq<u8>, u64, int),
            CodecError,
        >(
            (
                encode_utf8(f.price),
                encode_utf8(f.qty),
                f.trade_ms,
                wire::part_start(f.parts(), 16),
            ),
        ),
{
    let ps = f.parts();
    let b = f.frame();
    wire::lemma_joined(ps, 10);
    wire::lemma_joined(ps, 11);
    wire::lemma_joined(ps, 12);
    wire::lemma_joined(ps, 13);
    wire::lemma_joined(ps, 14);
    wire::lemma_joined(ps, 15);
    wire::lemma_joined(ps, 16);
    let o10 = wire::part_start(ps, 10);
    let o11 = wire::part_start(ps, 11);
    let o12 = wire::part_start(ps, 12);
    let o13 = wire::part_start(ps, 13);
    let o14 = wire::part_start(ps, 14);
    let o15 = wire::part_start(ps, 15);
    let o16 = wire::part_start(ps, 16);
    lemma_mark_price(b, o10);
    lemma_mark_qty(b, o12);
    lemma_mark_time(b, o14);
    lemma_mark_maker(b, o16);
    wire::lemma_str_at_is(b, o10 + 5, encode_utf8(f.price));
    wire::lemma_str_at_is(b, o12 + 6, encode_utf8(f.qty));
    wire::lemma_u64_at_is(b, o15, f.trade_ms);
}

/// The maker flag of a trade frame is read as it stands.
proof fn lemma_maker_read(f: TradeText)
    ensures
        fast::maker_at(f.frame(), wire::part_start(f.parts(), 16)) == Ok::<bool, CodecError>(
            f.buyer_made,
        ),
{
    let ps = f.parts();
    let b = f.frame();
    wire::lemma_joined(ps, 16);
    wire::lemma_joined(ps, 17);
    lemma_mark_maker(b, wire::part_start(ps, 16));
    lemma_truth(b, wire::part_start(ps, 17), f.buyer_made);
}

/// A trade frame has the envelope of its data.
proof fn lemma_trade_envelope(f: TradeText)
    requires
        f.writable(),
    ensures
        fast::envelope(f.frame()) == Ok::<fast::Envelope, CodecError>(
            fast::Envelope::Data(wire::part_start(f.parts(), 4)),
        ),
        scan::occurs_at(
            f.frame(),
            codec::lit("trade\",\"E\":"),
            wire::part_start(f.parts(), 4),
        ),
{
    let ps = f.parts();
    let b = f.frame();
    wire::lemma_joined(ps, 0);
    wire::lemma_joined(ps, 1);
    wire::lemma_joined(ps, 2);
    wire::lemma_joined(ps, 3);
    wire::lemma_joined(ps, 4);
    assert(codec::lit("{\"stream\":\"").len() == 11 && codec::lit("\",").len() == 2
        && codec::lit("\"data\":{\"e\":\"").len() == 13) by {
        lemma_lit_stream();
        lemma_lit_end();
        lemma_lit_data();
    }
    assert(wire::part_start(ps, 0) == 0);
    lemma_envelope(b, encode_utf8(f.stream), wire::part_start(ps, 3));
}

/// A trade frame is read as what it says.
proof fn lemma_trade_read(f: TradeText, table: Seq<(Seq<u8>, u32)>)
    requires
        f.writable(),
    ensures
        fast::fast_msg(f.frame(), table) == f.said(table),
{
    lemma_trade_envelope(f);
    lemma_trade_name(f.frame(), wire::part_start(f.parts(), 4));
    lemma_head_read(f, table);
    lemma_body_read(f);
    lemma_maker_read(f);
    reveal(fast::trade_at);
}

/// The names of the events are different.
proof fn lemma_names()
    ensures
        "trade"@ != "depthUpdate"@,
{
    reveal_strlit("trade");
    reveal_strlit("depthUpdate");
    assert("trade"@.len() != "depthUpdate"@.len());
}

/// The document of a trade frame says what the frame says.
proof fn lemma_trade_doc(f: TradeText, v: JsonValue, table: Seq<(Seq<u8>, u32)>)
    requires
        f.is_doc(v),
    ensures
        slow::doc_msg(v, table) == f.said(table),
{
    lemma_names();
}

/// Both paths read every trade frame alike, and as what it says: whatever the
/// symbol, whether or not its price and its quantity are exact. (The slow
/// path reads the document `v` that the JSON parser makes of the frame.)
pub proof fn lemma_trade_paths_agree(f: TradeText, v: JsonValue, table: Seq<(Seq<u8>, u32)>)
    requires
        f.writable(),
    ensures
        fast::fast_msg(f.frame(), table) == f.said(table),
        f.is_doc(v) ==> slow::doc_msg(v, table) == f.said(table),
        json::json_of(f.frame()) == Ok::<JsonValue, Seq<char>>(v) && f.is_doc(v)
            ==> slow::slow_msg(f.frame(), table) == fast::fast_msg(f.frame(), table),
{
    lemma_trade_read(f, table);
    if f.is_doc(v) {
        lemma_trade_doc(f, v, table);
    }
}

/// The event `depthUpdate` is told by its name.
proof fn lemma_diff_told(b: Seq<u8>, e: int, name: Seq<char>)
    requires
        scan::occurs_at(b, encode_utf8(name), e),
        scan::byte_at(b, e + encode_utf8(name).len(), 0x22),
        wire::plain(encode_utf8(name)),
    ensures
        scan::occurs_at(b, codec::lit("depthUpdate\""), e) == (name == "depthUpdate"@),
{
    reveal_strlit("depthUpdate\"");
    reveal_strlit("depthUpdate");
    is_ascii_chars_encode_utf8("depthUpdate\""@);
    is_ascii_chars_encode_utf8("depthUpdate"@);
    assert(codec::lit("depthUpdate\"") =~= Seq::<u8>::empty() + codec::lit("depthUpdate") + seq![0x22u8]);
    assert(b.subrange(e, e) =~= Seq::<u8>::empty());
    wire::lemma_told(b, e, Seq::empty(), encode_utf8(name), codec::lit("depthUpdate"));
    if encode_utf8(name) == codec::lit("depthUpdate") {
        json::lemma_utf8_injective(name, "depthUpdate"@);
    }
}

/// The event `trade` is told by its name.
proof fn lemma_trade_told(b: Seq<u8>, e: int, name: Seq<char>)
    requires
        scan::occurs_at(b, encode_utf8(name), e),
        scan::byte_at(b, e + encode_utf8(name).len(), 0x22),
        wire::plain(encode_utf8(name)),
    ensures
        scan::occurs_at(b, codec::lit("trade\""), e) == (name == "trade"@),
{
    reveal_strlit("trade\"");
    reveal_strlit("trade");
    is_ascii_chars_encode_utf8("trade\""@);
    is_ascii_chars_encode_utf8("trade"@);
    assert(codec::lit("trade\"") =~= Seq::<u8>::empty() + codec::lit("trade") + seq![0x22u8]);
    assert(b.subrange(e, e) =~= Seq::<u8>::empty());
    wire::lemma_told(b, e, Seq::empty(), encode_utf8(name), codec::lit("trade"));
    if encode_utf8(name) == codec::lit("trade") {
        json::lemma_utf8_injective(name, "trade"@);
    }
}

/// The event `serverShutdown` is told by its name.
proof fn lemma_shutdown_told(b: Seq<u8>, e: int, name: Seq<char>)
    requires
        scan::occurs_at(b, encode_utf8(name), e),
        scan::byte_at(b, e + encode_utf8(name).len(), 0x22),
        wire::plain(encode_utf8(name)),
    ensures
        scan::occurs_at(b, codec::lit("serverShutdown\""), e) == (name == "serverShutdown"@),
{
    reveal_strlit("serverShutdown\"");
    reveal_strlit("serverShutdown");
    is_ascii_chars_encode_utf8("serverShutdown\""@);
    is_ascii_chars_encode_utf8("serverShutdown"@);
    assert(codec::lit("serverShutdown\"") =~= Seq::<u8>::empty() + codec::lit("serverShutdown") + seq![0x22u8]);
    assert(b.subrange(e, e) =~= Seq::<u8>::empty());
    wire::lemma_told(b, e, Seq::empty(), encode_utf8(name), codec::lit("serverShutdown"));
    if encode_utf8(name) == codec::lit("serverShutdown") {
        json::lemma_utf8_injective(name, "serverShutdown"@);
    }
}

/// What a frame with another event says: `rest` is whatever follows the name
/// of the event.
pub struct EventText {
    pub stream: Seq<char>,
    pub name: Seq<char>,
    pub rest: Seq<u8>,
}

impl EventText {
    /// The texts need no escapes.
    pub open spec fn writable(self) -> bool {
        wire::plain(encode_utf8(self.stream)) && wire::plain(encode_utf8(self.name))
    }

    /// The parts of the frame.
    pub open spec fn parts(self) -> Seq<Seq<u8>> {
        seq![
            codec::lit("{\"stream\":\""),
            encode_utf8(self.stream),
            codec::lit("\","),
            codec::lit("\"data\":{\"e\":\""),
            encode_utf8(self.name),
            seq![0x22u8],
            self.rest,
        ]
    }

    /// The frame.
    pub open spec fn frame(self) -> Seq<u8> {
        wire::joined(self.parts())
    }
}

/// Both paths read every frame with another event alike: a shutdown as such,
/// and the others not at all.
pub proof fn lemma_event_paths_agree(f: EventText, v: JsonValue, table: Seq<(Seq<u8>, u32)>)
    requires
        f.writable(),
        f.name != "depthUpdate"@,
        f.name != "trade"@,
    ensures
        fast::fast_msg(f.frame(), table) == Ok::<Msg, CodecError>(
            if f.name == "serverShutdown"@ {
                Msg::Shutdown
            } else {
                Msg::Ignored
            },
        ),
        json::json_of(f.frame()) == Ok::<JsonValue, Seq<char>>(v) && is_envelope(
            v,
            f.stream,
            f.name,
        ) ==> slow::slow_msg(f.frame(), table) == fast::fast_msg(f.frame(), table),
{
    let ps = f.parts();
    let b = f.frame();
    wire::lemma_joined(ps, 0);
    wire::lemma_joined(ps, 1);
    wire::lemma_joined(ps, 2);
    wire::lemma_joined(ps, 3);
    wire::lemma_joined(ps, 4);
    wire::lemma_joined(ps, 5);
    assert(codec::lit("{\"stream\":\"").len() == 11 && codec::lit("\",").len() == 2
        && codec::lit("\"data\":{\"e\":\"").len() == 13) by {
        lemma_lit_stream();
        lemma_lit_end();
        lemma_lit_data();
    }
    let o4 = wire::part_start(ps, 4);
    let o5 = wire::part_start(ps, 5);
    assert(wire::part_start(ps, 0) == 0);
    lemma_envelope(b, encode_utf8(f.stream), wire::part_start(ps, 3));
    wire::lemma_occurs_bytes(b, ps[5], o5);
    assert(b[o5] == ps[5][0]);
    lemma_diff_told(b, o4, f.name);
    lemma_trade_told(b, o4, f.name);
    lemma_shutdown_told(b, o4, f.name);
}

/// The acknowledgement of the request `id`, as it is written.
pub open spec fn ack_frame(id: u64) -> Seq<u8> {
    wire::joined(
        seq![
            codec::lit("{\"result\":null,\"id\":"),
            text::dec_bytes(id as nat),
            codec::lit("}"),
        ],
    )
}

/// Both paths read every acknowledgement alike: it is control traffic.
pub proof fn lemma_ack_paths_agree(id: u64, v: JsonValue, table: Seq<(Seq<u8>, u32)>)
    ensures
        fast::fast_msg(ack_frame(id), table) == Ok::<Msg, CodecError>(Msg::Control),
        json::json_of(ack_frame(id)) == Ok::<JsonValue, Seq<char>>(v) && v is Obj && json::member(
            v,
            "result"@,
        ) == Some(JsonValue::Null) && json::member(v, "id"@) == Some(json::number(id))
            ==> slow::slow_msg(ack_frame(id), table) == fast::fast_msg(ack_frame(id), table),
{
    let a = codec::lit("{\"result\":null,\"id\":");
    let r = codec::lit("{\"result\":");
    let c = codec::lit("}");
    let ps = seq![a, text::dec_bytes(id as nat), c];
    let b = ack_frame(id);
    reveal_strlit("{\"result\":null,\"id\":");
    reveal_strlit("{\"result\":");
    reveal_strlit("}");
    is_ascii_chars_encode_utf8("{\"result\":null,\"id\":"@);
    is_ascii_chars_encode_utf8("{\"result\":"@);
    is_ascii_chars_encode_utf8("}"@);
    wire::lemma_joined(ps, 0);
    wire::lemma_joined(ps, 1);
    wire::lemma_joined(ps, 2);
    let o1 = wire::part_start(ps, 1);
    let o2 = wire::part_start(ps, 2);
    assert(wire::part_start(ps, 0) == 0);
    assert(a.subrange(0, 10) =~= r);
    wire::lemma_occurs_in(b, a, 0, r, 0);
    wire::lemma_occurs_bytes(b, a, 0);
    assert(b[0] == a[0]);
    assert(scan::ws_end(b, 0) == 0);
    wire::lemma_occurs_bytes(b, c, o2);
    assert(b[o2] == c[0]);
    wire::lemma_u64_at_is(b, o1, id);
    assert(scan::ws_end(b, o2 + 1) == b.len());
}

} // verus!
