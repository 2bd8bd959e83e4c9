//! What Coinbase writes, and that both paths read it alike.
use super::fast;
use super::msg::{Heartbeat, Match, Msg, Snapshot};
use super::slow;
use crate::codec;
use crate::codec::CodecError;
use crate::json;
use crate::json::JsonValue;
use crate::levels;
use crate::levels::LevelText;
use crate::object;
use crate::object::Field;
use crate::scan;
use crate::text;
use crate::wire;
use vstd::prelude::*;
use vstd::utf8::*;

verus! {

/// The bytes of a name: how many, and which ones come first.
spec fn named(name: Seq<char>, len: int, a: u8, b: u8, c: u8) -> bool {
    let n = encode_utf8(name);
    &&& n.len() == len
    &&& n[0] == a
    &&& n[1] == b
    &&& n[2] == c
    &&& object::unquoted(n)
    &&& object::findable(n)
}

/// The key `type`.
proof fn lemma_key_type()
    ensures
        codec::lit("\"type\":") == object::key(encode_utf8("type"@)),
        named("type"@, 4, 0x74, 0x79, 0x70),
{
    reveal_strlit("type");
    is_ascii_chars_encode_utf8("type"@);
    reveal_strlit("\"type\":");
    is_ascii_chars_encode_utf8("\"type\":"@);
    assert(codec::lit("\"type\":") =~= object::key(encode_utf8("type"@)));
}

/// The key `trade_id`.
proof fn lemma_key_trade_id()
    ensures
        codec::lit("\"trade_id\":") == object::key(encode_utf8("trade_id"@)),
        named("trade_id"@, 8, 0x74, 0x72, 0x61),
{
    reveal_strlit("trade_id");
    is_ascii_chars_encode_utf8("trade_id"@);
    reveal_strlit("\"trade_id\":");
    is_ascii_chars_encode_utf8("\"trade_id\":"@);
    assert(codec::lit("\"trade_id\":") =~= object::key(encode_utf8("trade_id"@)));
}

/// The key `maker_order_id`.
proof fn lemma_key_maker_order_id()
    ensures
        named("maker_order_id"@, 14, 0x6d, 0x61, 0x6b),
{
    reveal_strlit("maker_order_id");
    is_ascii_chars_encode_utf8("maker_order_id"@);
}

/// The key `taker_order_id`.
proof fn lemma_key_taker_order_id()
    ensures
        named("taker_order_id"@, 14, 0x74, 0x61, 0x6b),
{
    reveal_strlit("taker_order_id");
    is_ascii_chars_encode_utf8("taker_order_id"@);
}

/// The key `side`.
proof fn lemma_key_side()
    ensures
        codec::lit("\"side\":") == object::key(encode_utf8("side"@)),
        named("side"@, 4, 0x73, 0x69, 0x64),
{
    reveal_strlit("side");
    is_ascii_chars_encode_utf8("side"@);
    reveal_strlit("\"side\":");
    is_ascii_chars_encode_utf8("\"side\":"@);
    assert(codec::lit("\"side\":") =~= object::key(encode_utf8("side"@)));
}

/// The key `size`.
proof fn lemma_key_size()
    ensures
        codec::lit("\"size\":") == object::key(encode_utf8("size"@)),
        named("size"@, 4, 0x73, 0x69, 0x7a),
{
    reveal_strlit("size");
    is_ascii_chars_encode_utf8("size"@);
    reveal_strlit("\"size\":");
    is_ascii_chars_encode_utf8("\"size\":"@);
    assert(codec::lit("\"size\":") =~= object::key(encode_utf8("size"@)));
}

/// The key `price`.
proof fn lemma_key_price()
    ensures
        codec::lit("\"price\":") == object::key(encode_utf8("price"@)),
        named("price"@, 5, 0x70, 0x72, 0x69),
{
    reveal_strlit("price");
    is_ascii_chars_encode_utf8("price"@);
    reveal_strlit("\"price\":");
    is_ascii_chars_encode_utf8("\"price\":"@);
    assert(codec::lit("\"price\":") =~= object::key(encode_utf8("price"@)));
}

/// The key `product_id`.
proof fn lemma_key_product_id()
    ensures
        codec::lit("\"product_id\":") == object::key(encode_utf8("product_id"@)),
        named("product_id"@, 10, 0x70, 0x72, 0x6f),
{
    reveal_strlit("product_id");
    is_ascii_chars_encode_utf8("product_id"@);
    reveal_strlit("\"product_id\":");
    is_ascii_chars_encode_utf8("\"product_id\":"@);
    assert(codec::lit("\"product_id\":") =~= object::key(encode_utf8("product_id"@)));
}

/// The key `sequence`.
proof fn lemma_key_sequence()
    ensures
        codec::lit("\"sequence\":") == object::key(encode_utf8("sequence"@)),
        named("sequence"@, 8, 0x73, 0x65, 0x71),
{
    reveal_strlit("sequence");
    is_ascii_chars_encode_utf8("sequence"@);
    reveal_strlit("\"sequence\":");
    is_ascii_chars_encode_utf8("\"sequence\":"@);
    assert(codec::lit("\"sequence\":") =~= object::key(encode_utf8("sequence"@)));
}

/// The key `time`.
proof fn lemma_key_time()
    ensures
        codec::lit("\"time\":") == object::key(encode_utf8("time"@)),
        named("time"@, 4, 0x74, 0x69, 0x6d),
{
    reveal_strlit("time");
    is_ascii_chars_encode_utf8("time"@);
    reveal_strlit("\"time\":");
    is_ascii_chars_encode_utf8("\"time\":"@);
    assert(codec::lit("\"time\":") =~= object::key(encode_utf8("time"@)));
}

/// The key `last_trade_id`.
proof fn lemma_key_last_trade_id()
    ensures
        codec::lit("\"last_trade_id\":") == object::key(encode_utf8("last_trade_id"@)),
        named("last_trade_id"@, 13, 0x6c, 0x61, 0x73),
{
    reveal_strlit("last_trade_id");
    is_ascii_chars_encode_utf8("last_trade_id"@);
    reveal_strlit("\"last_trade_id\":");
    is_ascii_chars_encode_utf8("\"last_trade_id\":"@);
    assert(codec::lit("\"last_trade_id\":") =~= object::key(encode_utf8("last_trade_id"@)));
}

/// The key `changes`.
proof fn lemma_key_changes()
    ensures
        codec::lit("\"changes\":") == object::key(encode_utf8("changes"@)),
        named("changes"@, 7, 0x63, 0x68, 0x61),
{
    reveal_strlit("changes");
    is_ascii_chars_encode_utf8("changes"@);
    reveal_strlit("\"changes\":");
    is_ascii_chars_encode_utf8("\"changes\":"@);
    assert(codec::lit("\"changes\":") =~= object::key(encode_utf8("changes"@)));
}

/// The key `asks`.
proof fn lemma_key_asks()
    ensures
        codec::lit("\"asks\":") == object::key(encode_utf8("asks"@)),
        named("asks"@, 4, 0x61, 0x73, 0x6b),
{
    reveal_strlit("asks");
    is_ascii_chars_encode_utf8("asks"@);
    reveal_strlit("\"asks\":");
    is_ascii_chars_encode_utf8("\"asks\":"@);
    assert(codec::lit("\"asks\":") =~= object::key(encode_utf8("asks"@)));
}

/// The key `bids`.
proof fn lemma_key_bids()
    ensures
        codec::lit("\"bids\":") == object::key(encode_utf8("bids"@)),
        named("bids"@, 4, 0x62, 0x69, 0x64),
{
    reveal_strlit("bids");
    is_ascii_chars_encode_utf8("bids"@);
    reveal_strlit("\"bids\":");
    is_ascii_chars_encode_utf8("\"bids\":"@);
    assert(codec::lit("\"bids\":") =~= object::key(encode_utf8("bids"@)));
}

/// A string is found under its key and read as it stands.
proof fn lemma_str(fs: Seq<Field>, k: int, i: int, m: int, s: Seq<u8>, what: &'static str)
    requires
        object::sound(fs),
        object::distinct(fs),
        0 <= k <= m < fs.len(),
        object::start(fs, k) - 1 <= i <= object::start(fs, k),
        object::findable(encode_utf8(fs[m].name)),
        fs[m].text == object::quoted(s),
        wire::plain(s),
    ensures
        fast::key_str_at(object::text_of(fs), i, object::key(encode_utf8(fs[m].name)), what) == Ok::<
            (Seq<u8>, int),
            CodecError,
        >((s, object::start(fs, m + 1) - 1)),
        scan::past(object::text_of(fs), i, object::key(encode_utf8(fs[m].name))) == Some(
            object::value_at(fs, m),
        ),
        fast::elem_str_at(object::text_of(fs), object::value_at(fs, m), what) == Ok::<
            (Seq<u8>, int),
            CodecError,
        >((s, object::start(fs, m + 1) - 1)),
{
    object::lemma_first(fs, k, i, m);
    object::lemma_str_read(fs, m, s);
}

/// A number is found under its key and read as it stands.
proof fn lemma_num(fs: Seq<Field>, k: int, i: int, m: int, n: u64, what: &'static str)
    requires
        object::sound(fs),
        object::distinct(fs),
        0 <= k <= m < fs.len(),
        object::start(fs, k) - 1 <= i <= object::start(fs, k),
        object::findable(encode_utf8(fs[m].name)),
        fs[m].text == text::dec_bytes(n as nat),
    ensures
        fast::key_u64_at(object::text_of(fs), i, object::key(encode_utf8(fs[m].name)), what) == Ok::<
            (u64, int),
            CodecError,
        >((n, object::start(fs, m + 1) - 1)),
{
    object::lemma_first(fs, k, i, m);
    object::lemma_num_read(fs, m, n);
}

/// The type of a message is read as it stands, whatever follows it.
proof fn lemma_type(fs: Seq<Field>, ty: Seq<char>)
    requires
        fs.len() > 0,
        fs[0] == object::str_field("type"@, ty),
        wire::plain(encode_utf8(ty)),
    ensures
        fast::type_of(object::text_of(fs)) == Ok::<Seq<u8>, CodecError>(encode_utf8(ty)),
        object::start(fs, 0) == 1,
{
    let b = object::text_of(fs);
    lemma_key_type();
    object::lemma_field(fs, 0);
    assert(b[0] == 0x7b);
    wire::lemma_past_is(b, 1, object::key(encode_utf8("type"@)), 1);
    object::lemma_str_read(fs, 0, encode_utf8(ty));
    reveal(fast::type_of);
}

/// The types of the messages are different, and need no escapes.
proof fn lemma_types()
    ensures
        codec::lit("l2update").len() == 8 && codec::lit("l2update")[0] == 0x6c && wire::plain(codec::lit("l2update")),
        codec::lit("match").len() == 5 && codec::lit("match")[0] == 0x6d && wire::plain(codec::lit("match")),
        codec::lit("last_match").len() == 10 && codec::lit("last_match")[0] == 0x6c && wire::plain(codec::lit("last_match")),
        codec::lit("heartbeat").len() == 9 && codec::lit("heartbeat")[0] == 0x68 && wire::plain(codec::lit("heartbeat")),
        codec::lit("snapshot").len() == 8 && codec::lit("snapshot")[0] == 0x73 && wire::plain(codec::lit("snapshot")),
{
    reveal_strlit("l2update");
    is_ascii_chars_encode_utf8("l2update"@);
    reveal_strlit("match");
    is_ascii_chars_encode_utf8("match"@);
    reveal_strlit("last_match");
    is_ascii_chars_encode_utf8("last_match"@);
    reveal_strlit("heartbeat");
    is_ascii_chars_encode_utf8("heartbeat"@);
    reveal_strlit("snapshot");
    is_ascii_chars_encode_utf8("snapshot"@);
}

/// The types of the messages are different texts.
proof fn lemma_type_texts()
    ensures
        "l2update"@.len() == 8 && "l2update"@[0] == 'l',
        "match"@.len() == 5 && "match"@[0] == 'm',
        "last_match"@.len() == 10 && "last_match"@[0] == 'l',
        "heartbeat"@.len() == 9 && "heartbeat"@[0] == 'h',
        "snapshot"@.len() == 8 && "snapshot"@[0] == 's',
{
    reveal_strlit("l2update");
    reveal_strlit("match");
    reveal_strlit("last_match");
    reveal_strlit("heartbeat");
    reveal_strlit("snapshot");
}

/// A side is told alike from its bytes and from its characters.
proof fn lemma_side(s: Seq<char>, what: &'static str)
    ensures
        fast::side_of(encode_utf8(s), what) == slow::side_value(Some(s), what),
{
    if encode_utf8(s) == codec::lit("buy") {
        json::lemma_utf8_injective(s, "buy"@);
    }
    if encode_utf8(s) == codec::lit("sell") {
        json::lemma_utf8_injective(s, "sell"@);
    }
}

/// What a time says.
pub open spec fn said_time(time: Seq<char>) -> Result<u64, CodecError> {
    match scan::rfc3339_spec(encode_utf8(time)) {
        None => Err(CodecError::Structure("time")),
        Some(ts) => Ok(ts),
    }
}

/// What a product says.
pub open spec fn said_product(product: Seq<char>, table: Seq<(Seq<u8>, u32)>) -> Result<
    u32,
    CodecError,
> {
    match codec::lookup_in(table, encode_utf8(product)) {
        None => Err(CodecError::UnknownInstrument),
        Some(id) => Ok(id),
    }
}

/// What a heartbeat says. Texts are as the venue writes them: without quotes
/// and backslashes.
pub struct HeartbeatText {
    pub last_trade_id: u64,
    pub product: Seq<char>,
    pub seq: u64,
    pub time: Seq<char>,
}

impl HeartbeatText {
    /// The texts need no escapes.
    pub open spec fn writable(self) -> bool {
        wire::plain(encode_utf8(self.product)) && wire::plain(encode_utf8(self.time))
    }

    /// The fields of the message.
    pub open spec fn fields(self) -> Seq<Field> {
        seq![
            object::str_field("type"@, "heartbeat"@),
            object::num_field("last_trade_id"@, self.last_trade_id),
            object::str_field("product_id"@, self.product),
            object::num_field("sequence"@, self.seq),
            object::str_field("time"@, self.time),
        ]
    }

    /// The message.
    pub open spec fn frame(self) -> Seq<u8> {
        object::text_of(self.fields())
    }

    /// What the message says of the instruments of `table`.
    pub open spec fn said(self, table: Seq<(Seq<u8>, u32)>) -> Result<Msg, CodecError> {
        match said_time(self.time) {
            Err(e) => Err(e),
            Ok(ts) => match said_product(self.product, table) {
                Err(e) => Err(e),
                Ok(instrument) => Ok(
                    Msg::Heartbeat(
                        Heartbeat {
                            instrument,
                            ts,
                            seq: self.seq,
                            last_trade_id: self.last_trade_id,
                        },
                    ),
                ),
            },
        }
    }
}

/// The fields of a heartbeat can be told apart.
proof fn lemma_heartbeat_fields(f: HeartbeatText)
    requires
        f.writable(),
    ensures
        object::sound(f.fields()),
        object::distinct(f.fields()),
{
    reveal(object::sound);
    reveal(object::distinct);
    lemma_types();
    lemma_key_type();
    lemma_key_last_trade_id();
    lemma_key_product_id();
    lemma_key_sequence();
    lemma_key_time();
    object::lemma_str_keyless(codec::lit("heartbeat"));
    object::lemma_num_keyless(f.last_trade_id as nat);
    object::lemma_str_keyless(encode_utf8(f.product));
    object::lemma_num_keyless(f.seq as nat);
    object::lemma_str_keyless(encode_utf8(f.time));
}

/// A heartbeat is read as what it says.
proof fn lemma_heartbeat_read(f: HeartbeatText, table: Seq<(Seq<u8>, u32)>)
    requires
        f.writable(),
    ensures
        fast::fast_msg(f.frame(), table) == f.said(table),
{
    let fs = f.fields();
    let b = f.frame();
    lemma_heartbeat_fields(f);
    lemma_types();
    lemma_type(fs, "heartbeat"@);
    lemma_key_last_trade_id();
    lemma_key_product_id();
    lemma_key_sequence();
    lemma_key_time();
    lemma_str(fs, 0, 0, 4, encode_utf8(f.time), "time");
    lemma_num(fs, 0, 0, 1, f.last_trade_id, "last_trade_id");
    lemma_str(fs, 2, object::start(fs, 2) - 1, 2, encode_utf8(f.product), "product_id");
    lemma_num(fs, 3, object::start(fs, 3) - 1, 3, f.seq, "sequence");
    reveal(fast::heartbeat_msg);
}

/// The document of a heartbeat says what the message says.
proof fn lemma_heartbeat_doc(f: HeartbeatText, v: JsonValue, table: Seq<(Seq<u8>, u32)>)
    requires
        object::is_doc(v, f.fields()),
    ensures
        slow::doc_msg(v, table) == f.said(table),
{
    let fs = f.fields();
    lemma_type_texts();
    assert(json::member(v, fs[0].name) == Some(fs[0].value));
    assert(json::member(v, fs[1].name) == Some(fs[1].value));
    assert(json::member(v, fs[2].name) == Some(fs[2].value));
    assert(json::member(v, fs[3].name) == Some(fs[3].value));
    assert(json::member(v, fs[4].name) == Some(fs[4].value));
}

/// Both paths read every heartbeat alike, and as what it says. (The slow path
/// reads the document `v` that the JSON parser makes of the message.)
pub proof fn lemma_heartbeat_paths_agree(
    f: HeartbeatText,
    v: JsonValue,
    table: Seq<(Seq<u8>, u32)>,
)
    requires
        f.writable(),
    ensures
        fast::fast_msg(f.frame(), table) == f.said(table),
        object::is_doc(v, f.fields()) ==> slow::doc_msg(v, table) == f.said(table),
        json::json_of(f.frame()) == Ok::<JsonValue, Seq<char>>(v) && object::is_doc(v, f.fields())
            ==> slow::slow_msg(f.frame(), table) == fast::fast_msg(f.frame(), table),
{
    lemma_heartbeat_read(f, table);
    if object::is_doc(v, f.fields()) {
        lemma_heartbeat_doc(f, v, table);
    }
}

/// What a match, or a last match, says. Texts are as the venue writes them:
/// without quotes and backslashes.
pub struct MatchText {
    pub last: bool,
    pub id: u64,
    pub maker_order: Seq<char>,
    pub taker_order: Seq<char>,
    pub side: Seq<char>,
    pub size: Seq<char>,
    pub price: Seq<char>,
    pub product: Seq<char>,
    pub seq: u64,
    pub time: Seq<char>,
}

impl MatchText {
    /// The texts need no escapes.
    pub open spec fn writable(self) -> bool {
        &&& wire::plain(encode_utf8(self.maker_order))
        &&& wire::plain(encode_utf8(self.taker_order))
        &&& wire::plain(encode_utf8(self.side))
        &&& wire::plain(encode_utf8(self.size))
        &&& wire::plain(encode_utf8(self.price))
        &&& wire::plain(encode_utf8(self.product))
        &&& wire::plain(encode_utf8(self.time))
    }

    /// The type of the message.
    pub open spec fn ty(self) -> Seq<char> {
        if self.last {
            "last_match"@
        } else {
            "match"@
        }
    }

    /// The fields of the message.
    pub open spec fn fields(self) -> Seq<Field> {
        seq![
            object::str_field("type"@, self.ty()),
            object::num_field("trade_id"@, self.id),
            object::str_field("maker_order_id"@, self.maker_order),
            object::str_field("taker_order_id"@, self.taker_order),
            object::str_field("side"@, self.side),
            object::str_field("size"@, self.size),
            object::str_field("price"@, self.price),
            object::str_field("product_id"@, self.product),
            object::num_field("sequence"@, self.seq),
            object::str_field("time"@, self.time),
        ]
    }

    /// The message.
    pub open spec fn frame(self) -> Seq<u8> {
        object::text_of(self.fields())
    }

    /// What the message says of its trade: its side is the maker's, so a
    /// resting bid means that the taker sold.
    pub open spec fn said_trade(self) -> Result<(bool, i64, i64), CodecError> {
        match slow::side_value(Some(self.side), "side") {
            Err(e) => Err(e),
            Ok(taker_sell) => match slow::fixed_text(self.size) {
                Err(e) => Err(e),
                Ok(qty) => match slow::fixed_text(self.price) {
                    Err(e) => Err(e),
                    Ok(price) => Ok((taker_sell, qty, price)),
                },
            },
        }
    }

    /// What the message says of the instruments of `table`.
    pub open spec fn said(self, table: Seq<(Seq<u8>, u32)>) -> Result<Msg, CodecError> {
        match said_time(self.time) {
            Err(e) => Err(e),
            Ok(ts) => match self.said_trade() {
                Err(e) => Err(e),
                Ok((taker_sell, qty, price)) => match said_product(self.product, table) {
                    Err(e) => Err(e),
                    Ok(instrument) => Ok(
                        Msg::Match(
                            Match {
                                instrument,
                                ts,
                                seq: self.seq,
                                id: self.id,
                                taker_sell,
                                price,
                                qty,
                                gap_check: !self.last,
                            },
                        ),
                    ),
                },
            },
        }
    }
}

/// The fields of a match hold no key.
proof fn lemma_match_sound(f: MatchText)
    requires
        f.writable(),
    ensures
        object::sound(f.fields()),
{
    reveal(object::sound);
    lemma_types();
    lemma_key_type();
    lemma_key_trade_id();
    lemma_key_maker_order_id();
    lemma_key_taker_order_id();
    lemma_key_side();
    lemma_key_size();
    lemma_key_price();
    lemma_key_product_id();
    lemma_key_sequence();
    lemma_key_time();
    object::lemma_str_keyless(encode_utf8(f.ty()));
    object::lemma_num_keyless(f.id as nat);
    object::lemma_str_keyless(encode_utf8(f.maker_order));
    object::lemma_str_keyless(encode_utf8(f.taker_order));
    object::lemma_str_keyless(encode_utf8(f.side));
    object::lemma_str_keyless(encode_utf8(f.size));
    object::lemma_str_keyless(encode_utf8(f.price));
    object::lemma_str_keyless(encode_utf8(f.product));
    object::lemma_num_keyless(f.seq as nat);
    object::lemma_str_keyless(encode_utf8(f.time));
}

/// The names of the fields of a match are different.
proof fn lemma_match_distinct(f: MatchText)
    ensures
        object::distinct(f.fields()),
{
    reveal(object::distinct);
    lemma_key_type();
    lemma_key_trade_id();
    lemma_key_maker_order_id();
    lemma_key_taker_order_id();
    lemma_key_side();
    lemma_key_size();
    lemma_key_price();
    lemma_key_product_id();
    lemma_key_sequence();
    lemma_key_time();
}

/// The trade of a match is read as it stands.
#[verifier::rlimit(40)]
proof fn lemma_match_head(f: MatchText)
    requires
        f.writable(),
    ensures
        fast::match_head(f.frame()) == (match f.said_trade() {
            Err(e) => Err::<(u64, bool, i64, i64, int), CodecError>(e),
            Ok((taker_sell, qty, price)) => Ok(
                (f.id, taker_sell, qty, price, object::start(f.fields(), 7) - 1),
            ),
        }),
{
    let fs = f.fields();
    lemma_match_sound(f);
    lemma_match_distinct(f);
    lemma_key_trade_id();
    lemma_key_side();
    lemma_key_size();
    lemma_key_price();
    object::lemma_field(fs, 0);
    lemma_num(fs, 0, 0, 1, f.id, "trade_id");
    lemma_str(fs, 2, object::start(fs, 2) - 1, 4, encode_utf8(f.side), "side");
    lemma_side(f.side, "side");
    lemma_str(fs, 5, object::start(fs, 5) - 1, 5, encode_utf8(f.size), "size");
    lemma_str(fs, 6, object::start(fs, 6) - 1, 6, encode_utf8(f.price), "price");
}

/// A match is read as what it says.
#[verifier::rlimit(40)]
proof fn lemma_match_read(f: MatchText, table: Seq<(Seq<u8>, u32)>)
    requires
        f.writable(),
    ensures
        fast::fast_msg(f.frame(), table) == f.said(table),
{
    let fs = f.fields();
    lemma_match_sound(f);
    lemma_match_distinct(f);
    lemma_types();
    lemma_type(fs, f.ty());
    lemma_key_product_id();
    lemma_key_sequence();
    lemma_key_time();
    lemma_match_head(f);
    lemma_str(fs, 0, 0, 9, encode_utf8(f.time), "time");
    lemma_str(fs, 7, object::start(fs, 7) - 1, 7, encode_utf8(f.product), "product_id");
    lemma_num(fs, 8, object::start(fs, 8) - 1, 8, f.seq, "sequence");
    reveal(fast::match_msg);
}

/// The document of a match says what the message says.
proof fn lemma_match_doc(f: MatchText, v: JsonValue, table: Seq<(Seq<u8>, u32)>)
    requires
        object::is_doc(v, f.fields()),
    ensures
        slow::doc_msg(v, table) == f.said(table),
{
    let fs = f.fields();
    lemma_type_texts();
    assert(json::member(v, fs[0].name) == Some(fs[0].value));
    assert(json::member(v, fs[1].name) == Some(fs[1].value));
    assert(json::member(v, fs[2].name) == Some(fs[2].value));
    assert(json::member(v, fs[3].name) == Some(fs[3].value));
    assert(json::member(v, fs[4].name) == Some(fs[4].value));
    assert(json::member(v, fs[5].name) == Some(fs[5].value));
    assert(json::member(v, fs[6].name) == Some(fs[6].value));
    assert(json::member(v, fs[7].name) == Some(fs[7].value));
    assert(json::member(v, fs[8].name) == Some(fs[8].value));
    assert(json::member(v, fs[9].name) == Some(fs[9].value));
}

/// Both paths read every match alike, and as what it says. (The slow path
/// reads the document `v` that the JSON parser makes of the message.)
pub proof fn lemma_match_paths_agree(f: MatchText, v: JsonValue, table: Seq<(Seq<u8>, u32)>)
    requires
        f.writable(),
    ensures
        fast::fast_msg(f.frame(), table) == f.said(table),
        object::is_doc(v, f.fields()) ==> slow::doc_msg(v, table) == f.said(table),
        json::json_of(f.frame()) == Ok::<JsonValue, Seq<char>>(v) && object::is_doc(v, f.fields())
            ==> slow::slow_msg(f.frame(), table) == fast::fast_msg(f.frame(), table),
{
    lemma_match_read(f, table);
    if object::is_doc(v, f.fields()) {
        lemma_match_doc(f, v, table);
    }
}

/// A level change as text: its side, its price and its quantity.
pub type ChangeText = (Seq<char>, Seq<char>, Seq<char>);

/// The level changes need no escapes.
pub open spec fn changes_writable(cs: Seq<ChangeText>) -> bool {
    forall|i: int|
        0 <= i < cs.len() ==> wire::plain(encode_utf8((#[trigger] cs[i]).0)) && wire::plain(
            encode_utf8(cs[i].1),
        ) && wire::plain(encode_utf8(cs[i].2))
}

/// The strings of a level change as they are written.
pub open spec fn change_items(c: ChangeText) -> Seq<Seq<u8>> {
    seq![
        object::quoted(encode_utf8(c.0)),
        object::quoted(encode_utf8(c.1)),
        object::quoted(encode_utf8(c.2)),
    ]
}

/// The level change as it is written: `["buy","price","qty"]`.
pub open spec fn change_frame(c: ChangeText) -> Seq<u8> {
    seq![0x5bu8] + wire::list_from(change_items(c), 0)
}

/// The level changes as they are written.
pub open spec fn change_frames(cs: Seq<ChangeText>) -> Seq<Seq<u8>> {
    Seq::new(cs.len(), |i: int| change_frame(cs[i]))
}

/// The document that a level change is.
pub open spec fn change_doc(c: ChangeText) -> JsonValue {
    JsonValue::Arr(seq![JsonValue::Str(c.0), JsonValue::Str(c.1), JsonValue::Str(c.2)])
}

/// The documents that the level changes are.
pub open spec fn change_docs(cs: Seq<ChangeText>) -> Seq<JsonValue> {
    Seq::new(cs.len(), |i: int| change_doc(cs[i]))
}

/// What a level change says.
pub open spec fn said_change(c: ChangeText) -> Result<(bool, i64, i64), CodecError> {
    match slow::side_value(Some(c.0), "change side") {
        Err(e) => Err(e),
        Ok(bid) => match slow::fixed_text(c.1) {
            Err(e) => Err(e),
            Ok(p) => match slow::fixed_text(c.2) {
                Err(e) => Err(e),
                Ok(q) => Ok((bid, p, q)),
            },
        },
    }
}

/// What the level changes from `k` on say, behind `acc`.
pub open spec fn said_changes(
    cs: Seq<ChangeText>,
    k: int,
    acc: Seq<(bool, i64, i64)>,
) -> Result<Seq<(bool, i64, i64)>, CodecError>
    decreases cs.len() - k,
{
    if !(0 <= k < cs.len()) {
        Ok(acc)
    } else {
        match said_change(cs[k]) {
            Err(e) => Err(e),
            Ok(x) => said_changes(cs, k + 1, acc.push(x)),
        }
    }
}

/// Level changes hold no key.
proof fn lemma_changes_keyless(cs: Seq<ChangeText>)
    requires
        changes_writable(cs),
    ensures
        object::keyless(seq![0x5bu8] + wire::list_from(change_frames(cs), 0)),
{
    assert forall|i: int| 0 <= i < cs.len() implies object::keyless(
        #[trigger] change_frames(cs)[i],
    ) by {
        object::lemma_str_keyless(encode_utf8(cs[i].0));
        object::lemma_str_keyless(encode_utf8(cs[i].1));
        object::lemma_str_keyless(encode_utf8(cs[i].2));
        object::lemma_list_keyless(change_items(cs[i]), 0);
    }
    object::lemma_list_keyless(change_frames(cs), 0);
}

/// Where the price of a level change starts.
spec fn price_at(c: ChangeText) -> int {
    encode_utf8(c.0).len() as int + 4
}

/// Where the quantity of a level change starts.
spec fn qty_at(c: ChangeText) -> int {
    price_at(c) + encode_utf8(c.1).len() + 3
}

/// What stands in a list of three strings.
proof fn lemma_three(b: Seq<u8>, i: int, items: Seq<Seq<u8>>, x: Seq<u8>, y: Seq<u8>, z: Seq<u8>)
    requires
        items.len() == 3,
        items[0] == object::quoted(x),
        items[1] == object::quoted(y),
        items[2] == object::quoted(z),
        wire::plain(x),
        wire::plain(y),
        wire::plain(z),
        scan::occurs_at(b, wire::list_from(items, 0), i),
    ensures
        0 <= i,
        i + x.len() + y.len() + z.len() + 9 <= b.len(),
        wire::list_from(items, 0).len() == x.len() + y.len() + z.len() + 9,
        b[i] == 0x22,
        scan::str_at(b, i) == Some((x, i + x.len() + 2)),
        b[i + x.len() + 2] == 0x2c,
        b[i + x.len() + 3] == 0x22,
        scan::str_at(b, i + x.len() + 3) == Some((y, i + x.len() + y.len() + 5)),
        b[i + x.len() + y.len() + 5] == 0x2c,
        b[i + x.len() + y.len() + 6] == 0x22,
        scan::str_at(b, i + x.len() + y.len() + 6) == Some(
            (z, i + x.len() + y.len() + z.len() + 8),
        ),
        b[i + x.len() + y.len() + z.len() + 8] == 0x5d,
{
    object::lemma_list_str(b, i, items, 0, x);
    object::lemma_list_str(b, i + x.len() + 3, items, 1, y);
    object::lemma_list_str(b, i + x.len() + y.len() + 6, items, 2, z);
}

/// What stands in a level change.
proof fn lemma_change_bytes(b: Seq<u8>, i: int, c: ChangeText)
    requires
        scan::occurs_at(b, change_frame(c), i),
        wire::plain(encode_utf8(c.0)),
        wire::plain(encode_utf8(c.1)),
        wire::plain(encode_utf8(c.2)),
    ensures
        0 <= i,
        i + change_frame(c).len() <= b.len(),
        change_frame(c).len() == qty_at(c) + encode_utf8(c.2).len() + 3,
        b[i] == 0x5b,
        b[i + 1] == 0x22,
        scan::str_at(b, i + 1) == Some((encode_utf8(c.0), i + price_at(c) - 1)),
        b[i + price_at(c) - 1] == 0x2c,
        b[i + price_at(c)] == 0x22,
        scan::str_at(b, i + price_at(c)) == Some((encode_utf8(c.1), i + qty_at(c) - 1)),
        b[i + qty_at(c) - 1] == 0x2c,
        b[i + qty_at(c)] == 0x22,
        scan::str_at(b, i + qty_at(c)) == Some(
            (encode_utf8(c.2), i + change_frame(c).len() - 1),
        ),
        b[i + change_frame(c).len() - 1] == 0x5d,
{
    let f = change_frame(c);
    let items = change_items(c);
    let r = wire::list_from(items, 0);
    wire::lemma_occurs_bytes(b, f, i);
    assert(b[i] == f[0]);
    assert(f.subrange(1, 1 + r.len() as int) =~= r);
    wire::lemma_occurs_in(b, f, i, r, 1);
    lemma_three(b, i + 1, items, encode_utf8(c.0), encode_utf8(c.1), encode_utf8(c.2));
}

/// A level change is read as what it says.
proof fn lemma_change_read(b: Seq<u8>, i: int, c: ChangeText)
    requires
        scan::occurs_at(b, change_frame(c), i),
        wire::plain(encode_utf8(c.0)),
        wire::plain(encode_utf8(c.1)),
        wire::plain(encode_utf8(c.2)),
    ensures
        b[i] == 0x5b,
        fast::change_at(b, i) == (match said_change(c) {
            Err(e) => Err::<((bool, i64, i64), int), CodecError>(e),
            Ok(x) => Ok((x, i + change_frame(c).len())),
        }),
{
    lemma_change_bytes(b, i, c);
    lemma_side(c.0, "change side");
    reveal(fast::change_at);
}

/// The level changes from `k` on are read as what they say.
proof fn lemma_changes_read(
    b: Seq<u8>,
    i: int,
    cs: Seq<ChangeText>,
    k: int,
    acc: Seq<(bool, i64, i64)>,
)
    requires
        0 <= k < cs.len(),
        changes_writable(cs),
        scan::occurs_at(b, wire::list_from(change_frames(cs), k), i),
    ensures
        b[i] == 0x5b,
        fast::changes_at(b, i, acc) == said_changes(cs, k, acc),
    decreases cs.len() - k,
{
    let items = change_frames(cs);
    let j = i + items[k].len();
    wire::lemma_list_item(b, i, items, k);
    lemma_change_read(b, i, cs[k]);
    match said_change(cs[k]) {
        Err(_) => {},
        Ok(x) => {
            if k + 1 < cs.len() {
                lemma_changes_read(b, j + 1, cs, k + 1, acc.push(x));
            } else {
                assert(said_changes(cs, k + 1, acc.push(x)) == Ok::<
                    Seq<(bool, i64, i64)>,
                    CodecError,
                >(acc.push(x)));
            }
        },
    }
}

/// The documents of the level changes say what they say.
proof fn lemma_changes_doc(cs: Seq<ChangeText>, k: int, acc: Seq<(bool, i64, i64)>)
    requires
        0 <= k <= cs.len(),
    ensures
        slow::change_values(change_docs(cs), k, acc) == said_changes(cs, k, acc),
    decreases cs.len() - k,
{
    if k < cs.len() {
        let v = change_docs(cs)[k];
        assert(v == change_doc(cs[k]));
        assert(json::arr_of(v) == Some(
            seq![JsonValue::Str(cs[k].0), JsonValue::Str(cs[k].1), JsonValue::Str(cs[k].2)],
        ));
        assert(slow::change_value(v) == said_change(cs[k]));
        match said_change(cs[k]) {
            Err(_) => {},
            Ok(x) => {
                lemma_changes_doc(cs, k + 1, acc.push(x));
            },
        }
    }
}

/// What an update says. Texts are as the venue writes them: without quotes
/// and backslashes.
pub struct UpdateText {
    pub product: Seq<char>,
    pub changes: Seq<ChangeText>,
    pub time: Seq<char>,
}

impl UpdateText {
    /// The texts need no escapes.
    pub open spec fn writable(self) -> bool {
        &&& wire::plain(encode_utf8(self.product))
        &&& wire::plain(encode_utf8(self.time))
        &&& changes_writable(self.changes)
    }

    /// The fields of the message.
    pub open spec fn fields(self) -> Seq<Field> {
        seq![
            object::str_field("type"@, "l2update"@),
            object::str_field("product_id"@, self.product),
            (Field {
                name: "changes"@,
                text: seq![0x5bu8] + wire::list_from(change_frames(self.changes), 0),
                value: JsonValue::Arr(change_docs(self.changes)),
            }),
            object::str_field("time"@, self.time),
        ]
    }

    /// The message.
    pub open spec fn frame(self) -> Seq<u8> {
        object::text_of(self.fields())
    }

    /// What the message says of the instruments of `table`.
    pub open spec fn said(self, table: Seq<(Seq<u8>, u32)>) -> Result<Msg, CodecError> {
        match said_time(self.time) {
            Err(e) => Err(e),
            Ok(ts) => match said_product(self.product, table) {
                Err(e) => Err(e),
                Ok(instrument) => match said_changes(self.changes, 0, Seq::empty()) {
                    Err(e) => Err(e),
                    Ok(changes) => Ok(Msg::L2Update(instrument, ts, changes)),
                },
            },
        }
    }
}

/// The fields of an update can be told apart.
proof fn lemma_update_fields(f: UpdateText)
    requires
        f.writable(),
    ensures
        object::sound(f.fields()),
        object::distinct(f.fields()),
{
    reveal(object::sound);
    reveal(object::distinct);
    lemma_types();
    lemma_key_type();
    lemma_key_product_id();
    lemma_key_changes();
    lemma_key_time();
    object::lemma_str_keyless(codec::lit("l2update"));
    object::lemma_str_keyless(encode_utf8(f.product));
    lemma_changes_keyless(f.changes);
    object::lemma_str_keyless(encode_utf8(f.time));
}

/// A change list is read as what it says.
proof fn lemma_change_array_read(b: Seq<u8>, i: int, cs: Seq<ChangeText>)
    requires
        changes_writable(cs),
        scan::occurs_at(b, seq![0x5bu8] + wire::list_from(change_frames(cs), 0), i),
    ensures
        fast::change_array_at(b, i) == said_changes(cs, 0, Seq::empty()),
{
    let items = change_frames(cs);
    let r = wire::list_from(items, 0);
    let t = seq![0x5bu8] + r;
    wire::lemma_occurs_bytes(b, t, i);
    assert(b[i] == t[0]);
    assert(t.subrange(1, 1 + r.len() as int) =~= r);
    wire::lemma_occurs_in(b, t, i, r, 1);
    if cs.len() > 0 {
        lemma_changes_read(b, i + 1, cs, 0, Seq::empty());
    } else {
        wire::lemma_list_empty(b, i + 1, items);
    }
}

/// An update is read as what it says.
proof fn lemma_update_read(f: UpdateText, table: Seq<(Seq<u8>, u32)>)
    requires
        f.writable(),
    ensures
        fast::fast_msg(f.frame(), table) == f.said(table),
{
    let fs = f.fields();
    lemma_update_fields(f);
    lemma_types();
    lemma_type(fs, "l2update"@);
    lemma_key_product_id();
    lemma_key_changes();
    lemma_key_time();
    lemma_str(fs, 0, 0, 3, encode_utf8(f.time), "time");
    lemma_str(fs, 0, 0, 1, encode_utf8(f.product), "product_id");
    object::lemma_first(fs, 2, object::start(fs, 2) - 1, 2);
    object::lemma_field(fs, 2);
    lemma_change_array_read(f.frame(), object::value_at(fs, 2), f.changes);
    reveal(fast::update_msg);
}

/// The document of an update says what the message says.
proof fn lemma_update_doc(f: UpdateText, v: JsonValue, table: Seq<(Seq<u8>, u32)>)
    requires
        object::is_doc(v, f.fields()),
    ensures
        slow::doc_msg(v, table) == f.said(table),
{
    let fs = f.fields();
    lemma_type_texts();
    lemma_changes_doc(f.changes, 0, Seq::empty());
    assert(json::member(v, fs[0].name) == Some(fs[0].value));
    assert(json::member(v, fs[1].name) == Some(fs[1].value));
    assert(json::member(v, fs[2].name) == Some(fs[2].value));
    assert(json::member(v, fs[3].name) == Some(fs[3].value));
}

/// Both paths read every update alike, and as what it says. (The slow path
/// reads the document `v` that the JSON parser makes of the message.)
pub proof fn lemma_update_paths_agree(f: UpdateText, v: JsonValue, table: Seq<(Seq<u8>, u32)>)
    requires
        f.writable(),
    ensures
        fast::fast_msg(f.frame(), table) == f.said(table),
        object::is_doc(v, f.fields()) ==> slow::doc_msg(v, table) == f.said(table),
        json::json_of(f.frame()) == Ok::<JsonValue, Seq<char>>(v) && object::is_doc(v, f.fields())
            ==> slow::slow_msg(f.frame(), table) == fast::fast_msg(f.frame(), table),
{
    lemma_update_read(f, table);
    if object::is_doc(v, f.fields()) {
        lemma_update_doc(f, v, table);
    }
}

/// The levels from `k` on are read as what they say.
proof fn lemma_levels_read(b: Seq<u8>, i: int, ls: Seq<LevelText>, k: int, acc: Seq<(i64, i64)>)
    requires
        0 <= k < ls.len(),
        levels::levels_writable(ls),
        scan::occurs_at(b, wire::list_from(levels::level_frames(ls), k), i),
    ensures
        b[i] == 0x5b,
        fast::levels_at(b, i, false, acc) == levels::said_levels(ls, k, acc),
    decreases ls.len() - k,
{
    let items = levels::level_frames(ls);
    let j = i + items[k].len();
    wire::lemma_list_item(b, i, items, k);
    levels::lemma_level_bytes(b, i, ls[k]);
    reveal(fast::level_at);
    if let (Ok(p), Ok(q)) = (slow::fixed_text(ls[k].0), slow::fixed_text(ls[k].1)) {
        if k + 1 < ls.len() {
            lemma_levels_read(b, j + 1, ls, k + 1, acc.push((p, q)));
        } else {
            assert(levels::said_levels(ls, k + 1, acc.push((p, q))) == Ok::<Seq<(i64, i64)>, CodecError>(
                acc.push((p, q)),
            ));
        }
    }
}

/// A level array is read as what it says.
proof fn lemma_level_array_read(b: Seq<u8>, i: int, ls: Seq<LevelText>)
    requires
        levels::levels_writable(ls),
        scan::occurs_at(b, seq![0x5bu8] + wire::list_from(levels::level_frames(ls), 0), i),
    ensures
        fast::level_array_at(b, i, false) == levels::said_levels(ls, 0, Seq::empty()),
{
    let items = levels::level_frames(ls);
    let r = wire::list_from(items, 0);
    let t = seq![0x5bu8] + r;
    wire::lemma_occurs_bytes(b, t, i);
    assert(b[i] == t[0]);
    assert(t.subrange(1, 1 + r.len() as int) =~= r);
    wire::lemma_occurs_in(b, t, i, r, 1);
    if ls.len() > 0 {
        lemma_levels_read(b, i + 1, ls, 0, Seq::empty());
    } else {
        wire::lemma_list_empty(b, i + 1, items);
    }
}

/// The documents of the levels say what they say.
proof fn lemma_levels_doc(ls: Seq<LevelText>, k: int, acc: Seq<(i64, i64)>)
    requires
        0 <= k <= ls.len(),
    ensures
        slow::level_values(levels::level_docs(ls), k, acc) == levels::said_levels(ls, k, acc),
    decreases ls.len() - k,
{
    if k < ls.len() {
        let v = levels::level_docs(ls)[k];
        assert(v == levels::level_doc(ls[k]));
        assert(json::arr_of(v) == Some(seq![JsonValue::Str(ls[k].0), JsonValue::Str(ls[k].1)]));
        if let (Ok(p), Ok(q)) = (slow::fixed_text(ls[k].0), slow::fixed_text(ls[k].1)) {
            lemma_levels_doc(ls, k + 1, acc.push((p, q)));
        }
    }
}

/// A field that holds levels.
pub open spec fn levels_field(name: Seq<char>, ls: Seq<LevelText>) -> Field {
    Field {
        name,
        text: seq![0x5bu8] + wire::list_from(levels::level_frames(ls), 0),
        value: JsonValue::Arr(levels::level_docs(ls)),
    }
}

/// What a snapshot says. Texts are as the venue writes them: without quotes
/// and backslashes.
pub struct SnapshotText {
    pub product: Seq<char>,
    pub asks: Seq<LevelText>,
    pub bids: Seq<LevelText>,
    pub time: Seq<char>,
}

impl SnapshotText {
    /// The texts need no escapes.
    pub open spec fn writable(self) -> bool {
        &&& wire::plain(encode_utf8(self.product))
        &&& wire::plain(encode_utf8(self.time))
        &&& levels::levels_writable(self.asks)
        &&& levels::levels_writable(self.bids)
    }

    /// The fields of the message.
    pub open spec fn fields(self) -> Seq<Field> {
        seq![
            object::str_field("type"@, "snapshot"@),
            object::str_field("product_id"@, self.product),
            levels_field("asks"@, self.asks),
            levels_field("bids"@, self.bids),
            object::str_field("time"@, self.time),
        ]
    }

    /// The message.
    pub open spec fn frame(self) -> Seq<u8> {
        object::text_of(self.fields())
    }

    /// What the message says of the instruments of `table`.
    pub open spec fn said(self, table: Seq<(Seq<u8>, u32)>) -> Result<Msg, CodecError> {
        match said_time(self.time) {
            Err(e) => Err(e),
            Ok(ts) => match said_product(self.product, table) {
                Err(e) => Err(e),
                Ok(instrument) => match levels::said_levels(self.bids, 0, Seq::empty()) {
                    Err(e) => Err(e),
                    Ok(bids) => match levels::said_levels(self.asks, 0, Seq::empty()) {
                        Err(e) => Err(e),
                        Ok(asks) => Ok(
                            Msg::Snapshot(
                                Snapshot { instrument, ts, seq: 0, rest: false, bids, asks },
                            ),
                        ),
                    },
                },
            },
        }
    }
}

/// The fields of a snapshot can be told apart.
proof fn lemma_snapshot_fields(f: SnapshotText)
    requires
        f.writable(),
    ensures
        object::sound(f.fields()),
        object::distinct(f.fields()),
{
    reveal(object::sound);
    reveal(object::distinct);
    lemma_types();
    lemma_key_type();
    lemma_key_product_id();
    lemma_key_asks();
    lemma_key_bids();
    lemma_key_time();
    object::lemma_str_keyless(codec::lit("snapshot"));
    object::lemma_str_keyless(encode_utf8(f.product));
    levels::lemma_levels_keyless(f.asks);
    levels::lemma_levels_keyless(f.bids);
    object::lemma_str_keyless(encode_utf8(f.time));
}

/// A snapshot is read as what it says.
proof fn lemma_snapshot_read(f: SnapshotText, table: Seq<(Seq<u8>, u32)>)
    requires
        f.writable(),
    ensures
        fast::fast_msg(f.frame(), table) == f.said(table),
{
    let fs = f.fields();
    lemma_snapshot_fields(f);
    lemma_types();
    lemma_type(fs, "snapshot"@);
    lemma_key_product_id();
    lemma_key_asks();
    lemma_key_bids();
    lemma_key_time();
    lemma_str(fs, 0, 0, 4, encode_utf8(f.time), "time");
    lemma_str(fs, 0, 0, 1, encode_utf8(f.product), "product_id");
    object::lemma_first(fs, 0, 0, 2);
    object::lemma_first(fs, 0, 0, 3);
    object::lemma_field(fs, 2);
    object::lemma_field(fs, 3);
    lemma_level_array_read(f.frame(), object::value_at(fs, 2), f.asks);
    lemma_level_array_read(f.frame(), object::value_at(fs, 3), f.bids);
    reveal(fast::snapshot_msg);
}

/// What the document of a snapshot holds.
proof fn lemma_snapshot_members(f: SnapshotText, v: JsonValue)
    requires
        object::is_doc(v, f.fields()),
    ensures
        json::member(v, "type"@) == Some(f.fields()[0].value),
        json::member(v, "product_id"@) == Some(f.fields()[1].value),
        json::member(v, "asks"@) == Some(f.fields()[2].value),
        json::member(v, "bids"@) == Some(f.fields()[3].value),
        json::member(v, "time"@) == Some(f.fields()[4].value),
{
    let fs = f.fields();
    assert(json::member(v, fs[0].name) == Some(fs[0].value));
    assert(json::member(v, fs[1].name) == Some(fs[1].value));
    assert(json::member(v, fs[2].name) == Some(fs[2].value));
    assert(json::member(v, fs[3].name) == Some(fs[3].value));
    assert(json::member(v, fs[4].name) == Some(fs[4].value));
}

/// The document of a snapshot says what the message says.
proof fn lemma_snapshot_doc(f: SnapshotText, v: JsonValue, table: Seq<(Seq<u8>, u32)>)
    requires
        object::is_doc(v, f.fields()),
    ensures
        slow::doc_msg(v, table) == f.said(table),
{
    lemma_snapshot_members(f, v);
    lemma_snapshot_said(f, v, table);
    lemma_type_texts();
}

/// The fields of a snapshot's document say what the message says.
proof fn lemma_snapshot_said(f: SnapshotText, v: JsonValue, table: Seq<(Seq<u8>, u32)>)
    requires
        json::member(v, "product_id"@) == Some(f.fields()[1].value),
        json::member(v, "asks"@) == Some(f.fields()[2].value),
        json::member(v, "bids"@) == Some(f.fields()[3].value),
        json::member(v, "time"@) == Some(f.fields()[4].value),
    ensures
        slow::snapshot_doc(v, table) == f.said(table),
{
    lemma_levels_doc(f.asks, 0, Seq::empty());
    lemma_levels_doc(f.bids, 0, Seq::empty());
}

/// Both paths read every snapshot alike, and as what it says. (The slow path
/// reads the document `v` that the JSON parser makes of the message.)
pub proof fn lemma_snapshot_paths_agree(f: SnapshotText, v: JsonValue, table: Seq<(Seq<u8>, u32)>)
    requires
        f.writable(),
    ensures
        fast::fast_msg(f.frame(), table) == f.said(table),
        object::is_doc(v, f.fields()) ==> slow::doc_msg(v, table) == f.said(table),
        json::json_of(f.frame()) == Ok::<JsonValue, Seq<char>>(v) && object::is_doc(v, f.fields())
            ==> slow::slow_msg(f.frame(), table) == fast::fast_msg(f.frame(), table),
{
    lemma_snapshot_read(f, table);
    if object::is_doc(v, f.fields()) {
        lemma_snapshot_doc(f, v, table);
    }
}

/// A type is told alike from its bytes and from its characters.
proof fn lemma_type_told(ty: Seq<char>, name: &'static str)
    ensures
        (encode_utf8(ty) == codec::lit(name)) == (ty == name@),
{
    if encode_utf8(ty) == codec::lit(name) {
        json::lemma_utf8_injective(ty, name@);
    }
}

/// Both paths read every message of another type alike, and as what the type
/// says: whatever the fields behind the type hold.
pub proof fn lemma_other_paths_agree(
    fs: Seq<Field>,
    ty: Seq<char>,
    v: JsonValue,
    table: Seq<(Seq<u8>, u32)>,
)
    requires
        fs.len() > 0,
        fs[0] == object::str_field("type"@, ty),
        wire::plain(encode_utf8(ty)),
        ty != "l2update"@,
        ty != "match"@,
        ty != "last_match"@,
        ty != "heartbeat"@,
        ty != "snapshot"@,
    ensures
        fast::fast_msg(object::text_of(fs), table) == Ok::<Msg, CodecError>(
            if ty == "subscriptions"@ || ty == "error"@ {
                Msg::Control
            } else {
                Msg::Ignored
            },
        ),
        json::json_of(object::text_of(fs)) == Ok::<JsonValue, Seq<char>>(v) && object::is_doc(v, fs)
            ==> slow::slow_msg(object::text_of(fs), table) == fast::fast_msg(
            object::text_of(fs),
            table,
        ),
{
    lemma_type(fs, ty);
    lemma_type_told(ty, "l2update");
    lemma_type_told(ty, "match");
    lemma_type_told(ty, "last_match");
    lemma_type_told(ty, "heartbeat");
    lemma_type_told(ty, "snapshot");
    lemma_type_told(ty, "subscriptions");
    lemma_type_told(ty, "error");
    if object::is_doc(v, fs) {
        assert(json::member(v, fs[0].name) == Some(fs[0].value));
    }
}

} // verus!
