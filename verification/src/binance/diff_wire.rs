//! What Binance writes of a depth diff, and that both paths read it alike.
use super::fast;
use super::msg;
use super::msg::{DiffHead, Msg};
use super::slow;
use crate::codec;
use crate::codec::CodecError;
use crate::json;
use crate::json::JsonValue;
use crate::levels;
use crate::levels::LevelText;
use crate::scan;
use crate::text;
use crate::wire;
use vstd::prelude::*;
use vstd::utf8::*;

verus! {

/// What a diff frame says. Texts are as the venue writes them: without quotes
/// and backslashes.
pub struct DiffText {
    pub stream: Seq<char>,
    pub event_ms: u64,
    pub symbol: Seq<char>,
    pub first_u: u64,
    pub final_u: u64,
    pub bids: Seq<LevelText>,
    pub asks: Seq<LevelText>,
}

impl DiffText {
    /// The texts need no escapes.
    pub open spec fn writable(self) -> bool {
        &&& wire::plain(encode_utf8(self.stream))
        &&& wire::plain(encode_utf8(self.symbol))
        &&& levels::levels_writable(self.bids)
        &&& levels::levels_writable(self.asks)
    }

    /// The parts of the frame.
    pub open spec fn parts(self) -> Seq<Seq<u8>> {
        seq![
            codec::lit("{\"stream\":\""),
            encode_utf8(self.stream),
            codec::lit("\","),
            codec::lit("\"data\":{\"e\":\""),
            codec::lit("depthUpdate\",\"E\":"),
            text::dec_bytes(self.event_ms as nat),
            codec::lit(",\"s\":\""),
            encode_utf8(self.symbol),
            codec::lit("\",\"U\":"),
            text::dec_bytes(self.first_u as nat),
            codec::lit(",\"u\":"),
            text::dec_bytes(self.final_u as nat),
            codec::lit(",\"b\":["),
            wire::list_from(levels::level_frames(self.bids), 0),
            codec::lit(",\"a\":["),
            wire::list_from(levels::level_frames(self.asks), 0),
            codec::lit("}}"),
        ]
    }

    /// The frame.
    pub open spec fn frame(self) -> Seq<u8> {
        wire::joined(self.parts())
    }

    /// The document `v` is that of the frame, in whatever order its members
    /// stand.
    pub open spec fn is_doc(self, v: JsonValue) -> bool {
        &&& super::wire::is_envelope(v, self.stream, "depthUpdate"@)
        &&& json::member(v, "data"@) matches Some(d) && {
            &&& json::member(d, "E"@) == Some(json::number(self.event_ms))
            &&& json::member(d, "s"@) == Some(JsonValue::Str(self.symbol))
            &&& json::member(d, "U"@) == Some(json::number(self.first_u))
            &&& json::member(d, "u"@) == Some(json::number(self.final_u))
            &&& json::member(d, "b"@) == Some(JsonValue::Arr(levels::level_docs(self.bids)))
            &&& json::member(d, "a"@) == Some(JsonValue::Arr(levels::level_docs(self.asks)))
        }
    }

    /// What the frame says of the instruments of `table`.
    pub open spec fn said(self, table: Seq<(Seq<u8>, u32)>) -> Result<Msg, CodecError> {
        match codec::lookup_in(table, encode_utf8(self.symbol)) {
            None => Err(CodecError::UnknownInstrument),
            Some(instrument) => match levels::said_levels(self.bids, 0, Seq::empty()) {
                Err(e) => Err(e),
                Ok(bids) => match levels::said_levels(self.asks, 0, Seq::empty()) {
                    Err(e) => Err(e),
                    Ok(asks) => Ok(
                        Msg::Diff(
                            DiffHead {
                                instrument,
                                first_u: self.first_u,
                                final_u: self.final_u,
                                ts: msg::ms_to_ns(self.event_ms),
                            },
                            bids,
                            asks,
                        ),
                    ),
                },
            },
        }
    }
}

/// The mark of an event time.
proof fn lemma_mark_event(b: Seq<u8>, at: int)
    requires
        scan::occurs_at(b, codec::lit("depthUpdate\",\"E\":"), at),
    ensures
        codec::lit("depthUpdate\",\"E\":").len() == 17,
        0 <= at,
        at + 17 <= b.len(),
        b[at] == 0x64,
        b[at + 16] == 0x3a,
        scan::past(b, at + 0, codec::lit("\"E\":")) == Some(at + 17),
{
    reveal_strlit("depthUpdate\",\"E\":");
    reveal_strlit("\"E\":");
    is_ascii_chars_encode_utf8("depthUpdate\",\"E\":"@);
    is_ascii_chars_encode_utf8("\"E\":"@);
    let m = codec::lit("depthUpdate\",\"E\":");
    let k = codec::lit("\"E\":");
    assert(m =~= seq![0x64u8, 0x65, 0x70, 0x74, 0x68, 0x55, 0x70, 0x64, 0x61, 0x74, 0x65, 0x22, 0x2c, 0x22, 0x45, 0x22, 0x3a]);
    assert(k =~= seq![0x22u8, 0x45, 0x22, 0x3a]);
    wire::lemma_occurs_bytes(b, m, at);
    assert(b[at] == m[0] && b[at + 16] == m[16]);
    assert(m.subrange(13, 17) =~= k);
    wire::lemma_key_in_mark(b, at, m, k, 0, 13);
}

/// The mark of a symbol.
proof fn lemma_mark_symbol(b: Seq<u8>, at: int)
    requires
        scan::occurs_at(b, codec::lit(",\"s\":\""), at),
    ensures
        codec::lit(",\"s\":\"").len() == 6,
        0 <= at,
        at + 6 <= b.len(),
        b[at] == 0x2c,
        b[at + 5] == 0x22,
        scan::past(b, at + 0, codec::lit("\"s\":")) == Some(at + 5),
{
    reveal_strlit(",\"s\":\"");
    reveal_strlit("\"s\":");
    is_ascii_chars_encode_utf8(",\"s\":\""@);
    is_ascii_chars_encode_utf8("\"s\":"@);
    let m = codec::lit(",\"s\":\"");
    let k = codec::lit("\"s\":");
    assert(m =~= seq![0x2cu8, 0x22, 0x73, 0x22, 0x3a, 0x22]);
    assert(k =~= seq![0x22u8, 0x73, 0x22, 0x3a]);
    wire::lemma_occurs_bytes(b, m, at);
    assert(b[at] == m[0] && b[at + 5] == m[5]);
    assert(m.subrange(1, 5) =~= k);
    wire::lemma_key_in_mark(b, at, m, k, 0, 1);
}

/// The mark of the first update id.
proof fn lemma_mark_first(b: Seq<u8>, at: int)
    requires
        scan::occurs_at(b, codec::lit("\",\"U\":"), at),
    ensures
        codec::lit("\",\"U\":").len() == 6,
        0 <= at,
        at + 6 <= b.len(),
        b[at] == 0x22,
        b[at + 5] == 0x3a,
        scan::past(b, at + 1, codec::lit("\"U\":")) == Some(at + 6),
{
    reveal_strlit("\",\"U\":");
    reveal_strlit("\"U\":");
    is_ascii_chars_encode_utf8("\",\"U\":"@);
    is_ascii_chars_encode_utf8("\"U\":"@);
    let m = codec::lit("\",\"U\":");
    let k = codec::lit("\"U\":");
    assert(m =~= seq![0x22u8, 0x2c, 0x22, 0x55, 0x22, 0x3a]);
    assert(k =~= seq![0x22u8, 0x55, 0x22, 0x3a]);
    wire::lemma_occurs_bytes(b, m, at);
    assert(b[at] == m[0] && b[at + 5] == m[5]);
    assert(m.subrange(2, 6) =~= k);
    wire::lemma_key_in_mark(b, at, m, k, 1, 2);
}

/// The mark of the final update id.
proof fn lemma_mark_final(b: Seq<u8>, at: int)
    requires
        scan::occurs_at(b, codec::lit(",\"u\":"), at),
    ensures
        codec::lit(",\"u\":").len() == 5,
        0 <= at,
        at + 5 <= b.len(),
        b[at] == 0x2c,
        b[at + 4] == 0x3a,
        scan::past(b, at + 0, codec::lit("\"u\":")) == Some(at + 5),
{
    reveal_strlit(",\"u\":");
    reveal_strlit("\"u\":");
    is_ascii_chars_encode_utf8(",\"u\":"@);
    is_ascii_chars_encode_utf8("\"u\":"@);
    let m = codec::lit(",\"u\":");
    let k = codec::lit("\"u\":");
    assert(m =~= seq![0x2cu8, 0x22, 0x75, 0x22, 0x3a]);
    assert(k =~= seq![0x22u8, 0x75, 0x22, 0x3a]);
    wire::lemma_occurs_bytes(b, m, at);
    assert(b[at] == m[0] && b[at + 4] == m[4]);
    assert(m.subrange(1, 5) =~= k);
    wire::lemma_key_in_mark(b, at, m, k, 0, 1);
}

/// The mark of the bids.
proof fn lemma_mark_bids(b: Seq<u8>, at: int)
    requires
        scan::occurs_at(b, codec::lit(",\"b\":["), at),
    ensures
        codec::lit(",\"b\":[").len() == 6,
        0 <= at,
        at + 6 <= b.len(),
        b[at] == 0x2c,
        b[at + 5] == 0x5b,
        scan::past(b, at + 0, codec::lit("\"b\":[")) == Some(at + 6),
{
    reveal_strlit(",\"b\":[");
    reveal_strlit("\"b\":[");
    is_ascii_chars_encode_utf8(",\"b\":["@);
    is_ascii_chars_encode_utf8("\"b\":["@);
    let m = codec::lit(",\"b\":[");
    let k = codec::lit("\"b\":[");
    assert(m =~= seq![0x2cu8, 0x22, 0x62, 0x22, 0x3a, 0x5b]);
    assert(k =~= seq![0x22u8, 0x62, 0x22, 0x3a, 0x5b]);
    wire::lemma_occurs_bytes(b, m, at);
    assert(b[at] == m[0] && b[at + 5] == m[5]);
    assert(m.subrange(1, 6) =~= k);
    wire::lemma_key_in_mark(b, at, m, k, 0, 1);
}

/// The mark of the asks.
proof fn lemma_mark_asks(b: Seq<u8>, at: int)
    requires
        scan::occurs_at(b, codec::lit(",\"a\":["), at),
    ensures
        codec::lit(",\"a\":[").len() == 6,
        0 <= at,
        at + 6 <= b.len(),
        b[at] == 0x2c,
        b[at + 5] == 0x5b,
        scan::past(b, at + 0, codec::lit("\"a\":[")) == Some(at + 6),
{
    reveal_strlit(",\"a\":[");
    reveal_strlit("\"a\":[");
    is_ascii_chars_encode_utf8(",\"a\":["@);
    is_ascii_chars_encode_utf8("\"a\":["@);
    let m = codec::lit(",\"a\":[");
    let k = codec::lit("\"a\":[");
    assert(m =~= seq![0x2cu8, 0x22, 0x61, 0x22, 0x3a, 0x5b]);
    assert(k =~= seq![0x22u8, 0x61, 0x22, 0x3a, 0x5b]);
    wire::lemma_occurs_bytes(b, m, at);
    assert(b[at] == m[0] && b[at + 5] == m[5]);
    assert(m.subrange(1, 6) =~= k);
    wire::lemma_key_in_mark(b, at, m, k, 0, 1);
}

/// A diff is told by its name.
proof fn lemma_diff_name(b: Seq<u8>, e: int)
    requires
        scan::occurs_at(b, codec::lit("depthUpdate\",\"E\":"), e),
    ensures
        scan::occurs_at(b, codec::lit("depthUpdate\""), e),
{
    let m = codec::lit("depthUpdate\",\"E\":");
    let n = codec::lit("depthUpdate\"");
    reveal_strlit("depthUpdate\",\"E\":");
    reveal_strlit("depthUpdate\"");
    is_ascii_chars_encode_utf8("depthUpdate\",\"E\":"@);
    is_ascii_chars_encode_utf8("depthUpdate\""@);
    assert(m.subrange(0, 12) =~= n);
    wire::lemma_occurs_in(b, m, e, n, 0);
}

/// A level is read as what it says.
proof fn lemma_level_read(b: Seq<u8>, i: int, l: LevelText)
    requires
        scan::occurs_at(b, levels::level_frame(l), i),
        levels::level_writable(l),
    ensures
        fast::level_at(b, i) == (match codec::fixed_pair_spec(encode_utf8(l.0), encode_utf8(l.1)) {
            Err(e) => Err::<((i64, i64), int), CodecError>(e),
            Ok(x) => Ok((x, i + levels::level_frame(l).len())),
        }),
{
    levels::lemma_level_bytes(b, i, l);
    reveal(fast::level_at);
}

/// The levels from `k` on are read as what they say.
proof fn lemma_levels_read(b: Seq<u8>, i: int, ls: Seq<LevelText>, k: int, acc: Seq<(i64, i64)>)
    requires
        0 <= k < ls.len(),
        levels::levels_writable(ls),
        scan::occurs_at(b, wire::list_from(levels::level_frames(ls), k), i),
    ensures
        fast::levels_at(b, i, acc) == (match levels::said_levels(ls, k, acc) {
            Err(e) => Err::<(Seq<(i64, i64)>, int), CodecError>(e),
            Ok(x) => Ok((x, i + wire::list_from(levels::level_frames(ls), k).len())),
        }),
    decreases ls.len() - k,
{
    let items = levels::level_frames(ls);
    let j = i + items[k].len();
    wire::lemma_list_item(b, i, items, k);
    lemma_level_read(b, i, ls[k]);
    match codec::fixed_pair_spec(encode_utf8(ls[k].0), encode_utf8(ls[k].1)) {
        Err(_) => {},
        Ok(x) => {
            if k + 1 < ls.len() {
                lemma_levels_read(b, j + 1, ls, k + 1, acc.push(x));
            } else {
                assert(levels::said_levels(ls, k + 1, acc.push(x)) == Ok::<Seq<(i64, i64)>, CodecError>(
                    acc.push(x),
                ));
            }
        },
    }
}

/// A level array is read as what it says.
proof fn lemma_array_read(b: Seq<u8>, i: int, ls: Seq<LevelText>)
    requires
        levels::levels_writable(ls),
        scan::occurs_at(b, wire::list_from(levels::level_frames(ls), 0), i),
    ensures
        fast::level_array_at(b, i) == (match levels::said_levels(ls, 0, Seq::empty()) {
            Err(e) => Err::<(Seq<(i64, i64)>, int), CodecError>(e),
            Ok(x) => Ok((x, i + wire::list_from(levels::level_frames(ls), 0).len())),
        }),
{
    let items = levels::level_frames(ls);
    if ls.len() > 0 {
        wire::lemma_list_item(b, i, items, 0);
        levels::lemma_level_bytes(b, i, ls[0]);
        lemma_levels_read(b, i, ls, 0, Seq::empty());
    } else {
        wire::lemma_list_empty(b, i, items);
    }
}

/// The header of a diff frame is read as it stands.
#[verifier::rlimit(60)]
proof fn lemma_head_read(f: DiffText, table: Seq<(Seq<u8>, u32)>)
    requires
        f.writable(),
    ensures
        wire::part_start(f.parts(), 4) == 26 + encode_utf8(f.stream).len(),
        fast::diff_head_at(f.frame(), wire::part_start(f.parts(), 4), table) == (
        match codec::lookup_in(table, encode_utf8(f.symbol)) {
            None => Err::<(DiffHead, int), CodecError>(CodecError::UnknownInstrument),
            Some(instrument) => Ok(
                (
                    DiffHead {
                        instrument,
                        first_u: f.first_u,
                        final_u: f.final_u,
                        ts: msg::ms_to_ns(f.event_ms),
                    },
                    wire::part_start(f.parts(), 12),
                ),
            ),
        }),
{
    let ps = f.parts();
    let b = f.frame();
    wire::lemma_joined(ps, 0);
    wire::lemma_joined(ps, 1);
    wire::lemma_joined(ps, 2);
    wire::lemma_joined(ps, 3);
    wire::lemma_joined(ps, 4);
    wire::lemma_joined(ps, 5);
    wire::lemma_joined(ps, 6);
    wire::lemma_joined(ps, 7);
    wire::lemma_joined(ps, 8);
    wire::lemma_joined(ps, 9);
    wire::lemma_joined(ps, 10);
    wire::lemma_joined(ps, 11);
    wire::lemma_joined(ps, 12);
    let o4 = wire::part_start(ps, 4);
    let o5 = wire::part_start(ps, 5);
    let o6 = wire::part_start(ps, 6);
    let o7 = wire::part_start(ps, 7);
    let o8 = wire::part_start(ps, 8);
    let o9 = wire::part_start(ps, 9);
    let o10 = wire::part_start(ps, 10);
    let o11 = wire::part_start(ps, 11);
    let o12 = wire::part_start(ps, 12);
    assert(wire::part_start(ps, 0) == 0);
    assert(wire::part_start(ps, 4) == 26 + encode_utf8(f.stream).len()) by {
        super::wire::lemma_lit_stream();
        super::wire::lemma_lit_end();
        super::wire::lemma_lit_data();
    }
    lemma_mark_event(b, o4);
    lemma_mark_symbol(b, o6);
    lemma_mark_first(b, o8);
    lemma_mark_final(b, o10);
    lemma_mark_bids(b, o12);
    wire::lemma_u64_at_is(b, o5, f.event_ms);
    wire::lemma_str_at_is(b, o6 + 5, encode_utf8(f.symbol));
    wire::lemma_u64_at_is(b, o9, f.first_u);
    wire::lemma_u64_at_is(b, o11, f.final_u);
    reveal(fast::diff_head_at);
}

/// A diff frame is read as what it says.
#[verifier::rlimit(60)]
proof fn lemma_diff_read(f: DiffText, table: Seq<(Seq<u8>, u32)>)
    requires
        f.writable(),
    ensures
        fast::fast_msg(f.frame(), table) == f.said(table),
{
    let ps = f.parts();
    let b = f.frame();
    wire::lemma_joined(ps, 0);
    wire::lemma_joined(ps, 1);
    wire::lemma_joined(ps, 2);
    wire::lemma_joined(ps, 3);
    wire::lemma_joined(ps, 4);
    wire::lemma_joined(ps, 12);
    wire::lemma_joined(ps, 13);
    wire::lemma_joined(ps, 14);
    wire::lemma_joined(ps, 15);
    let o3 = wire::part_start(ps, 3);
    let o4 = wire::part_start(ps, 4);
    let o12 = wire::part_start(ps, 12);
    let o13 = wire::part_start(ps, 13);
    let o14 = wire::part_start(ps, 14);
    let o15 = wire::part_start(ps, 15);
    assert(wire::part_start(ps, 0) == 0);
    assert(codec::lit("{\"stream\":\"").len() == 11 && codec::lit("\",").len() == 2
        && codec::lit("\"data\":{\"e\":\"").len() == 13) by {
        super::wire::lemma_lit_stream();
        super::wire::lemma_lit_end();
        super::wire::lemma_lit_data();
    }
    super::wire::lemma_envelope(b, encode_utf8(f.stream), o3);
    lemma_diff_name(b, o4);
    lemma_head_read(f, table);
    lemma_mark_bids(b, o12);
    lemma_mark_asks(b, o14);
    lemma_array_read(b, o13, f.bids);
    lemma_array_read(b, o15, f.asks);
}

/// The documents of the levels say what the levels say.
proof fn lemma_levels_doc(ls: Seq<LevelText>, k: int, acc: Seq<(i64, i64)>)
    requires
        0 <= k <= ls.len(),
    ensures
        slow::level_values(levels::level_docs(ls), k, acc) == levels::said_levels(ls, k, acc),
    decreases ls.len() - k,
{
    if k < ls.len() {
        let v = levels::level_docs(ls)[k];
        assert(v == levels::level_doc(ls[k]));
        assert(json::arr_of(v) == Some(seq![JsonValue::Str(ls[k].0), JsonValue::Str(ls[k].1)]));
        match codec::fixed_pair_spec(encode_utf8(ls[k].0), encode_utf8(ls[k].1)) {
            Err(_) => {},
            Ok(x) => {
                lemma_levels_doc(ls, k + 1, acc.push(x));
            },
        }
    }
}

/// The document of a diff frame says what the frame says.
proof fn lemma_diff_doc(f: DiffText, v: JsonValue, table: Seq<(Seq<u8>, u32)>)
    requires
        f.is_doc(v),
    ensures
        slow::doc_msg(v, table) == f.said(table),
{
    lemma_levels_doc(f.bids, 0, Seq::empty());
    lemma_levels_doc(f.asks, 0, Seq::empty());
}

/// Both paths read every diff frame alike, and as what it says: whatever the
/// symbol and the levels, exact or not. (The slow path reads the document `v`
/// that the JSON parser makes of the frame.)
pub proof fn lemma_diff_paths_agree(f: DiffText, v: JsonValue, table: Seq<(Seq<u8>, u32)>)
    requires
        f.writable(),
    ensures
        fast::fast_msg(f.frame(), table) == f.said(table),
        f.is_doc(v) ==> slow::doc_msg(v, table) == f.said(table),
        json::json_of(f.frame()) == Ok::<JsonValue, Seq<char>>(v) && f.is_doc(v)
            ==> slow::slow_msg(f.frame(), table) == fast::fast_msg(f.frame(), table),
{
    lemma_diff_read(f, table);
    if f.is_doc(v) {
        lemma_diff_doc(f, v, table);
    }
}

} // verus!
