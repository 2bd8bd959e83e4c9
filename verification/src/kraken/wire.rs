//! What Kraken writes of books, and that both paths read it alike.
use super::frame;
use super::frame::{BookEntry, Frame};
use super::slow;
use crate::codec;
use crate::codec::CodecError;
use crate::json;
use crate::json::JsonValue;
use crate::levels;
use crate::levels::LevelText;
use crate::object;
use crate::object::Field;
use crate::scan;
use crate::text;
use crate::wire;
use vstd::prelude::*;
use vstd::utf8::*;

verus! {

/// The literal `s` is ASCII and starts with `c`.
pub open spec fn starts(s: &str, c: u8) -> bool {
    codec::lit(s).len() > 0 && codec::lit(s)[0] == c && text::all_ascii(codec::lit(s))
}

/// The text of a number: digits, signs, points and exponents.
pub open spec fn numeric(s: Seq<char>) -> bool {
    let b = encode_utf8(s);
    b.len() > 0 && forall|i: int| 0 <= i < b.len() ==> scan::is_num(#[trigger] b[i])
}

/// The numbers of the levels are texts of numbers.
pub open spec fn levels_numeric(ls: Seq<LevelText>) -> bool {
    forall|i: int| 0 <= i < ls.len() ==> numeric((#[trigger] ls[i]).0) && numeric(ls[i].1)
}

/// Two readings are alike: they read the same, or both fail.
pub open spec fn alike<T>(a: Result<T, CodecError>, b: Result<T, CodecError>) -> bool {
    a is Ok || b is Ok ==> a == b
}

/// Two readings are alike, and the same where they have to be.
pub open spec fn agree<T>(
    a: Result<T, CodecError>,
    b: Result<T, CodecError>,
    same: bool,
) -> bool {
    alike(a, b) && (same ==> a == b)
}

/// The mark of a price of a level.
pub(crate) proof fn lemma_lit_price()
    ensures
        starts("{\"price\":", 0x7b),
{
    reveal_strlit("{\"price\":");
    is_ascii_chars_encode_utf8("{\"price\":"@);
}

/// The mark of a quantity.
pub(crate) proof fn lemma_lit_qty()
    ensures
        starts(",\"qty\":", 0x2c),
{
    reveal_strlit(",\"qty\":");
    is_ascii_chars_encode_utf8(",\"qty\":"@);
}

/// The mark that closes an object.
pub(crate) proof fn lemma_lit_close()
    ensures
        starts("}", 0x7d),
{
    reveal_strlit("}");
    is_ascii_chars_encode_utf8("}"@);
}

/// The mark of a symbol.
pub(crate) proof fn lemma_lit_symbol()
    ensures
        starts("{\"symbol\":", 0x7b),
{
    reveal_strlit("{\"symbol\":");
    is_ascii_chars_encode_utf8("{\"symbol\":"@);
}

/// The mark of the bids.
pub(crate) proof fn lemma_lit_bids()
    ensures
        starts(",\"bids\":[", 0x2c),
{
    reveal_strlit(",\"bids\":[");
    is_ascii_chars_encode_utf8(",\"bids\":["@);
}

/// The mark of the asks.
pub(crate) proof fn lemma_lit_asks()
    ensures
        starts(",\"asks\":[", 0x2c),
{
    reveal_strlit(",\"asks\":[");
    is_ascii_chars_encode_utf8(",\"asks\":["@);
}

/// The mark of a checksum.
pub(crate) proof fn lemma_lit_checksum()
    ensures
        starts(",\"checksum\":", 0x2c),
{
    reveal_strlit(",\"checksum\":");
    is_ascii_chars_encode_utf8(",\"checksum\":"@);
}

/// The mark of a timestamp.
pub(crate) proof fn lemma_lit_timestamp()
    ensures
        starts(",\"timestamp\":", 0x2c),
{
    reveal_strlit(",\"timestamp\":");
    is_ascii_chars_encode_utf8(",\"timestamp\":"@);
}

/// The mark of the data.
pub(crate) proof fn lemma_lit_data()
    ensures
        starts(",\"data\":", 0x2c),
{
    reveal_strlit(",\"data\":");
    is_ascii_chars_encode_utf8(",\"data\":"@);
}

/// The mark that opens a list.
pub(crate) proof fn lemma_lit_list()
    ensures
        starts("[", 0x5b),
{
    reveal_strlit("[");
    is_ascii_chars_encode_utf8("["@);
}

/// The pieces of a level as it is written.
pub open spec fn level_parts(l: LevelText) -> Seq<Seq<u8>> {
    seq![
        codec::lit("{\"price\":"),
        encode_utf8(l.0),
        codec::lit(",\"qty\":"),
        encode_utf8(l.1),
        codec::lit("}"),
    ]
}

/// The level as it is written: `{"price":<number>,"qty":<number>}`.
pub open spec fn level_frame(l: LevelText) -> Seq<u8> {
    wire::joined(level_parts(l))
}

/// The levels as they are written.
pub open spec fn level_frames(ls: Seq<LevelText>) -> Seq<Seq<u8>> {
    Seq::new(ls.len(), |i: int| level_frame(ls[i]))
}

/// The pieces of a level stand one behind the other.
proof fn lemma_level_pieces(b: Seq<u8>, i: int, l: LevelText)
    requires
        scan::occurs_at(b, level_frame(l), i),
    ensures
        wire::part_start(level_parts(l), 0) == 0,
        wire::part_start(level_parts(l), 1) == codec::lit("{\"price\":").len(),
        wire::part_start(level_parts(l), 2) == wire::part_start(level_parts(l), 1) + encode_utf8(
            l.0,
        ).len(),
        wire::part_start(level_parts(l), 3) == wire::part_start(level_parts(l), 2) + codec::lit(
            ",\"qty\":",
        ).len(),
        wire::part_start(level_parts(l), 4) == wire::part_start(level_parts(l), 3) + encode_utf8(
            l.1,
        ).len(),
        level_frame(l).len() == wire::part_start(level_parts(l), 4) + codec::lit("}").len(),
        scan::occurs_at(b, codec::lit("{\"price\":"), i),
        scan::occurs_at(b, encode_utf8(l.0), i + wire::part_start(level_parts(l), 1)),
        scan::occurs_at(b, codec::lit(",\"qty\":"), i + wire::part_start(level_parts(l), 2)),
        scan::occurs_at(b, encode_utf8(l.1), i + wire::part_start(level_parts(l), 3)),
        scan::occurs_at(b, codec::lit("}"), i + wire::part_start(level_parts(l), 4)),
{
    let f = level_frame(l);
    let ps = level_parts(l);
    wire::lemma_joined(ps, 0);
    wire::lemma_joined(ps, 1);
    wire::lemma_joined(ps, 2);
    wire::lemma_joined(ps, 3);
    wire::lemma_joined(ps, 4);
    assert(wire::part_start(ps, 0) == 0);
    wire::lemma_occurs_in(b, f, i, ps[0], 0);
    wire::lemma_occurs_in(b, f, i, ps[1], wire::part_start(ps, 1));
    wire::lemma_occurs_in(b, f, i, ps[2], wire::part_start(ps, 2));
    wire::lemma_occurs_in(b, f, i, ps[3], wire::part_start(ps, 3));
    wire::lemma_occurs_in(b, f, i, ps[4], wire::part_start(ps, 4));
}

/// A literal starts with its first byte.
pub(crate) proof fn lemma_starts(b: Seq<u8>, i: int, s: &str, c: u8)
    requires
        starts(s, c),
        scan::occurs_at(b, codec::lit(s), i),
    ensures
        0 <= i < b.len(),
        b[i] == c,
{
    wire::lemma_occurs_bytes(b, codec::lit(s), i);
    assert(b[i] == codec::lit(s)[0]);
}

/// A level is read as what it says.
proof fn lemma_level_read(b: Seq<u8>, i: int, l: LevelText)
    requires
        scan::occurs_at(b, level_frame(l), i),
        numeric(l.0),
        numeric(l.1),
    ensures
        0 <= i < b.len(),
        b[i] == 0x7b,
        frame::level_at(b, i) == (match codec::fixed_pair_spec(
            encode_utf8(l.0),
            encode_utf8(l.1),
        ) {
            Err(e) => Err::<((i64, i64), int), CodecError>(e),
            Ok(x) => Ok((x, i + level_frame(l).len())),
        }),
{
    let ps = level_parts(l);
    let o1 = wire::part_start(ps, 1);
    let o2 = wire::part_start(ps, 2);
    let o3 = wire::part_start(ps, 3);
    let o4 = wire::part_start(ps, 4);
    lemma_level_pieces(b, i, l);
    lemma_lit_price();
    lemma_lit_qty();
    lemma_starts(b, i, "{\"price\":", 0x7b);
    lemma_starts(b, i + o2, ",\"qty\":", 0x2c);
    lemma_close(b, i + o4);
    wire::lemma_num_at_is(b, i + o1, encode_utf8(l.0));
    wire::lemma_num_at_is(b, i + o3, encode_utf8(l.1));
}

/// The levels from `k` on are read as what they say, from the byte behind the
/// level `k - 1` on.
proof fn lemma_levels_from(b: Seq<u8>, i: int, ls: Seq<LevelText>, k: int, acc: Seq<(i64, i64)>)
    requires
        levels_numeric(ls),
        0 < k <= ls.len(),
        acc.len() > 0,
        0 <= i < b.len(),
        k < ls.len() ==> b[i] == 0x2c && scan::occurs_at(
            b,
            wire::list_from(level_frames(ls), k),
            i + 1,
        ),
        k == ls.len() ==> b[i] == 0x5d,
    ensures
        frame::levels_at(b, i, acc) == (match levels::said_levels(ls, k, acc) {
            Err(e) => Err::<(Seq<(i64, i64)>, int), CodecError>(e),
            Ok(x) => Ok(
                (
                    x,
                    i + 1 + if k < ls.len() {
                        wire::list_from(level_frames(ls), k).len() as int
                    } else {
                        0
                    },
                ),
            ),
        }),
    decreases ls.len() - k,
{
    let items = level_frames(ls);
    if k < ls.len() {
        wire::lemma_list_item(b, i + 1, items, k);
        lemma_level_read(b, i + 1, ls[k]);
        match codec::fixed_pair_spec(encode_utf8(ls[k].0), encode_utf8(ls[k].1)) {
            Err(_) => {},
            Ok(x) => {
                lemma_levels_from(b, i + 1 + items[k].len(), ls, k + 1, acc.push(x));
            },
        }
    }
}

/// A level list is read as what it says.
proof fn lemma_levels_read(b: Seq<u8>, i: int, ls: Seq<LevelText>)
    requires
        levels_numeric(ls),
        scan::occurs_at(b, wire::list_from(level_frames(ls), 0), i),
    ensures
        frame::levels_at(b, i, Seq::empty()) == (match levels::said_levels(ls, 0, Seq::empty()) {
            Err(e) => Err::<(Seq<(i64, i64)>, int), CodecError>(e),
            Ok(x) => Ok((x, i + wire::list_from(level_frames(ls), 0).len())),
        }),
{
    let items = level_frames(ls);
    let none = Seq::<(i64, i64)>::empty();
    if ls.len() > 0 {
        wire::lemma_list_item(b, i, items, 0);
        lemma_level_read(b, i, ls[0]);
        match codec::fixed_pair_spec(encode_utf8(ls[0].0), encode_utf8(ls[0].1)) {
            Err(_) => {},
            Ok(x) => {
                lemma_levels_from(b, i + items[0].len(), ls, 1, none.push(x));
            },
        }
    } else {
        wire::lemma_list_empty(b, i, items);
    }
}

/// What a book entry says. Texts are as the venue writes them: without quotes
/// and backslashes.
pub struct EntryText {
    pub symbol: Seq<char>,
    pub bids: Seq<LevelText>,
    pub asks: Seq<LevelText>,
    pub checksum: u64,
    pub timestamp: Option<Seq<char>>,
}

impl EntryText {
    /// The texts need no escapes, and the numbers are numbers.
    pub open spec fn writable(self) -> bool {
        &&& wire::plain(encode_utf8(self.symbol))
        &&& levels_numeric(self.bids)
        &&& levels_numeric(self.asks)
        &&& self.timestamp matches Some(t) ==> wire::plain(encode_utf8(t))
    }

    /// The timestamp as it is written, if there is one.
    pub open spec fn timestamp_text(self) -> Seq<u8> {
        match self.timestamp {
            Some(t) => codec::lit(",\"timestamp\":") + object::quoted(encode_utf8(t)),
            None => Seq::empty(),
        }
    }

    /// The pieces of the entry as it is written.
    pub open spec fn parts(self) -> Seq<Seq<u8>> {
        seq![
            codec::lit("{\"symbol\":"),
            object::quoted(encode_utf8(self.symbol)),
            codec::lit(",\"bids\":["),
            wire::list_from(level_frames(self.bids), 0),
            codec::lit(",\"asks\":["),
            wire::list_from(level_frames(self.asks), 0),
            codec::lit(",\"checksum\":"),
            text::dec_bytes(self.checksum as nat),
            self.timestamp_text(),
            codec::lit("}"),
        ]
    }

    /// The entry as it is written.
    pub open spec fn frame(self) -> Seq<u8> {
        wire::joined(self.parts())
    }

    /// What the timestamp says: nothing in a snapshot.
    pub open spec fn said_ts(self, snapshot: bool) -> Result<u64, CodecError> {
        if snapshot {
            Ok(0)
        } else {
            match self.timestamp {
                None => Err(CodecError::Structure("update missing timestamp")),
                Some(t) => match scan::rfc3339_spec(encode_utf8(t)) {
                    None => Err(CodecError::Structure("bad timestamp")),
                    Some(ts) => Ok(ts),
                },
            }
        }
    }

    /// What the levels say.
    pub open spec fn said_sides(self) -> Result<(Seq<(i64, i64)>, Seq<(i64, i64)>), CodecError> {
        match levels::said_levels(self.bids, 0, Seq::empty()) {
            Err(e) => Err(e),
            Ok(bids) => match levels::said_levels(self.asks, 0, Seq::empty()) {
                Err(e) => Err(e),
                Ok(asks) => Ok((bids, asks)),
            },
        }
    }

    /// Both the timestamp and the levels are wrong.
    pub open spec fn wrong_twice(self, snapshot: bool) -> bool {
        self.said_ts(snapshot) is Err && self.said_sides() is Err
    }

    /// What the entry says of the instruments of `table`. A wrong timestamp
    /// counts before wrong levels.
    pub open spec fn said(self, table: Seq<(Seq<u8>, u32)>, snapshot: bool) -> Result<
        BookEntry,
        CodecError,
    > {
        match codec::lookup_in(table, encode_utf8(self.symbol)) {
            None => Err(CodecError::UnknownInstrument),
            Some(instrument) => match self.said_ts(snapshot) {
                Err(e) => Err(e),
                Ok(ts) => match self.said_sides() {
                    Err(e) => Err(e),
                    Ok((bids, asks)) => Ok(
                        BookEntry { instrument, bids, asks, checksum: self.checksum, ts },
                    ),
                },
            },
        }
    }

    /// The document `v` is that of the entry, with its numbers as text, in
    /// whatever order its members stand.
    pub open spec fn is_doc(self, v: JsonValue) -> bool {
        &&& json::str_member(v, "symbol"@) == Some(self.symbol)
        &&& json::arr_member(v, "bids"@) matches Some(a) && are_levels(a, self.bids)
        &&& json::arr_member(v, "asks"@) matches Some(a) && are_levels(a, self.asks)
        &&& json::u64_member(v, "checksum"@) == Some(self.checksum)
        &&& slow::opt_str(json::member(v, "timestamp"@)) == Some(self.timestamp)
    }
}

/// The documents `a` are those of the levels, with their numbers as text.
pub open spec fn are_levels(a: Seq<JsonValue>, ls: Seq<LevelText>) -> bool {
    a.len() == ls.len() && forall|i: int|
        0 <= i < ls.len() ==> slow::raw_level(#[trigger] a[i]) == Some(ls[i])
}

/// The timestamp of an entry is read as it stands.
proof fn lemma_timestamp_read(b: Seq<u8>, i: int, e: EntryText)
    requires
        e.writable(),
        scan::occurs_at(b, e.timestamp_text(), i),
        scan::occurs_at(b, codec::lit("}"), i + e.timestamp_text().len()),
    ensures
        0 <= i < b.len(),
        !text::is_digit(b[i]),
        frame::timestamp_at(b, i) == Ok::<(Option<Seq<u8>>, int), CodecError>(
            (
                match e.timestamp {
                    Some(t) => Some(encode_utf8(t)),
                    None => None,
                },
                i + e.timestamp_text().len(),
            ),
        ),
{
    let m = codec::lit(",\"timestamp\":");
    let f = e.timestamp_text();
    lemma_lit_timestamp();
    lemma_lit_close();
    wire::lemma_occurs_bytes(b, codec::lit("}"), i + f.len());
    assert(b[i + f.len()] == codec::lit("}")[0]);
    match e.timestamp {
        Some(t) => {
            let q = object::quoted(encode_utf8(t));
            let s = encode_utf8(t);
            assert(f.subrange(0, m.len() as int) =~= m);
            assert(f.subrange(m.len() as int, (m.len() + q.len()) as int) =~= q);
            wire::lemma_occurs_in(b, f, i, m, 0);
            wire::lemma_occurs_in(b, f, i, q, m.len() as int);
            wire::lemma_occurs_bytes(b, m, i);
            assert(b[i] == m[0]);
            object::lemma_quoted_read(b, i + m.len(), s);
        },
        None => {
            if scan::occurs_at(b, m, i) {
                wire::lemma_occurs_bytes(b, m, i);
                assert(b[i] == m[0]);
            }
        },
    }
}

/// The levels of an entry are read as what they say.
proof fn lemma_sides_read(b: Seq<u8>, i: int, e: EntryText)
    requires
        e.writable(),
        scan::occurs_at(b, codec::lit(",\"bids\":["), i),
        scan::occurs_at(
            b,
            wire::list_from(level_frames(e.bids), 0),
            i + codec::lit(",\"bids\":[").len(),
        ),
        scan::occurs_at(
            b,
            codec::lit(",\"asks\":["),
            i + codec::lit(",\"bids\":[").len() + wire::list_from(
                level_frames(e.bids),
                0,
            ).len(),
        ),
        scan::occurs_at(
            b,
            wire::list_from(level_frames(e.asks), 0),
            i + codec::lit(",\"bids\":[").len() + wire::list_from(level_frames(e.bids), 0).len()
                + codec::lit(",\"asks\":[").len(),
        ),
    ensures
        frame::sides_at(b, i) == (match e.said_sides() {
            Err(e) => Err::<(Seq<(i64, i64)>, Seq<(i64, i64)>, int), CodecError>(e),
            Ok((bids, asks)) => Ok(
                (
                    bids,
                    asks,
                    i + codec::lit(",\"bids\":[").len() + wire::list_from(
                        level_frames(e.bids),
                        0,
                    ).len() + codec::lit(",\"asks\":[").len() + wire::list_from(
                        level_frames(e.asks),
                        0,
                    ).len(),
                ),
            ),
        }),
{
    let o1 = i + codec::lit(",\"bids\":[").len();
    let o2 = o1 + wire::list_from(level_frames(e.bids), 0).len();
    let o3 = o2 + codec::lit(",\"asks\":[").len();
    lemma_levels_read(b, o1, e.bids);
    lemma_levels_read(b, o3, e.asks);
}

/// An entry is read as what it says: but where both its timestamp and its
/// levels are wrong, the levels count first.
#[verifier::rlimit(60)]
proof fn lemma_entry_read(
    b: Seq<u8>,
    i: int,
    e: EntryText,
    table: Seq<(Seq<u8>, u32)>,
    snapshot: bool,
)
    requires
        e.writable(),
        scan::occurs_at(b, e.frame(), i),
    ensures
        0 <= i < b.len(),
        b[i] == 0x7b,
        match frame::entry_at(b, i, table, snapshot) {
            Ok((x, j)) => e.said(table, snapshot) == Ok::<BookEntry, CodecError>(x) && j == i
                + e.frame().len(),
            Err(err) => e.said(table, snapshot) is Err && (!e.wrong_twice(snapshot) ==> e.said(
                table,
                snapshot,
            ) == Err::<BookEntry, CodecError>(err)),
        },
{
    let f = e.frame();
    let ps = e.parts();
    wire::lemma_joined(ps, 0);
    wire::lemma_joined(ps, 1);
    wire::lemma_joined(ps, 2);
    wire::lemma_joined(ps, 3);
    wire::lemma_joined(ps, 4);
    wire::lemma_joined(ps, 5);
    wire::lemma_joined(ps, 6);
    wire::lemma_joined(ps, 7);
    wire::lemma_joined(ps, 8);
    wire::lemma_joined(ps, 9);
    let o1 = wire::part_start(ps, 1);
    let o2 = wire::part_start(ps, 2);
    let o3 = wire::part_start(ps, 3);
    let o4 = wire::part_start(ps, 4);
    let o5 = wire::part_start(ps, 5);
    let o6 = wire::part_start(ps, 6);
    let o7 = wire::part_start(ps, 7);
    let o8 = wire::part_start(ps, 8);
    let o9 = wire::part_start(ps, 9);
    assert(wire::part_start(ps, 0) == 0);
    wire::lemma_occurs_in(b, f, i, ps[0], 0);
    wire::lemma_occurs_in(b, f, i, ps[1], o1);
    wire::lemma_occurs_in(b, f, i, ps[2], o2);
    wire::lemma_occurs_in(b, f, i, ps[3], o3);
    wire::lemma_occurs_in(b, f, i, ps[4], o4);
    wire::lemma_occurs_in(b, f, i, ps[5], o5);
    wire::lemma_occurs_in(b, f, i, ps[6], o6);
    wire::lemma_occurs_in(b, f, i, ps[7], o7);
    wire::lemma_occurs_in(b, f, i, ps[8], o8);
    wire::lemma_occurs_in(b, f, i, ps[9], o9);
    lemma_symbol_mark(b, i);
    object::lemma_quoted_read(b, i + o1, encode_utf8(e.symbol));
    lemma_sides_read(b, i + o2, e);
    lemma_timestamp_read(b, i + o8, e);
    wire::lemma_u64_at_is(b, i + o7, e.checksum);
    lemma_close(b, i + o9);
    reveal(frame::entry_at);
}

/// The closing brace of an object.
pub(crate) proof fn lemma_close(b: Seq<u8>, i: int)
    requires
        scan::occurs_at(b, codec::lit("}"), i),
    ensures
        codec::lit("}").len() == 1,
        0 <= i < b.len(),
        b[i] == 0x7d,
        scan::ws_end(b, i) == i,
{
    reveal_strlit("}");
    is_ascii_chars_encode_utf8("}"@);
    wire::lemma_occurs_bytes(b, codec::lit("}"), i);
    assert(b[i] == codec::lit("}")[0]);
}

/// The key of a symbol behind the brace that opens an entry.
pub(crate) proof fn lemma_symbol_mark(b: Seq<u8>, at: int)
    requires
        scan::occurs_at(b, codec::lit("{\"symbol\":"), at),
    ensures
        0 <= at < b.len(),
        b[at] == 0x7b,
        codec::lit("{\"symbol\":").len() == codec::lit("\"symbol\":").len() + 1,
        scan::past(b, at + 1, codec::lit("\"symbol\":")) == Some(
            at + codec::lit("{\"symbol\":").len(),
        ),
        scan::occurs_at(b, codec::lit("\"symbol\":"), at + 1),
{
    reveal_strlit("{\"symbol\":");
    reveal_strlit("\"symbol\":");
    is_ascii_chars_encode_utf8("{\"symbol\":"@);
    is_ascii_chars_encode_utf8("\"symbol\":"@);
    let m = codec::lit("{\"symbol\":");
    let k = codec::lit("\"symbol\":");
    assert(m.subrange(1, 10) =~= k);
    wire::lemma_occurs_bytes(b, m, at);
    assert(b[at] == m[0]);
    wire::lemma_occurs_in(b, m, at, k, 1);
    wire::lemma_key_in_mark(b, at, m, k, 1, 1);
}

/// The entries as they are written.
pub open spec fn entry_frames(es: Seq<EntryText>) -> Seq<Seq<u8>> {
    Seq::new(es.len(), |i: int| es[i].frame())
}

/// The texts of the entries need no escapes, and their numbers are numbers.
pub open spec fn entries_writable(es: Seq<EntryText>) -> bool {
    forall|i: int| 0 <= i < es.len() ==> (#[trigger] es[i]).writable()
}

/// No entry is wrong both in its timestamp and in its levels.
pub open spec fn wrong_once(es: Seq<EntryText>, snapshot: bool) -> bool {
    forall|i: int| 0 <= i < es.len() ==> !(#[trigger] es[i]).wrong_twice(snapshot)
}

/// What the entries from `k` on say, behind `acc`.
pub open spec fn said_entries(
    es: Seq<EntryText>,
    k: int,
    table: Seq<(Seq<u8>, u32)>,
    snapshot: bool,
    acc: Seq<BookEntry>,
) -> Result<Seq<BookEntry>, CodecError>
    decreases es.len() - k,
{
    if !(0 <= k < es.len()) {
        Ok(acc)
    } else {
        match es[k].said(table, snapshot) {
            Err(e) => Err(e),
            Ok(x) => said_entries(es, k + 1, table, snapshot, acc.push(x)),
        }
    }
}

/// The entries from `k` on are read as what they say, from the byte behind
/// the entry `k - 1` on.
proof fn lemma_entries_from(
    b: Seq<u8>,
    i: int,
    es: Seq<EntryText>,
    k: int,
    table: Seq<(Seq<u8>, u32)>,
    snapshot: bool,
    acc: Seq<BookEntry>,
)
    requires
        entries_writable(es),
        0 < k <= es.len(),
        acc.len() > 0,
        0 <= i < b.len(),
        k < es.len() ==> b[i] == 0x2c && scan::occurs_at(
            b,
            wire::list_from(entry_frames(es), k),
            i + 1,
        ),
        k == es.len() ==> b[i] == 0x5d,
    ensures
        agree(
            frame::entries_at(b, i, table, snapshot, acc),
            said_entries(es, k, table, snapshot, acc),
            wrong_once(es, snapshot),
        ),
    decreases es.len() - k,
{
    let items = entry_frames(es);
    if k < es.len() {
        wire::lemma_list_item(b, i + 1, items, k);
        lemma_entry_read(b, i + 1, es[k], table, snapshot);
        match es[k].said(table, snapshot) {
            Err(_) => {},
            Ok(x) => {
                lemma_entries_from(
                    b,
                    i + 1 + items[k].len(),
                    es,
                    k + 1,
                    table,
                    snapshot,
                    acc.push(x),
                );
            },
        }
    }
}

/// The entries are read as what they say.
proof fn lemma_entries_read(
    b: Seq<u8>,
    i: int,
    es: Seq<EntryText>,
    table: Seq<(Seq<u8>, u32)>,
    snapshot: bool,
)
    requires
        entries_writable(es),
        scan::occurs_at(b, wire::list_from(entry_frames(es), 0), i),
    ensures
        agree(
            frame::entries_at(b, i, table, snapshot, Seq::empty()),
            said_entries(es, 0, table, snapshot, Seq::empty()),
            wrong_once(es, snapshot),
        ),
{
    let items = entry_frames(es);
    let none = Seq::<BookEntry>::empty();
    if es.len() > 0 {
        wire::lemma_list_item(b, i, items, 0);
        lemma_entry_read(b, i, es[0], table, snapshot);
        match es[0].said(table, snapshot) {
            Err(_) => {},
            Ok(x) => {
                lemma_entries_from(
                    b,
                    i + items[0].len(),
                    es,
                    1,
                    table,
                    snapshot,
                    none.push(x),
                );
            },
        }
    } else {
        wire::lemma_list_empty(b, i, items);
    }
}

/// The name of the type of a data frame.
pub open spec fn kind_name(snapshot: bool) -> Seq<char> {
    if snapshot {
        "snapshot"@
    } else {
        "update"@
    }
}

/// The document `v` is the header of a data frame.
pub open spec fn is_header(v: JsonValue, channel: Seq<char>, snapshot: bool) -> bool {
    &&& v is Obj
    &&& json::member(v, "channel"@) == Some(JsonValue::Str(channel))
    &&& json::member(v, "method"@) is None
    &&& json::member(v, "type"@) == Some(JsonValue::Str(kind_name(snapshot)))
}

/// What a book frame says.
pub struct BookText {
    pub snapshot: bool,
    pub entries: Seq<EntryText>,
}

impl BookText {
    /// The texts need no escapes, and the numbers are numbers.
    pub open spec fn writable(self) -> bool {
        entries_writable(self.entries)
    }

    /// The pieces of the frame.
    pub open spec fn parts(self) -> Seq<Seq<u8>> {
        seq![
            codec::lit("{\"channel\":\"book\",\"type\":"),
            object::quoted(encode_utf8(kind_name(self.snapshot))),
            codec::lit(",\"data\":"),
            codec::lit("["),
            wire::list_from(entry_frames(self.entries), 0),
            codec::lit("}"),
        ]
    }

    /// The frame.
    pub open spec fn frame(self) -> Seq<u8> {
        wire::joined(self.parts())
    }

    /// What the frame says of the instruments of `table`.
    pub open spec fn said(self, table: Seq<(Seq<u8>, u32)>) -> Result<Frame, CodecError> {
        match said_entries(self.entries, 0, table, self.snapshot, Seq::empty()) {
            Err(e) => Err(e),
            Ok(es) => Ok(Frame::Book(self.snapshot, es)),
        }
    }

    /// The documents `v` of the frame and `q` of the frame with its numbers
    /// as text are as the frame says, in whatever order their members stand.
    pub open spec fn is_doc(self, v: JsonValue, q: JsonValue) -> bool {
        &&& is_header(v, "book"@, self.snapshot)
        &&& json::arr_member(q, "data"@) matches Some(a) && a.len() == self.entries.len()
            && forall|i: int|
            0 <= i < a.len() ==> self.entries[i].is_doc(#[trigger] a[i])
    }
}

/// The types of the data frames are different, and need no escapes.
pub(crate) proof fn lemma_kind_names(snapshot: bool)
    ensures
        wire::plain(encode_utf8(kind_name(snapshot))),
        (encode_utf8(kind_name(snapshot)) == codec::lit("snapshot")) == snapshot,
        (encode_utf8(kind_name(snapshot)) == codec::lit("update")) == !snapshot,
        slow::snapshot_type(Some(kind_name(snapshot))) == Ok::<bool, CodecError>(snapshot),
        text::all_ascii(encode_utf8(kind_name(snapshot))),
{
    reveal_strlit("snapshot");
    reveal_strlit("update");
    is_ascii_chars_encode_utf8("snapshot"@);
    is_ascii_chars_encode_utf8("update"@);
    assert(codec::lit("snapshot").len() == 8 && codec::lit("update").len() == 6);
    assert("snapshot"@.len() == 8 && "update"@.len() == 6);
}

/// The mark of the data.
pub(crate) proof fn lemma_mark_data(b: Seq<u8>, at: int)
    requires
        scan::occurs_at(b, codec::lit(",\"data\":"), at),
    ensures
        codec::lit(",\"data\":").len() == 8,
        0 <= at,
        at + 8 <= b.len(),
        b[at] == 0x2c,
        b[at + 7] == 0x3a,
        scan::past(b, at + 0, codec::lit("\"data\":")) == Some(at + 8),
{
    reveal_strlit(",\"data\":");
    reveal_strlit("\"data\":");
    is_ascii_chars_encode_utf8(",\"data\":"@);
    is_ascii_chars_encode_utf8("\"data\":"@);
    let m = codec::lit(",\"data\":");
    let k = codec::lit("\"data\":");
    assert(m =~= seq![0x2cu8, 0x22, 0x64, 0x61, 0x74, 0x61, 0x22, 0x3a]);
    assert(k =~= seq![0x22u8, 0x64, 0x61, 0x74, 0x61, 0x22, 0x3a]);
    wire::lemma_occurs_bytes(b, m, at);
    assert(b[at] == m[0] && b[at + 7] == m[7]);
    assert(m.subrange(1, 8) =~= k);
    wire::lemma_key_in_mark(b, at, m, k, 0, 1);
}

/// The channel and the key of the type that start a frame.
proof fn lemma_book_channel(b: Seq<u8>)
    requires
        scan::occurs_at(b, codec::lit("{\"channel\":\"book\",\"type\":"), 0),
    ensures
        scan::ws_end(b, 0) == 0,
        scan::occurs_at(b, codec::lit("{\"channel\":\"book\""), 0),
        text::all_ascii(codec::lit("{\"channel\":\"book\",\"type\":")),
        scan::past(b, 0, codec::lit("\"type\":")) == Some(
            codec::lit("{\"channel\":\"book\",\"type\":").len() as int,
        ),
{
    reveal_strlit("{\"channel\":\"book\",\"type\":");
    reveal_strlit("{\"channel\":\"book\"");
    reveal_strlit("\"type\":");
    is_ascii_chars_encode_utf8("{\"channel\":\"book\",\"type\":"@);
    is_ascii_chars_encode_utf8("{\"channel\":\"book\""@);
    is_ascii_chars_encode_utf8("\"type\":"@);
    let m = codec::lit("{\"channel\":\"book\",\"type\":");
    let k = codec::lit("\"type\":");
    let c = codec::lit("{\"channel\":\"book\"");
    assert(m =~= seq![0x7bu8, 0x22, 0x63, 0x68, 0x61, 0x6e, 0x6e, 0x65, 0x6c, 0x22, 0x3a, 0x22, 0x62, 0x6f, 0x6f, 0x6b, 0x22, 0x2c, 0x22, 0x74, 0x79, 0x70, 0x65, 0x22, 0x3a]);
    assert(k =~= seq![0x22u8, 0x74, 0x79, 0x70, 0x65, 0x22, 0x3a]);
    assert(m.subrange(0, 17) =~= c);
    assert(m.subrange(18, 25) =~= k);
    wire::lemma_occurs_in(b, m, 0, c, 0);
    wire::lemma_occurs_bytes(b, m, 0);
    assert(b[0] == m[0]);
    wire::lemma_key_in_mark(b, 0, m, k, 0, 18);
}

/// Where the pieces of a book frame stand.
proof fn lemma_book_layout(f: BookText) -> (o: (int, int, int))
    ensures
        scan::occurs_at(f.frame(), codec::lit("{\"channel\":\"book\",\"type\":"), 0),
        o.0 == codec::lit("{\"channel\":\"book\",\"type\":").len(),
        scan::occurs_at(f.frame(), object::quoted(encode_utf8(kind_name(f.snapshot))), o.0),
        o.1 == o.0 + object::quoted(encode_utf8(kind_name(f.snapshot))).len(),
        scan::occurs_at(f.frame(), codec::lit(",\"data\":"), o.1),
        o.2 == o.1 + codec::lit(",\"data\":").len(),
        scan::occurs_at(f.frame(), codec::lit("["), o.2),
        scan::occurs_at(f.frame(), wire::list_from(entry_frames(f.entries), 0), o.2 + 1),
{
    let ps = f.parts();
    wire::lemma_joined(ps, 0);
    wire::lemma_joined(ps, 1);
    wire::lemma_joined(ps, 2);
    wire::lemma_joined(ps, 3);
    wire::lemma_joined(ps, 4);
    assert(wire::part_start(ps, 0) == 0);
    assert(codec::lit("[").len() == 1) by {
        reveal_strlit("[");
        is_ascii_chars_encode_utf8("["@);
    }
    (wire::part_start(ps, 1), wire::part_start(ps, 2), wire::part_start(ps, 3))
}

/// A book frame is read as its entries are.
proof fn lemma_book_head(
    b: Seq<u8>,
    snapshot: bool,
    o: (int, int, int),
    table: Seq<(Seq<u8>, u32)>,
)
    requires
        scan::occurs_at(b, codec::lit("{\"channel\":\"book\",\"type\":"), 0),
        o.0 == codec::lit("{\"channel\":\"book\",\"type\":").len(),
        scan::occurs_at(b, object::quoted(encode_utf8(kind_name(snapshot))), o.0),
        o.1 == o.0 + object::quoted(encode_utf8(kind_name(snapshot))).len(),
        scan::occurs_at(b, codec::lit(",\"data\":"), o.1),
        o.2 == o.1 + codec::lit(",\"data\":").len(),
        scan::occurs_at(b, codec::lit("["), o.2),
    ensures
        frame::fast_frame(b, table) == match frame::entries_at(
            b,
            o.2 + 1,
            table,
            snapshot,
            Seq::empty(),
        ) {
            Err(e) => Err(e),
            Ok(es) => Ok(Frame::Book(snapshot, es)),
        },
{
    lemma_book_channel(b);
    lemma_kind_names(snapshot);
    object::lemma_quoted_read(b, o.0, encode_utf8(kind_name(snapshot)));
    lemma_mark_data(b, o.1);
    lemma_lit_list();
    lemma_starts(b, o.2, "[", 0x5b);
}

/// A book frame is read as what it says.
proof fn lemma_book_read(f: BookText, table: Seq<(Seq<u8>, u32)>)
    requires
        f.writable(),
    ensures
        agree(
            frame::fast_frame(f.frame(), table),
            f.said(table),
            wrong_once(f.entries, f.snapshot),
        ),
{
    let b = f.frame();
    let o = lemma_book_layout(f);
    lemma_book_head(b, f.snapshot, o, table);
    lemma_entries_read(b, o.2 + 1, f.entries, table, f.snapshot);
}

/// The documents of the levels say what they say.
proof fn lemma_levels_doc(a: Seq<JsonValue>, ls: Seq<LevelText>, k: int, acc: Seq<(i64, i64)>)
    requires
        are_levels(a, ls),
        0 <= k <= ls.len(),
    ensures
        slow::fixed_levels(a, k, acc) == levels::said_levels(ls, k, acc),
        slow::raw_levels_ok(a),
    decreases ls.len() - k,
{
    if k < ls.len() {
        assert(slow::raw_level(a[k]) == Some(ls[k]));
        match codec::fixed_pair_spec(encode_utf8(ls[k].0), encode_utf8(ls[k].1)) {
            Err(_) => {},
            Ok(x) => {
                lemma_levels_doc(a, ls, k + 1, acc.push(x));
            },
        }
    }
}

/// The document of an entry says what it says.
proof fn lemma_entry_doc(
    v: JsonValue,
    e: EntryText,
    table: Seq<(Seq<u8>, u32)>,
    snapshot: bool,
)
    requires
        e.is_doc(v),
    ensures
        slow::raw_book_ok(v),
        slow::book_entry(v, table, snapshot) == e.said(table, snapshot),
{
    lemma_levels_doc(json::arr_member(v, "bids"@)->Some_0, e.bids, 0, Seq::empty());
    lemma_levels_doc(json::arr_member(v, "asks"@)->Some_0, e.asks, 0, Seq::empty());
}

/// The documents of the entries say what they say.
proof fn lemma_entries_doc(
    a: Seq<JsonValue>,
    es: Seq<EntryText>,
    k: int,
    table: Seq<(Seq<u8>, u32)>,
    snapshot: bool,
    acc: Seq<BookEntry>,
)
    requires
        a.len() == es.len(),
        forall|i: int| 0 <= i < a.len() ==> es[i].is_doc(#[trigger] a[i]),
        0 <= k <= es.len(),
    ensures
        slow::book_entries(a, k, table, snapshot, acc) == said_entries(
            es,
            k,
            table,
            snapshot,
            acc,
        ),
    decreases es.len() - k,
{
    if k < es.len() {
        lemma_entry_doc(a[k], es[k], table, snapshot);
        match es[k].said(table, snapshot) {
            Err(_) => {},
            Ok(x) => {
                lemma_entries_doc(a, es, k + 1, table, snapshot, acc.push(x));
            },
        }
    }
}

/// The documents of a book frame say what the frame says.
proof fn lemma_book_doc(
    f: BookText,
    v: JsonValue,
    q: JsonValue,
    table: Seq<(Seq<u8>, u32)>,
)
    requires
        f.is_doc(v, q),
    ensures
        slow::route(v) == Ok::<slow::Route, CodecError>(
            slow::Route::Book { snapshot: f.snapshot },
        ),
        slow::book_frame(q, table, f.snapshot) == f.said(table),
{
    let a = json::arr_member(q, "data"@)->Some_0;
    lemma_kind_names(f.snapshot);
    lemma_channels();
    assert forall|i: int| 0 <= i < a.len() implies #[trigger] slow::raw_book_ok(a[i]) by {
        lemma_entry_doc(a[i], f.entries[i], table, f.snapshot);
    }
    lemma_entries_doc(a, f.entries, 0, table, f.snapshot, Seq::empty());
}

/// The names of the channels are different.
pub(crate) proof fn lemma_channels()
    ensures
        "book"@.len() == 4,
        "trade"@.len() == 5,
        "status"@.len() == 6,
        "heartbeat"@.len() == 9,
{
    reveal_strlit("book");
    reveal_strlit("trade");
    reveal_strlit("status");
    reveal_strlit("heartbeat");
}

/// A string of text between its quotes is text.
pub(crate) proof fn lemma_quoted_valid(s: Seq<char>)
    ensures
        valid_utf8(object::quoted(encode_utf8(s))),
{
    let q = seq![0x22u8];
    wire::lemma_ascii_valid(q);
    encode_utf8_valid_utf8(s);
    valid_utf8_concat(q, encode_utf8(s));
    valid_utf8_concat(q + encode_utf8(s), q);
}

/// A level is text.
proof fn lemma_level_valid(l: LevelText)
    ensures
        valid_utf8(level_frame(l)),
{
    lemma_lit_price();
    lemma_lit_qty();
    lemma_lit_close();
    wire::lemma_ascii_valid(codec::lit("{\"price\":"));
    wire::lemma_ascii_valid(codec::lit(",\"qty\":"));
    wire::lemma_ascii_valid(codec::lit("}"));
    encode_utf8_valid_utf8(l.0);
    encode_utf8_valid_utf8(l.1);
    wire::lemma_joined_valid(level_parts(l));
}

/// A list of levels is text.
proof fn lemma_levels_valid(ls: Seq<LevelText>)
    ensures
        valid_utf8(wire::list_from(level_frames(ls), 0)),
{
    assert forall|i: int| 0 <= i < ls.len() implies valid_utf8(#[trigger] level_frames(ls)[i]) by {
        lemma_level_valid(ls[i]);
    }
    wire::lemma_list_valid(level_frames(ls), 0);
}

/// An entry is text.
proof fn lemma_entry_valid(e: EntryText)
    ensures
        valid_utf8(e.frame()),
{
    lemma_lit_symbol();
    lemma_lit_bids();
    lemma_lit_asks();
    lemma_lit_checksum();
    lemma_lit_timestamp();
    lemma_lit_close();
    wire::lemma_ascii_valid(codec::lit("{\"symbol\":"));
    wire::lemma_ascii_valid(codec::lit(",\"bids\":["));
    wire::lemma_ascii_valid(codec::lit(",\"asks\":["));
    wire::lemma_ascii_valid(codec::lit(",\"checksum\":"));
    wire::lemma_ascii_valid(codec::lit(",\"timestamp\":"));
    wire::lemma_ascii_valid(codec::lit("}"));
    lemma_quoted_valid(e.symbol);
    lemma_levels_valid(e.bids);
    lemma_levels_valid(e.asks);
    text::lemma_dec_bytes(e.checksum as nat);
    wire::lemma_ascii_valid(text::dec_bytes(e.checksum as nat));
    match e.timestamp {
        Some(t) => {
            lemma_quoted_valid(t);
            valid_utf8_concat(codec::lit(",\"timestamp\":"), object::quoted(encode_utf8(t)));
        },
        None => {
            wire::lemma_ascii_valid(Seq::empty());
        },
    }
    wire::lemma_joined_valid(e.parts());
}

/// A book frame is text.
proof fn lemma_book_valid(f: BookText)
    ensures
        valid_utf8(f.frame()),
{
    let es = f.entries;
    assert forall|i: int| 0 <= i < es.len() implies valid_utf8(#[trigger] entry_frames(es)[i]) by {
        lemma_entry_valid(es[i]);
    }
    wire::lemma_list_valid(entry_frames(es), 0);
    wire::lemma_joined(f.parts(), 0);
    assert(wire::part_start(f.parts(), 0) == 0);
    lemma_book_channel(f.frame());
    lemma_lit_data();
    lemma_lit_list();
    lemma_lit_close();
    lemma_quoted_valid(kind_name(f.snapshot));
    wire::lemma_ascii_valid(codec::lit("{\"channel\":\"book\",\"type\":"));
    wire::lemma_ascii_valid(codec::lit(",\"data\":"));
    wire::lemma_ascii_valid(codec::lit("["));
    wire::lemma_ascii_valid(codec::lit("}"));
    wire::lemma_joined_valid(f.parts());
}

/// Both paths read every book frame alike: as what it says, or both as an
/// error; and as the same error, unless an entry is wrong both in its
/// timestamp and in its levels. (The slow path reads the documents `v` and
/// `q` that the JSON parser makes of the frame, and of the frame with its
/// numbers as text.)
pub proof fn lemma_book_paths_agree(
    f: BookText,
    v: JsonValue,
    q: JsonValue,
    table: Seq<(Seq<u8>, u32)>,
)
    requires
        f.writable(),
    ensures
        agree(
            frame::fast_frame(f.frame(), table),
            f.said(table),
            wrong_once(f.entries, f.snapshot),
        ),
        json::json_of(f.frame()) == Ok::<JsonValue, Seq<char>>(v) && json::json_of(
            slow::quoted(f.frame()),
        ) == Ok::<JsonValue, Seq<char>>(q) && f.is_doc(v, q) ==> slow::slow_frame(f.frame(), table)
            == f.said(table) && agree(
            frame::fast_frame(f.frame(), table),
            slow::slow_frame(f.frame(), table),
            wrong_once(f.entries, f.snapshot),
        ),
{
    lemma_book_read(f, table);
    lemma_book_valid(f);
    if f.is_doc(v, q) {
        lemma_book_doc(f, v, q, table);
    }
}

/// The channel `book` is told by its name.
proof fn lemma_channel_book(b: Seq<u8>, ch: Seq<char>)
    requires
        scan::occurs_at(b, codec::lit("{\"channel\":\""), 0),
        scan::occurs_at(b, encode_utf8(ch), codec::lit("{\"channel\":\"").len() as int),
        scan::byte_at(b, codec::lit("{\"channel\":\"").len() as int + encode_utf8(ch).len(), 0x22),
        wire::plain(encode_utf8(ch)),
    ensures
        scan::occurs_at(b, codec::lit("{\"channel\":\"book\""), 0) == (ch == "book"@),
{
    reveal_strlit("{\"channel\":\"book\"");
    reveal_strlit("{\"channel\":\"");
    reveal_strlit("book");
    is_ascii_chars_encode_utf8("{\"channel\":\"book\""@);
    is_ascii_chars_encode_utf8("{\"channel\":\""@);
    is_ascii_chars_encode_utf8("book"@);
    assert(codec::lit("{\"channel\":\"book\"") =~= codec::lit("{\"channel\":\"") + codec::lit("book") + seq![0x22u8]);
    wire::lemma_told(
        b,
        0,
        codec::lit("{\"channel\":\""),
        encode_utf8(ch),
        codec::lit("book"),
    );
    if encode_utf8(ch) == codec::lit("book") {
        json::lemma_utf8_injective(ch, "book"@);
    }
}

/// The channel `trade` is told by its name.
proof fn lemma_channel_trade(b: Seq<u8>, ch: Seq<char>)
    requires
        scan::occurs_at(b, codec::lit("{\"channel\":\""), 0),
        scan::occurs_at(b, encode_utf8(ch), codec::lit("{\"channel\":\"").len() as int),
        scan::byte_at(b, codec::lit("{\"channel\":\"").len() as int + encode_utf8(ch).len(), 0x22),
        wire::plain(encode_utf8(ch)),
    ensures
        scan::occurs_at(b, codec::lit("{\"channel\":\"trade\""), 0) == (ch == "trade"@),
{
    reveal_strlit("{\"channel\":\"trade\"");
    reveal_strlit("{\"channel\":\"");
    reveal_strlit("trade");
    is_ascii_chars_encode_utf8("{\"channel\":\"trade\""@);
    is_ascii_chars_encode_utf8("{\"channel\":\""@);
    is_ascii_chars_encode_utf8("trade"@);
    assert(codec::lit("{\"channel\":\"trade\"") =~= codec::lit("{\"channel\":\"") + codec::lit("trade") + seq![0x22u8]);
    wire::lemma_told(
        b,
        0,
        codec::lit("{\"channel\":\""),
        encode_utf8(ch),
        codec::lit("trade"),
    );
    if encode_utf8(ch) == codec::lit("trade") {
        json::lemma_utf8_injective(ch, "trade"@);
    }
}

/// The channel `heartbeat` is told by its name.
proof fn lemma_channel_heartbeat(b: Seq<u8>, ch: Seq<char>)
    requires
        scan::occurs_at(b, codec::lit("{\"channel\":\""), 0),
        scan::occurs_at(b, encode_utf8(ch), codec::lit("{\"channel\":\"").len() as int),
        scan::byte_at(b, codec::lit("{\"channel\":\"").len() as int + encode_utf8(ch).len(), 0x22),
        wire::plain(encode_utf8(ch)),
    ensures
        scan::occurs_at(b, codec::lit("{\"channel\":\"heartbeat\""), 0) == (ch == "heartbeat"@),
{
    reveal_strlit("{\"channel\":\"heartbeat\"");
    reveal_strlit("{\"channel\":\"");
    reveal_strlit("heartbeat");
    is_ascii_chars_encode_utf8("{\"channel\":\"heartbeat\""@);
    is_ascii_chars_encode_utf8("{\"channel\":\""@);
    is_ascii_chars_encode_utf8("heartbeat"@);
    assert(codec::lit("{\"channel\":\"heartbeat\"") =~= codec::lit("{\"channel\":\"") + codec::lit("heartbeat") + seq![0x22u8]);
    wire::lemma_told(
        b,
        0,
        codec::lit("{\"channel\":\""),
        encode_utf8(ch),
        codec::lit("heartbeat"),
    );
    if encode_utf8(ch) == codec::lit("heartbeat") {
        json::lemma_utf8_injective(ch, "heartbeat"@);
    }
}

/// The channel `status` is told by its name.
proof fn lemma_channel_status(b: Seq<u8>, ch: Seq<char>)
    requires
        scan::occurs_at(b, codec::lit("{\"channel\":\""), 0),
        scan::occurs_at(b, encode_utf8(ch), codec::lit("{\"channel\":\"").len() as int),
        scan::byte_at(b, codec::lit("{\"channel\":\"").len() as int + encode_utf8(ch).len(), 0x22),
        wire::plain(encode_utf8(ch)),
    ensures
        scan::occurs_at(b, codec::lit("{\"channel\":\"status\""), 0) == (ch == "status"@),
{
    reveal_strlit("{\"channel\":\"status\"");
    reveal_strlit("{\"channel\":\"");
    reveal_strlit("status");
    is_ascii_chars_encode_utf8("{\"channel\":\"status\""@);
    is_ascii_chars_encode_utf8("{\"channel\":\""@);
    is_ascii_chars_encode_utf8("status"@);
    assert(codec::lit("{\"channel\":\"status\"") =~= codec::lit("{\"channel\":\"") + codec::lit("status") + seq![0x22u8]);
    wire::lemma_told(
        b,
        0,
        codec::lit("{\"channel\":\""),
        encode_utf8(ch),
        codec::lit("status"),
    );
    if encode_utf8(ch) == codec::lit("status") {
        json::lemma_utf8_injective(ch, "status"@);
    }
}

/// The first field of a frame that names its channel.
proof fn lemma_channel_field(fs: Seq<Field>, ch: Seq<char>)
    requires
        fs.len() > 0,
        fs[0] == object::str_field("channel"@, ch),
        wire::plain(encode_utf8(ch)),
    ensures
        scan::ws_end(object::text_of(fs), 0) == 0,
        scan::occurs_at(object::text_of(fs), codec::lit("{\"channel\":\""), 0),
        scan::occurs_at(
            object::text_of(fs),
            encode_utf8(ch),
            codec::lit("{\"channel\":\"").len() as int,
        ),
        scan::byte_at(
            object::text_of(fs),
            codec::lit("{\"channel\":\"").len() as int + encode_utf8(ch).len(),
            0x22,
        ),
        !scan::occurs_at(object::text_of(fs), codec::lit("{\"method\":"), 0),
{
    let b = object::text_of(fs);
    let p = codec::lit("{\"channel\":\"");
    let m = codec::lit("{\"method\":");
    let k = object::key(encode_utf8("channel"@));
    let q = object::quoted(encode_utf8(ch));
    reveal_strlit("{\"channel\":\"");
    reveal_strlit("{\"method\":");
    reveal_strlit("channel");
    is_ascii_chars_encode_utf8("{\"channel\":\""@);
    is_ascii_chars_encode_utf8("{\"method\":"@);
    is_ascii_chars_encode_utf8("channel"@);
    object::lemma_field(fs, 0);
    wire::lemma_occurs_bytes(b, k, 1);
    wire::lemma_occurs_bytes(b, q, 11);
    assert(b[0] == 0x7b);
    assert(b.subrange(0, 12) =~= p) by {
        assert forall|x: int| 0 <= x < 12 implies b[x] == #[trigger] p[x] by {
            if 1 <= x < 11 {
                assert(b[x] == k[x - 1]);
            } else if x == 11 {
                assert(b[x] == q[0]);
            }
        }
    }
    assert(q.subrange(1, 1 + encode_utf8(ch).len() as int) =~= encode_utf8(ch));
    wire::lemma_occurs_in(b, q, 11, encode_utf8(ch), 1);
    assert(b[12 + encode_utf8(ch).len() as int] == q[1 + encode_utf8(ch).len() as int]);
    if scan::occurs_at(b, m, 0) {
        wire::lemma_occurs_bytes(b, m, 0);
        assert(b[2] == m[2] && b[2] == p[2]);
    }
}

/// Both paths read every frame of another channel alike, and as what the
/// channel says: whatever the fields behind the channel hold.
pub proof fn lemma_other_paths_agree(
    fs: Seq<Field>,
    ch: Seq<char>,
    v: JsonValue,
    table: Seq<(Seq<u8>, u32)>,
)
    requires
        fs.len() > 0,
        fs[0] == object::str_field("channel"@, ch),
        wire::plain(encode_utf8(ch)),
        valid_utf8(object::text_of(fs)),
        ch != "book"@,
        ch != "trade"@,
    ensures
        frame::fast_frame(object::text_of(fs), table) == Ok::<Frame, CodecError>(
            if ch == "heartbeat"@ {
                Frame::Heartbeat
            } else if ch == "status"@ {
                Frame::Control
            } else {
                Frame::Ignored
            },
        ),
        json::json_of(object::text_of(fs)) == Ok::<JsonValue, Seq<char>>(v) && object::is_doc(v, fs)
            && json::member(v, "method"@) is None && slow::opt_str(json::member(v, "type"@)) is Some
            ==> slow::slow_frame(object::text_of(fs), table) == frame::fast_frame(
            object::text_of(fs),
            table,
        ),
{
    let b = object::text_of(fs);
    lemma_channel_field(fs, ch);
    lemma_channel_book(b, ch);
    lemma_channel_trade(b, ch);
    lemma_channel_heartbeat(b, ch);
    lemma_channel_status(b, ch);
    lemma_channels();
    if object::is_doc(v, fs) {
        assert(json::member(v, fs[0].name) == Some(fs[0].value));
    }
}

/// Both paths read every answer to a request alike: it is control traffic,
/// whatever the fields behind the method hold.
pub proof fn lemma_answer_paths_agree(
    fs: Seq<Field>,
    method: Seq<char>,
    v: JsonValue,
    table: Seq<(Seq<u8>, u32)>,
)
    requires
        fs.len() > 0,
        fs[0] == object::str_field("method"@, method),
        valid_utf8(object::text_of(fs)),
    ensures
        frame::fast_frame(object::text_of(fs), table) == Ok::<Frame, CodecError>(Frame::Control),
        json::json_of(object::text_of(fs)) == Ok::<JsonValue, Seq<char>>(v) && object::is_doc(v, fs)
            && slow::opt_str(json::member(v, "channel"@)) is Some && slow::opt_str(json::member(v, "type"@)) is Some
            ==> slow::slow_frame(object::text_of(fs), table) == frame::fast_frame(
            object::text_of(fs),
            table,
        ),
{
    lemma_answer_fast(fs, method, table);
    if object::is_doc(v, fs) && slow::opt_str(json::member(v, "channel"@)) is Some && slow::opt_str(
        json::member(v, "type"@),
    ) is Some {
        assert(json::member(v, fs[0].name) == Some(fs[0].value));
        lemma_answer_route(v, method);
    }
}

/// An answer to a request is control traffic to the fast path.
proof fn lemma_answer_fast(fs: Seq<Field>, method: Seq<char>, table: Seq<(Seq<u8>, u32)>)
    requires
        fs.len() > 0,
        fs[0] == object::str_field("method"@, method),
    ensures
        frame::fast_frame(object::text_of(fs), table) == Ok::<Frame, CodecError>(Frame::Control),
{
    let b = object::text_of(fs);
    let m = codec::lit("{\"method\":");
    let k = object::key(encode_utf8("method"@));
    reveal_strlit("{\"method\":");
    reveal_strlit("method");
    is_ascii_chars_encode_utf8("{\"method\":"@);
    is_ascii_chars_encode_utf8("method"@);
    object::lemma_field(fs, 0);
    wire::lemma_occurs_bytes(b, k, 1);
    assert(b[0] == 0x7b);
    assert(b.subrange(0, 10) =~= m) by {
        assert forall|x: int| 0 <= x < 10 implies b[x] == #[trigger] m[x] by {
            if 1 <= x {
                assert(b[x] == k[x - 1]);
            }
        }
    }
    assert(b[2] == m[2]);
    lemma_not_channel(b);
}

/// An answer to a request is control traffic to the slow path.
proof fn lemma_answer_route(v: JsonValue, method: Seq<char>)
    requires
        json::member(v, "method"@) == Some(JsonValue::Str(method)),
        slow::opt_str(json::member(v, "channel"@)) is Some,
        slow::opt_str(json::member(v, "type"@)) is Some,
    ensures
        slow::route(v) == Ok::<slow::Route, CodecError>(slow::Route::Control),
{
}

/// A frame with another third byte names no channel.
proof fn lemma_not_channel(b: Seq<u8>)
    requires
        b.len() > 2,
        b[2] != 0x63,
    ensures
        !scan::occurs_at(b, codec::lit("{\"channel\":\"book\""), 0),
        !scan::occurs_at(b, codec::lit("{\"channel\":\"trade\""), 0),
        !scan::occurs_at(b, codec::lit("{\"channel\":\"heartbeat\""), 0),
        !scan::occurs_at(b, codec::lit("{\"channel\":\"status\""), 0),
{
    reveal_strlit("{\"channel\":\"book\"");
    is_ascii_chars_encode_utf8("{\"channel\":\"book\""@);
    if scan::occurs_at(b, codec::lit("{\"channel\":\"book\""), 0) {
        wire::lemma_occurs_bytes(b, codec::lit("{\"channel\":\"book\""), 0);
        assert(b[2] == codec::lit("{\"channel\":\"book\"")[2]);
    }
    reveal_strlit("{\"channel\":\"trade\"");
    is_ascii_chars_encode_utf8("{\"channel\":\"trade\""@);
    if scan::occurs_at(b, codec::lit("{\"channel\":\"trade\""), 0) {
        wire::lemma_occurs_bytes(b, codec::lit("{\"channel\":\"trade\""), 0);
        assert(b[2] == codec::lit("{\"channel\":\"trade\"")[2]);
    }
    reveal_strlit("{\"channel\":\"heartbeat\"");
    is_ascii_chars_encode_utf8("{\"channel\":\"heartbeat\""@);
    if scan::occurs_at(b, codec::lit("{\"channel\":\"heartbeat\""), 0) {
        wire::lemma_occurs_bytes(b, codec::lit("{\"channel\":\"heartbeat\""), 0);
        assert(b[2] == codec::lit("{\"channel\":\"heartbeat\"")[2]);
    }
    reveal_strlit("{\"channel\":\"status\"");
    is_ascii_chars_encode_utf8("{\"channel\":\"status\""@);
    if scan::occurs_at(b, codec::lit("{\"channel\":\"status\""), 0) {
        wire::lemma_occurs_bytes(b, codec::lit("{\"channel\":\"status\""), 0);
        assert(b[2] == codec::lit("{\"channel\":\"status\"")[2]);
    }
}

} // verus!
