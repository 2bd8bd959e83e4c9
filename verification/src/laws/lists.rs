//! Laws of the lists that the library writes: subscriptions, metadata and
//! SQL texts.
use crate::bench::compare;
use crate::binance;
use crate::coinbase;
use crate::event::Venue;
use crate::json;
use crate::kraken;
use crate::rawlog;
use crate::sink;
use crate::sink::RotatingRawLog;
use crate::text;
use vstd::prelude::*;
use vstd::utf8::*;

verus! {

/// Binance's stream list has the depth and the trade stream of each symbol,
/// small letters throughout, with slashes between: one symbol more adds its
/// two streams at the end.
pub proof fn lemma_streams(t: Seq<(Seq<u8>, u32)>, e: (Seq<u8>, u32), k: int)
    requires
        0 <= k <= t.len(),
    ensures
        binance::stream_list(Seq::empty(), 0).len() == 0,
        ({
            let sym = strings_lower(e.0);
            binance::stream_list(t.push(e), k) == binance::stream_list(t, k) + ((if t.len() > 0 {
                "/"@
            } else {
                Seq::empty()
            }) + sym + "@depth@100ms/"@ + sym + "@trade"@)
        }),
    decreases t.len() - k,
{
    let u = t.push(e);
    if k < t.len() {
        lemma_streams(t, e, k + 1);
        assert(u[k] == t[k]);
        assert(binance::stream_list(u, k) =~= binance::stream_list(t, k) + ((if t.len() > 0 {
            "/"@
        } else {
            Seq::empty()
        }) + strings_lower(e.0) + "@depth@100ms/"@ + strings_lower(e.0) + "@trade"@));
    } else {
        assert(u[k] == e);
        assert(binance::stream_list(u, k + 1) =~= Seq::<char>::empty());
        assert(binance::stream_list(t, k) =~= Seq::<char>::empty());
        assert(binance::stream_list(u, k) =~= binance::stream_list(t, k) + ((if t.len() > 0 {
            "/"@
        } else {
            Seq::empty()
        }) + strings_lower(e.0) + "@depth@100ms/"@ + strings_lower(e.0) + "@trade"@));
    }
}

/// A symbol in small letters.
pub open spec fn strings_lower(sym: Seq<u8>) -> Seq<char> {
    binance::lowercase_of(decode_utf8(sym))
}

/// Coinbase's product list has each symbol in quotes, with commas between:
/// one symbol more is one at the end.
pub proof fn lemma_products(t: Seq<(Seq<u8>, u32)>, e: (Seq<u8>, u32), k: int)
    requires
        0 <= k <= t.len(),
    ensures
        coinbase::product_list(Seq::empty(), 0).len() == 0,
        coinbase::product_list(t.push(e), k) == coinbase::product_list(t, k) + ((if t.len() > 0 {
            ","@
        } else {
            Seq::empty()
        }) + "\""@ + decode_utf8(e.0) + "\""@),
    decreases t.len() - k,
{
    let u = t.push(e);
    let item = (if t.len() > 0 {
        ","@
    } else {
        Seq::empty()
    }) + "\""@ + decode_utf8(e.0) + "\""@;
    if k < t.len() {
        lemma_products(t, e, k + 1);
        assert(u[k] == t[k]);
    } else {
        assert(u[k] == e);
        assert(coinbase::product_list(u, k + 1) =~= Seq::<char>::empty());
        assert(coinbase::product_list(t, k) =~= Seq::<char>::empty());
    }
    assert(coinbase::product_list(u, k) =~= coinbase::product_list(t, k) + item);
}

/// Kraken's symbol list has each symbol as a JSON string, with commas
/// between: one symbol more is one at the end.
pub proof fn lemma_symbols(t: Seq<(Seq<u8>, u32)>, e: (Seq<u8>, u32), k: int)
    requires
        0 <= k <= t.len(),
    ensures
        kraken::symbol_items(Seq::empty(), 0).len() == 0,
        kraken::symbol_items(t.push(e), k) == kraken::symbol_items(t, k) + ((if t.len() > 0 {
            ","@
        } else {
            Seq::empty()
        }) + json::json_quoted(decode_utf8(e.0))),
    decreases t.len() - k,
{
    let u = t.push(e);
    let item = (if t.len() > 0 {
        ","@
    } else {
        Seq::empty()
    }) + json::json_quoted(decode_utf8(e.0));
    if k < t.len() {
        lemma_symbols(t, e, k + 1);
        assert(u[k] == t[k]);
    } else {
        assert(u[k] == e);
        assert(kraken::symbol_items(u, k + 1) =~= Seq::<char>::empty());
        assert(kraken::symbol_items(t, k) =~= Seq::<char>::empty());
    }
    assert(kraken::symbol_items(u, k) =~= kraken::symbol_items(t, k) + item);
}

/// The metadata of a segment lists each symbol with its id, with commas
/// between: one symbol more is one at the end.
pub proof fn lemma_metadata(t: Seq<(&str, u32)>, e: (&str, u32), k: int)
    requires
        0 <= k <= t.len(),
    ensures
        sink::meta_text(t) == "{\"symbols\":["@ + sink::meta_items(t, 0) + "]}"@,
        sink::meta_items(Seq::empty(), 0).len() == 0,
        sink::meta_items(t.push(e), k) == sink::meta_items(t, k) + ((if t.len() > 0 {
            ","@
        } else {
            Seq::empty()
        }) + "{\"id\":"@ + text::chars_of(text::dec_bytes(e.1 as nat)) + ",\"sym\":"@
            + json::json_quoted(e.0@) + "}"@),
    decreases t.len() - k,
{
    let u = t.push(e);
    let item = (if t.len() > 0 {
        ","@
    } else {
        Seq::empty()
    }) + "{\"id\":"@ + text::chars_of(text::dec_bytes(e.1 as nat)) + ",\"sym\":"@
        + json::json_quoted(e.0@) + "}"@;
    if k < t.len() {
        lemma_metadata(t, e, k + 1);
        assert(u[k] == t[k]);
    } else {
        assert(u[k] == e);
        assert(sink::meta_items(u, k + 1) =~= Seq::<char>::empty());
        assert(sink::meta_items(t, k) =~= Seq::<char>::empty());
    }
    assert(sink::meta_items(u, k) =~= sink::meta_items(t, k) + item);
}

/// A SQL text has every single quote twice and every other character once.
pub proof fn lemma_doubled_quotes(s: Seq<char>, c: char, i: int)
    requires
        0 <= i <= s.len(),
    ensures
        compare::doubled_quotes(Seq::empty(), 0).len() == 0,
        c == '\'' ==> compare::doubled_quotes(s.push(c), i) == compare::doubled_quotes(s, i)
            + seq!['\'', '\''],
        c != '\'' ==> compare::doubled_quotes(s.push(c), i) == compare::doubled_quotes(s, i).push(
            c,
        ),
    decreases s.len() - i,
{
    reveal_strlit("''");
    assert("''"@ =~= seq!['\'', '\'']);
    let u = s.push(c);
    if i < s.len() {
        lemma_doubled_quotes(s, c, i + 1);
        assert(u[i] == s[i]);
    } else {
        assert(u[i] == c);
        assert(compare::doubled_quotes(u, i + 1) =~= Seq::<char>::empty());
        assert(compare::doubled_quotes(s, i) =~= Seq::<char>::empty());
    }
    if c == '\'' {
        assert(compare::doubled_quotes(u, i) =~= compare::doubled_quotes(s, i) + seq!['\'', '\'']);
    } else {
        assert(compare::doubled_quotes(u, i) =~= compare::doubled_quotes(s, i).push(c));
    }
}

/// A segment is full from its byte budget on, or from its age on; a clock
/// that went back makes it no older.
pub proof fn lemma_full_segment(log: RotatingRawLog, now: u64)
    ensures
        log.over_budget(now) <==> {
            ||| log.log().len() >= log.budget().0
            ||| now >= log.opened_at() && now - log.opened_at() >= log.budget().1.nanos
            ||| log.budget().1.nanos == 0
        },
{
}

/// A record that a segment takes is its last, and the segment grows by that
/// record's bytes and nothing else.
pub proof fn lemma_taken_record(log: RotatingRawLog, before: RotatingRawLog, rec: rawlog::Record)
    requires
        log.took(before, rec),
    ensures
        log.held().len() == before.held().len() + 1,
        log.held().last() == rec,
        log.held().drop_last() == before.held(),
        log.log().len() == before.log().len() + 25 + rec.payload.len(),
        log.log().take(before.log().len() as int) == before.log(),
        log.segments() == before.segments(),
        log.opened_at() == before.opened_at(),
{
    assert(log.held().drop_last() =~= before.held());
    assert(log.log().take(before.log().len() as int) =~= before.log());
    crate::laws::rawlog::lemma_record_layout(rec);
}

/// A segment is named by its venue and its time.
pub proof fn lemma_segment_name(v: Venue, a: u64, b: u64)
    ensures
        sink::segment_name_spec(v, a) == sink::segment_name_spec(v, b) ==> a == b,
{
    if sink::segment_name_spec(v, a) == sink::segment_name_spec(v, b) {
        let p = v.name_spec() + "-"@;
        let x = text::chars_of(text::dec_bytes(a as nat));
        let y = text::chars_of(text::dec_bytes(b as nat));
        let z = ".fbraw"@;
        assert((p + x + z).len() == (p + y + z).len());
        assert forall|i: int| 0 <= i < x.len() implies x[i] == y[i] by {
            assert((p + x + z)[p.len() + i] == x[i]);
            assert((p + y + z)[p.len() + i] == y[i]);
        }
        let da = text::dec_bytes(a as nat);
        let db = text::dec_bytes(b as nat);
        crate::laws::digits::lemma_decimal_form(a as nat);
        crate::laws::digits::lemma_decimal_form(b as nat);
        assert(da =~= db) by {
            assert forall|i: int| 0 <= i < da.len() implies da[i] == db[i] by {
                assert(x[i] == da[i] as char);
                assert(y[i] == db[i] as char);
            }
        }
    }
}

} // verus!
