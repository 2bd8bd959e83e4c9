//! Laws of the payloads that are read byte by byte: lists, and the REST
//! snapshots of Coinbase.
use crate::binance::fast as bfast;
use crate::codec;
use crate::codec::CodecError;
use crate::coinbase::fast as cfast;
use crate::coinbase::msg::Msg;
use crate::fixed;
use crate::kraken::frame;
use crate::laws::scan as scan_laws;
use crate::scan;
use crate::text;
use vstd::prelude::*;

verus! {

/// Behind one level of a Binance list, a comma leads to the others, a bracket
/// ends the list, and anything else spoils it.
pub proof fn lemma_binance_list(b: Seq<u8>, i: int, acc: Seq<(i64, i64)>)
    ensures
        bfast::level_at(b, i) matches Err(e) ==> bfast::levels_at(b, i, acc) == Err::<
            (Seq<(i64, i64)>, int),
            CodecError,
        >(e),
        bfast::level_at(b, i) matches Ok((l, j)) ==> {
            &&& 0 <= j < b.len() && b[j] == 0x2c ==> bfast::levels_at(b, i, acc)
                == bfast::levels_at(b, j + 1, acc.push(l))
            &&& 0 <= j < b.len() && b[j] == 0x5d ==> bfast::levels_at(b, i, acc) == Ok::<
                (Seq<(i64, i64)>, int),
                CodecError,
            >((acc.push(l), j + 1))
            &&& j >= b.len() || (b[j] != 0x2c && b[j] != 0x5d) ==> bfast::levels_at(
                b,
                i,
                acc,
            ) is Err
        },
{
    bfast::lemma_level_at(b, i);
}

/// Behind one level of a Coinbase list, a comma leads to the others, a
/// bracket ends the list, and anything else spoils it; the same of changes.
pub proof fn lemma_coinbase_lists(
    b: Seq<u8>,
    i: int,
    rest: bool,
    acc: Seq<(i64, i64)>,
    changes: Seq<(bool, i64, i64)>,
)
    requires
        0 <= i <= b.len(),
    ensures
        cfast::level_at(b, i, rest) matches Ok((l, j)) ==> {
            let w = scan::ws_end(b, j);
            &&& 0 <= w < b.len() && b[w] == 0x2c ==> cfast::levels_at(b, i, rest, acc)
                == cfast::levels_at(b, w + 1, rest, acc.push(l))
            &&& 0 <= w < b.len() && b[w] == 0x5d ==> cfast::levels_at(b, i, rest, acc) == Ok::<
                Seq<(i64, i64)>,
                CodecError,
            >(acc.push(l))
        },
        cfast::level_at(b, i, rest) is Err ==> cfast::levels_at(b, i, rest, acc) is Err,
        cfast::change_at(b, i) matches Ok((c, j)) ==> {
            let w = scan::ws_end(b, j);
            &&& 0 <= w < b.len() && b[w] == 0x2c ==> cfast::changes_at(b, i, changes)
                == cfast::changes_at(b, w + 1, changes.push(c))
            &&& 0 <= w < b.len() && b[w] == 0x5d ==> cfast::changes_at(b, i, changes) == Ok::<
                Seq<(bool, i64, i64)>,
                CodecError,
            >(changes.push(c))
        },
        cfast::change_at(b, i) is Err ==> cfast::changes_at(b, i, changes) is Err,
{
    cfast::lemma_level_at(b, i, rest);
    cfast::lemma_change_at(b, i);
}

/// A Kraken level list is read level by level: one more where the list goes
/// on, and all of them where it ends.
pub proof fn lemma_kraken_list(b: Seq<u8>, i: int, levels: Seq<(i64, i64)>)
    requires
        0 <= i <= b.len(),
    ensures
        frame::list_at(b, i, levels.len() == 0, "level separator") matches Ok((end, j)) ==> {
            &&& end ==> frame::levels_at(b, i, levels) == Ok::<
                (Seq<(i64, i64)>, int),
                CodecError,
            >((levels, j))
            &&& !end ==> (frame::level_at(b, j) matches Ok((l, k)) ==> frame::levels_at(
                b,
                i,
                levels,
            ) == frame::levels_at(b, k, levels.push(l)))
            &&& !end && frame::level_at(b, j) is Err ==> frame::levels_at(b, i, levels) is Err
        },
{
}

/// A byte that is no white space is where skipping stops.
proof fn lemma_no_space(b: Seq<u8>, i: int)
    requires
        0 <= i <= b.len(),
        i < b.len() ==> !scan::is_ws(b[i]),
    ensures
        scan::ws_end(b, i) == i,
{
}

/// The string token `"s"` behind `before` is read, with `after` behind it.
proof fn lemma_string_here(before: Seq<u8>, s: Seq<u8>, after: Seq<u8>, what: &'static str)
    requires
        !s.contains(0x22),
        !s.contains(0x5c),
    ensures
        cfast::elem_str_at(
            before + seq![0x22u8] + s + seq![0x22u8] + after,
            before.len() as int,
            what,
        ) == Ok::<(Seq<u8>, int), CodecError>((s, before.len() as int + s.len() + 2)),
{
    let b = before + seq![0x22u8] + s + seq![0x22u8] + after;
    assert(b[before.len() as int] == 0x22);
    lemma_no_space(b, before.len() as int);
    scan_laws::lemma_string_token(before, s, after);
}

/// The time of a Coinbase REST snapshot is the one behind the last `"time":`
/// of the body, whatever stands before it.
pub proof fn lemma_rest_time(
    before: Seq<u8>,
    t: Seq<u8>,
    after: Seq<u8>,
    instrument: u32,
)
    requires
        !t.contains(0x22),
        !t.contains(0x5c),
        forall|j: int|
            before.len() < j ==> !#[trigger] scan::occurs_at(
                before + codec::lit("\"time\":") + seq![0x22u8] + t + seq![0x22u8] + after,
                codec::lit("\"time\":"),
                j,
            ),
    ensures
        cfast::rest_msg(
            before + codec::lit("\"time\":") + seq![0x22u8] + t + seq![0x22u8] + after,
            instrument,
        ) matches Ok(m) ==> (m matches Msg::Snapshot(x) && scan::rfc3339_spec(t) == Some(x.ts)),
{
    reveal(cfast::rest_msg);
    let key = codec::lit("\"time\":");
    let b = before + key + seq![0x22u8] + t + seq![0x22u8] + after;
    let n = before.len() as int;
    assert(b.subrange(n, n + key.len()) =~= key);
    assert(scan::occurs_at(b, key, n));
    assert(cfast::last_at(b, key, n));
    let c = choose|i: int| cfast::last_at(b, key, i);
    assert(cfast::last_at(b, key, c));
    assert(c == n) by {
        if c < n {
            assert(!scan::occurs_at(b, key, n));
        } else if n < c {
            assert(!scan::occurs_at(b, key, c));
        }
    }
    lemma_string_here(before + key, t, after, "time");
}

/// A Coinbase REST snapshot says its own sequence number, that of the first
/// `"sequence":` of the body, for the instrument that it was asked for; it is
/// marked as one of REST, and without a time it has the time 0.
pub proof fn lemma_rest_sequence(
    before: Seq<u8>,
    d: Seq<u8>,
    after: Seq<u8>,
    instrument: u32,
)
    requires
        d.len() > 0,
        forall|i: int| 0 <= i < d.len() ==> 0x30 <= #[trigger] d[i] <= 0x39,
        after.len() > 0 ==> !(0x30 <= after[0] <= 0x39),
        forall|j: int|
            0 <= j < before.len() ==> !#[trigger] scan::occurs_at(
                before + codec::lit("\"sequence\":") + d + after,
                codec::lit("\"sequence\":"),
                j,
            ),
    ensures
        ({
            let b = before + codec::lit("\"sequence\":") + d + after;
            cfast::rest_msg(b, instrument) matches Ok(m) ==> (m matches Msg::Snapshot(x) && {
                &&& x.seq == text::digits_value(d)
                &&& x.instrument == instrument
                &&& x.rest
                &&& (forall|j: int| !#[trigger] scan::occurs_at(b, codec::lit("\"time\":"), j))
                    ==> x.ts == 0
                &&& cfast::book_sides(b, true) == Ok::<
                    (Seq<(i64, i64)>, Seq<(i64, i64)>),
                    CodecError,
                >((x.bids, x.asks))
            })
        }),
{
    reveal(cfast::rest_msg);
    let key = codec::lit("\"sequence\":");
    let b = before + key + d + after;
    let n = before.len() as int;
    assert(b.skip(0) =~= b);
    assert(b.subrange(n, n + key.len()) =~= key);
    assert(scan::occurs_at(b, key, n));
    scan::lemma_find_is(b, key, n);
    let at = n + key.len();
    assert(b[at] == d[0]);
    lemma_no_space(b, at);
    scan_laws::lemma_integer(before + key, d, after);
}

/// The sides of a Coinbase snapshot: the bids stand behind the first
/// `"bids":` and the asks behind the first `"asks":`, in whichever order, and
/// neither is taken for the other.
pub proof fn lemma_coinbase_sides(b: Seq<u8>, rest: bool)
    ensures
        cfast::book_sides(b, rest) matches Ok((bids, asks)) ==> {
            let i = scan::past(b, 0, codec::lit("\"bids\":"));
            let j = scan::past(b, 0, codec::lit("\"asks\":"));
            &&& i is Some && cfast::level_array_at(b, i->0, rest) == Ok::<
                Seq<(i64, i64)>,
                CodecError,
            >(bids)
            &&& j is Some && cfast::level_array_at(b, j->0, rest) == Ok::<
                Seq<(i64, i64)>,
                CodecError,
            >(asks)
        },
{
}

/// The string token `"s"` stands in `b` at `i`.
pub open spec fn string_stands(b: Seq<u8>, i: int, s: Seq<u8>) -> bool {
    &&& 0 <= i && i + s.len() + 2 <= b.len()
    &&& b[i] == 0x22 && b[i + 1 + s.len()] == 0x22
    &&& b.subrange(i + 1, i + 1 + s.len()) == s
    &&& !s.contains(0x22) && !s.contains(0x5c)
}

proof fn lemma_stands(b: Seq<u8>, i: int, s: Seq<u8>, what: &'static str)
    requires
        string_stands(b, i, s),
    ensures
        cfast::elem_str_at(b, i, what) == Ok::<(Seq<u8>, int), CodecError>((s, i + s.len() + 2)),
{
    let before = b.take(i);
    let after = b.skip(i + s.len() + 2);
    let c = before + seq![0x22u8] + s + seq![0x22u8] + after;
    assert(b =~= c) by {
        assert(c.len() == b.len());
        assert forall|k: int| 0 <= k < b.len() implies b[k] == c[k] by {
            if i < k < i + 1 + s.len() {
                assert(b.subrange(i + 1, i + 1 + s.len())[k - i - 1] == b[k]);
            }
        }
    }
    lemma_string_here(before, s, after, what);
}

/// A level of a Coinbase REST snapshot, `["price","qty",orders]`, is its
/// price and its quantity; the number of orders is read and not used.
pub proof fn lemma_rest_level(b: Seq<u8>, i: int, p: Seq<u8>, q: Seq<u8>, d: Seq<u8>)
    requires
        0 <= i,
        ({
            let j = i + 1 + p.len() + 2;
            let k = j + 1 + q.len() + 2;
            let m = k + 1 + d.len();
            &&& m < b.len()
            &&& b[i] == 0x5b && string_stands(b, i + 1, p)
            &&& b[j] == 0x2c && string_stands(b, j + 1, q)
            &&& b[k] == 0x2c && b.subrange(k + 1, m) == d
            &&& b[m] == 0x5d
        }),
        d.len() > 0,
        forall|x: int| 0 <= x < d.len() ==> 0x30 <= #[trigger] d[x] <= 0x39,
        text::digits_value(d) <= u64::MAX,
    ensures
        ({
            let r = cfast::level_at(b, i, true);
            &&& (r is Ok <==> fixed::parse_fixed_spec(p) is Ok && fixed::parse_fixed_spec(q) is Ok)
            &&& r matches Ok((l, end)) ==> {
                &&& fixed::parse_fixed_spec(p) == Ok::<i64, fixed::ParseFixedError>(l.0)
                &&& fixed::parse_fixed_spec(q) == Ok::<i64, fixed::ParseFixedError>(l.1)
                &&& end == i + 1 + p.len() + 2 + 1 + q.len() + 2 + 1 + d.len() + 1
            }
        }),
{
    reveal(cfast::level_at);
    let j = i + 1 + p.len() + 2;
    let k = j + 1 + q.len() + 2;
    let m = k + 1 + d.len();
    lemma_no_space(b, i);
    assert(cfast::mark_at(b, i, 0x5b, "level entry") == Ok::<int, CodecError>(i + 1));
    lemma_stands(b, i + 1, p, "level price");
    lemma_no_space(b, j);
    assert(cfast::mark_at(b, j, 0x2c, "level sep") == Ok::<int, CodecError>(j + 1));
    lemma_stands(b, j + 1, q, "level qty");
    assert(cfast::orders_at(b, k) == Ok::<int, CodecError>(m)) by {
        lemma_no_space(b, k);
        assert(b.subrange(k + 1, m)[0] == b[k + 1]);
        lemma_no_space(b, k + 1);
        let before = b.take(k + 1);
        let after = b.skip(m);
        assert(after[0] == b[m]);
        assert(b =~= before + d + after) by {
            assert forall|x: int| 0 <= x < b.len() implies b[x] == (before + d + after)[x] by {
                if k + 1 <= x < m {
                    assert(b.subrange(k + 1, m)[x - k - 1] == b[x]);
                }
            }
        }
        scan_laws::lemma_integer(before, d, after);
    }
    lemma_no_space(b, m);
    assert(cfast::mark_at(b, m, 0x5d, "level end") == Ok::<int, CodecError>(m + 1));
}

} // verus!
