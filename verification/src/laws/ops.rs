//! Laws of the registry, the capture program, its counters, its sink and the
//! pinned precisions.
use crate::args;
use crate::capture;
use crate::clock;
use crate::codec;
use crate::codec::{CodecError, CodecStats, Signal};
use crate::event::{Event, Venue};
use crate::fixed;
use crate::instrument;
use crate::instrument::{Meta, RegistryError};
use crate::json::JsonValue;
use crate::kraken::pairs;
use crate::stats;
use crate::stats::{EmitterEntry, StatsSnapshot, VenueStats};
use crate::strings;
use vstd::prelude::*;

verus! {

/// The entry `m` clashes with one of `t`: they have one id, or one venue and
/// one symbol.
pub open spec fn clashes(t: Seq<Meta>, m: Meta) -> bool {
    exists|i: int|
        0 <= i < t.len() && ((#[trigger] t[i]).id == m.id || (t[i].venue == m.venue && t[i].symbol
            == m.symbol))
}

/// An entry joins exactly where its id is not 0 and it clashes with none; a
/// registry with one entry more is unambiguous exactly where it was and the
/// entry joins it.
pub proof fn lemma_joining(t: Seq<Meta>, m: Meta)
    ensures
        instrument::joins(t, m) <==> m.id != 0 && !clashes(t, m),
        instrument::unambiguous(Seq::empty()),
        instrument::unambiguous(t.push(m)) <==> instrument::unambiguous(t) && instrument::joins(
            t,
            m,
        ),
{
    let u = t.push(m);
    assert(u[t.len() as int] == m);
    assert forall|i: int| 0 <= i < t.len() implies u[i] == #[trigger] t[i] by {}
    if clashes(t, m) {
        let i = choose|i: int|
            0 <= i < t.len() && ((#[trigger] t[i]).id == m.id || (t[i].venue == m.venue
                && t[i].symbol == m.symbol));
        assert(instrument::has_id(t, m.id) || instrument::has_symbol(t, m.venue, m.symbol));
    }
    if instrument::has_id(t, m.id) {
        let i = choose|i: int| 0 <= i < t.len() && (#[trigger] t[i]).id == m.id;
        assert(clashes(t, m));
        assert(u[i].id == u[t.len() as int].id);
    }
    if instrument::has_symbol(t, m.venue, m.symbol) {
        let i = choose|i: int|
            0 <= i < t.len() && (#[trigger] t[i]).venue == m.venue && t[i].symbol == m.symbol;
        assert(clashes(t, m));
        assert(u[i].symbol == u[t.len() as int].symbol);
    }
    if instrument::unambiguous(u) {
        assert forall|i: int, j: int| 0 <= i < j < t.len() implies (#[trigger] t[i]).id != (
        #[trigger] t[j]).id by {
            assert(u[i].id != u[j].id);
        }
        assert forall|i: int, j: int|
            0 <= i < j < t.len() && (#[trigger] t[i]).venue == (#[trigger] t[j]).venue implies t[i].symbol
            != t[j].symbol by {
            assert(u[i].venue == u[j].venue);
        }
        assert forall|i: int| 0 <= i < t.len() implies (#[trigger] t[i]).id != 0 by {
            assert(u[i].id != 0);
        }
        assert(u[t.len() as int].id != 0);
    }
}

/// Why an entry is refused: the id 0 comes before a taken id, and that before
/// a taken symbol; what joins is not refused.
pub proof fn lemma_refused(t: Seq<Meta>, m: Meta, e: RegistryError)
    ensures
        instrument::refused(t, m, e) ==> !instrument::joins(t, m),
        m.id == 0 ==> (instrument::refused(t, m, e) <==> e is ReservedId),
        m.id != 0 && instrument::has_id(t, m.id) ==> (instrument::refused(t, m, e) <==> e
            == RegistryError::DuplicateId(m.id)),
        m.id != 0 && !instrument::has_id(t, m.id) && instrument::refused(t, m, e)
            ==> e is DuplicateSymbol,
{
}

/// The builtin universe: five bases at three venues, ids from 1, venue by
/// venue, and one canonical name for each base at all of them.
pub proof fn lemma_builtin(i: int)
    requires
        0 <= i < 15,
    ensures
        ({
            let t = instrument::builtin_metas();
            let v = i / 5;
            &&& t.len() == 15
            &&& t[i].id == i + 1
            &&& t[i].venue.code_spec() == v + 1
            &&& t[i].canonical == t[i % 5].canonical
            &&& t[i].canonical == instrument::base_symbol(i % 5) + "-USD"@
            &&& v == 0 ==> t[i].symbol == t[i].canonical
            &&& v == 1 ==> t[i].symbol == instrument::base_symbol(i % 5) + "USDT"@
            &&& v == 2 ==> t[i].symbol == instrument::base_symbol(i % 5) + "/USD"@
        }),
{
    assert((i % 5) % 5 == i % 5);
}

/// The base of a canonical name is what stands before its first dash, or the
/// whole name where it has none.
pub proof fn lemma_base(a: Seq<char>, b: Seq<char>)
    requires
        !a.contains('-'),
    ensures
        capture::base_from(a + seq!['-'] + b, 0) == a,
        capture::base_from(a, 0) == a,
{
    let n = a.len() as int;
    assert((a + seq!['-'] + b).take(n) =~= a);
    assert(a.take(n) =~= a);
    lemma_base_from(a, a + seq!['-'] + b, 0);
    lemma_base_from(a, a, 0);
}

proof fn lemma_base_from(a: Seq<char>, s: Seq<char>, i: int)
    requires
        !a.contains('-'),
        0 <= i <= a.len() <= s.len(),
        s.take(a.len() as int) == a,
        a.len() < s.len() ==> s[a.len() as int] == '-',
    ensures
        capture::base_from(s, i) == a,
    decreases a.len() - i,
{
    if i < a.len() {
        assert(s.take(a.len() as int)[i] == s[i]);
        assert(a.contains(a[i]));
        lemma_base_from(a, s, i + 1);
    }
}

/// A part of `--venues` names the venue whose name it is, up to white space
/// around it and the case of its letters.
pub proof fn lemma_venue_named(part: Seq<char>, v: Venue)
    ensures
        capture::venue_named(part) == Some(v) <==> strings::lowered(strings::trimmed(part))
            == v.name_spec(),
{
    reveal_strlit("coinbase");
    reveal_strlit("binance");
    reveal_strlit("kraken");
    assert("coinbase"@.len() == 8);
    assert("binance"@.len() == 7);
    assert("kraken"@.len() == 6);
}

/// The part `i` is the first from `k` on that names no venue.
pub open spec fn first_unnamed(parts: Seq<Seq<char>>, k: int, i: int) -> bool {
    &&& k <= i < parts.len()
    &&& capture::venue_named(parts[i]) is None
    &&& forall|j: int| k <= j < i ==> capture::venue_named(#[trigger] parts[j]) is Some
}

/// A list of venues is read exactly where each of its parts names one, and
/// then it is those venues in order; otherwise the first that names none is
/// reported.
pub proof fn lemma_venues(parts: Seq<Seq<char>>, k: int)
    requires
        0 <= k <= parts.len(),
    ensures
        match capture::venues_from(parts, k) {
            Ok(list) => list.len() == parts.len() - k && forall|i: int|
                0 <= i < list.len() ==> capture::venue_named(parts[k + i]) == Some(
                    #[trigger] list[i],
                ),
            Err(e) => exists|i: int| #[trigger]
                first_unnamed(parts, k, i) && e == "unknown venue: "@ + strings::lowered(
                    strings::trimmed(parts[i]),
                ),
        },
    decreases parts.len() - k,
{
    if k < parts.len() {
        let rest = capture::venues_from(parts, k + 1);
        let named = capture::venue_named(parts[k]);
        if named is None {
            assert(first_unnamed(parts, k, k));
        } else {
            lemma_venues(parts, k + 1);
            if rest is Ok {
                let list = seq![named->0] + rest->Ok_0;
                assert forall|i: int| 0 <= i < list.len() implies capture::venue_named(
                    parts[k + i],
                ) == Some(#[trigger] list[i]) by {
                    if i > 0 {
                        assert(list[i] == rest->Ok_0[i - 1]);
                        assert(parts[k + i] == parts[k + 1 + (i - 1)]);
                    }
                }
            } else {
                let i = choose|i: int| #[trigger]
                    first_unnamed(parts, k + 1, i) && rest->Err_0 == "unknown venue: "@
                        + strings::lowered(strings::trimmed(parts[i]));
                assert(first_unnamed(parts, k, i));
            }
        }
    }
}

/// What a capture command line asks for: at least one venue and one symbol,
/// each value the one that its flag was given last, and all venues and the
/// usual symbols and paths where it was given none.
pub proof fn lemma_capture_choice(argv: Seq<Seq<char>>)
    ensures
        ({
            let t = args::tokens(argv, capture::flags(), 0);
            capture::choice_of(argv) matches Ok(c) ==> {
                &&& c.venues.len() > 0
                &&& c.symbols.len() > 0
                &&& args::last_value(t, 0) matches Some(v) ==> c.data_dir == v
                &&& args::last_value(t, 0) is None ==> c.data_dir == "data/raw"@
                &&& args::last_value(t, 1) matches Some(v) ==> c.stats_file == v
                &&& args::last_value(t, 1) is None ==> c.stats_file == "ops/soak/stats.jsonl"@
                &&& args::last_value(t, 2) matches Some(v) ==> c.pid_file == v
                &&& args::last_value(t, 2) is None ==> c.pid_file == "ops/soak/capture.pid"@
                &&& args::last_value(t, 3) matches Some(v) ==> capture::venues_of(v) == Ok::<
                    Seq<Venue>,
                    Seq<char>,
                >(c.venues)
                &&& args::last_value(t, 3) is None ==> c.venues == seq![
                    Venue::Coinbase,
                    Venue::Binance,
                    Venue::Kraken,
                ]
                &&& args::last_value(t, 4) matches Some(v) ==> c.symbols == capture::symbols_of(v)
                &&& args::last_value(t, 4) is None ==> c.symbols == seq![
                    "BTC"@,
                    "ETH"@,
                    "SOL"@,
                    "XRP"@,
                    "DOGE"@,
                ]
            }
        }),
{
    assert(Venue::ALL@ =~= seq![Venue::Coinbase, Venue::Binance, Venue::Kraken]);
}

/// The symbols that are asked for: each part without the white space around
/// it and in capitals, in order.
pub proof fn lemma_symbols(v: Seq<char>, i: int)
    ensures
        capture::symbols_of(v).len() == strings::parts(v).len(),
        0 <= i < strings::parts(v).len() ==> capture::symbols_of(v)[i] == strings::uppered(
            strings::trimmed(strings::parts(v)[i]),
        ),
{
}

/// The table of a venue's symbols: an entry for each instrument, in order.
/// The first of two equal symbols counts, and one that is not there is not
/// found.
pub proof fn lemma_lookup(t: Seq<(Seq<u8>, u32)>, sym: Seq<u8>)
    ensures
        match codec::lookup_in(t, sym) {
            Some(id) => exists|i: int|
                0 <= i < t.len() && #[trigger] t[i] == (sym, id) && forall|j: int|
                    0 <= j < i ==> (#[trigger] t[j]).0 != sym,
            None => forall|j: int| 0 <= j < t.len() ==> (#[trigger] t[j]).0 != sym,
        },
    decreases t.len(),
{
    if t.len() > 0 {
        let r = t.drop_first();
        lemma_lookup(r, sym);
        if t[0].0 == sym {
            assert(t[0] == (sym, t[0].1));
        } else {
            match codec::lookup_in(t, sym) {
                Some(id) => {
                    let i = choose|i: int|
                        0 <= i < r.len() && #[trigger] r[i] == (sym, id) && forall|j: int|
                            0 <= j < i ==> (#[trigger] r[j]).0 != sym;
                    assert(t[i + 1] == (sym, id));
                    assert forall|j: int| 0 <= j < i + 1 implies (#[trigger] t[j]).0 != sym by {
                        if j > 0 {
                            assert(r[j - 1] == t[j]);
                        }
                    }
                },
                None => {
                    assert forall|j: int| 0 <= j < t.len() implies (#[trigger] t[j]).0 != sym by {
                        if j > 0 {
                            assert(r[j - 1] == t[j]);
                        }
                    }
                },
            }
        }
    }
}

/// A level is read exactly where both of its tokens are; of two bad tokens
/// the price is the one that is reported.
pub proof fn lemma_fixed_pair(p: Seq<u8>, q: Seq<u8>)
    ensures
        codec::fixed_pair_spec(p, q) is Ok <==> fixed::parse_fixed_spec(p) is Ok
            && fixed::parse_fixed_spec(q) is Ok,
        codec::fixed_pair_spec(p, q) matches Ok(l) ==> fixed::parse_fixed_spec(p) == Ok::<
            i64,
            fixed::ParseFixedError,
        >(l.0) && fixed::parse_fixed_spec(q) == Ok::<i64, fixed::ParseFixedError>(l.1),
        fixed::parse_fixed_spec(p) matches Err(e) ==> codec::fixed_pair_spec(p, q) == Err::<
            (i64, i64),
            CodecError,
        >(CodecError::Fixed(e)),
        fixed::parse_fixed_spec(p) is Ok ==> (fixed::parse_fixed_spec(q) matches Err(e)
            ==> codec::fixed_pair_spec(p, q) == Err::<(i64, i64), CodecError>(
            CodecError::Fixed(e),
        )),
{
}

/// A message that parses appends its events; one that does not leaves the
/// buffer as it was.
pub proof fn lemma_delivery(
    o: codec::Outcome,
    before: Seq<Event>,
    after: Seq<Event>,
    r: Result<Signal, CodecError>,
)
    requires
        codec::delivers(o, before, after, r),
    ensures
        r is Ok <==> o is Ok,
        o is Err ==> after == before && r->Err_0 == o->Err_0,
        o matches Ok(x) ==> r->Ok_0 == x.0 && after.len() == before.len() + x.1.len()
            && after.take(before.len() as int) == before && after.skip(before.len() as int) == x.1,
{
    if let Ok(x) = o {
        assert(after.take(before.len() as int) =~= before);
        assert(after.skip(before.len() as int) =~= x.1);
    }
}

/// A codec's counters grow by what a message adds to them.
pub proof fn lemma_codec_counts(s: CodecStats, fast: u64, gaps: u64, events: u64)
    requires
        s.fast_msgs + fast <= u64::MAX,
        s.gaps + gaps <= u64::MAX,
        s.events + events <= u64::MAX,
    ensures
        ({
            let t = s.plus(fast, gaps, events);
            &&& t.fast_msgs == s.fast_msgs + fast
            &&& t.gaps == s.gaps + gaps
            &&& t.events == s.events + events
            &&& t.errors == s.errors
            &&& t.fallbacks == s.fallbacks
        }),
        CodecStats::zero().fast_msgs == 0 && CodecStats::zero().gaps == 0
            && CodecStats::zero().events == 0 && CodecStats::zero().errors == 0
            && CodecStats::zero().fallbacks == 0,
{
}

/// A snapshot of the counters has each of them as it is, and two snapshots
/// add up counter by counter.
pub proof fn lemma_snapshots(v: VenueStats, a: StatsSnapshot, b: StatsSnapshot)
    ensures
        ({
            let s = v.snapshot_spec();
            &&& s.msgs == v.msgs && s.bytes == v.bytes && s.events == v.events && s.gaps == v.gaps
            &&& s.resyncs == v.resyncs && s.reconnects == v.reconnects && s.fallbacks
                == v.fallbacks
            &&& s.parse_errors == v.parse_errors && s.rest_snaps == v.rest_snaps
        }),
        a.can_add(b) ==> {
            let s = a.plus(b);
            &&& s.msgs == a.msgs + b.msgs && s.bytes == a.bytes + b.bytes && s.events == a.events
                + b.events && s.gaps == a.gaps + b.gaps
            &&& s.resyncs == a.resyncs + b.resyncs && s.reconnects == a.reconnects + b.reconnects
                && s.fallbacks == a.fallbacks + b.fallbacks
            &&& s.parse_errors == a.parse_errors + b.parse_errors && s.rest_snaps == a.rest_snaps
                + b.rest_snaps
        },
        StatsSnapshot::zero().plus(a) == a,
{
}

/// The totals of a tick: nothing over no entries, and each entry adds its
/// counters and gauges.
pub proof fn lemma_totals(es: Seq<EmitterEntry>, n: int)
    requires
        stats::totals_fit(es),
        0 <= n < es.len(),
    ensures
        stats::totals(es, 0) == (StatsSnapshot::zero(), 0u64, 0u64),
        ({
            let t = stats::totals(es, n);
            let u = stats::totals(es, n + 1);
            let v = es[n].stats;
            &&& u.0.msgs == t.0.msgs + v.msgs && u.0.bytes == t.0.bytes + v.bytes
            &&& u.0.events == t.0.events + v.events && u.0.gaps == t.0.gaps + v.gaps
            &&& u.0.resyncs == t.0.resyncs + v.resyncs && u.0.reconnects == t.0.reconnects
                + v.reconnects
            &&& u.0.fallbacks == t.0.fallbacks + v.fallbacks && u.0.parse_errors
                == t.0.parse_errors + v.parse_errors
            &&& u.0.rest_snaps == t.0.rest_snaps + v.rest_snaps
            &&& u.1 == t.1 + es[n].gauges.segments
            &&& u.2 == t.2 + es[n].gauges.current_bytes
        }),
{
    let t = stats::totals(es, n);
    assert(t.0.can_add(es[n].stats.snapshot_spec()));
}

/// A clock's nanoseconds are kept as they are, up to what 64 bits hold.
pub proof fn lemma_clock(nanos: u128)
    ensures
        nanos <= u64::MAX ==> clock::clamped(nanos) == nanos,
        nanos > u64::MAX ==> clock::clamped(nanos) == u64::MAX,
{
}

/// The legacy codes: two currencies have one of their own, and any other
/// keeps its code.
pub proof fn lemma_legacy_codes(code: Seq<char>)
    ensures
        pairs::v1_code("BTC"@) == "XBT"@,
        pairs::v1_code("DOGE"@) == "XDG"@,
        code != "BTC"@ && code != "DOGE"@ ==> pairs::v1_code(code) == code,
{
    reveal_strlit("BTC");
    reveal_strlit("DOGE");
    assert("BTC"@.len() == 3 && "DOGE"@.len() == 4);
}

/// The pinned pairs are five, each with eight decimals of quantity and one to
/// seven of price.
pub proof fn lemma_pinned(symbol: Seq<char>)
    ensures
        pairs::pinned_decimals(symbol) is Some <==> symbol == "BTC/USD"@ || symbol == "ETH/USD"@
            || symbol == "SOL/USD"@ || symbol == "XRP/USD"@ || symbol == "DOGE/USD"@,
        pairs::pinned_decimals(symbol) matches Some(d) ==> d.1 == 8 && 1 <= d.0 <= 7,
        symbol == "BTC/USD"@ ==> pairs::pinned_decimals(symbol) == Some((1u32, 8u32)),
        symbol == "ETH/USD"@ ==> pairs::pinned_decimals(symbol) == Some((2u32, 8u32)),
        symbol == "SOL/USD"@ ==> pairs::pinned_decimals(symbol) == Some((2u32, 8u32)),
        symbol == "XRP/USD"@ ==> pairs::pinned_decimals(symbol) == Some((5u32, 8u32)),
        symbol == "DOGE/USD"@ ==> pairs::pinned_decimals(symbol) == Some((7u32, 8u32)),
{
    reveal_strlit("BTC/USD");
    reveal_strlit("ETH/USD");
    reveal_strlit("SOL/USD");
    reveal_strlit("XRP/USD");
    reveal_strlit("DOGE/USD");
    assert("BTC/USD"@[0] == 'B' && "ETH/USD"@[0] == 'E' && "SOL/USD"@[0] == 'S' && "XRP/USD"@[0]
        == 'X' && "DOGE/USD"@[0] == 'D');
}

/// The legacy name of a pair is that of its sides, each by its legacy code.
pub proof fn lemma_legacy_name(a: Seq<char>, b: Seq<char>)
    requires
        !a.contains('/'),
    ensures
        pairs::v1_name_from(a, 0, 0) == pairs::v1_code(a),
        pairs::v1_name_from(a + seq!['/'] + b, 0, 0) == pairs::v1_code(a) + seq!['/']
            + pairs::v1_name_from(b, 0, 0),
{
    let n = a.len() as int;
    let s = a + seq!['/'] + b;
    assert(a.take(n) =~= a);
    assert(s.take(n) =~= a);
    lemma_legacy_part(a, a, 0);
    lemma_legacy_part(a, s, 0);
    assert(s.skip(n + 1) =~= b);
    lemma_legacy_behind(s, b, n + 1, 0, 0);
}

proof fn lemma_legacy_part(a: Seq<char>, s: Seq<char>, i: int)
    requires
        !a.contains('/'),
        0 <= i <= a.len() <= s.len(),
        s.take(a.len() as int) == a,
        a.len() < s.len() ==> s[a.len() as int] == '/',
    ensures
        pairs::v1_name_from(s, 0, i) == (if a.len() < s.len() {
            pairs::v1_code(a) + seq!['/'] + pairs::v1_name_from(
                s,
                a.len() as int + 1,
                a.len() as int + 1,
            )
        } else {
            pairs::v1_code(a)
        }),
    decreases a.len() - i,
{
    if i < a.len() {
        assert(s.take(a.len() as int)[i] == s[i]);
        assert(a.contains(a[i]));
        lemma_legacy_part(a, s, i + 1);
    } else {
        assert(s.subrange(0, i) =~= a);
    }
}

proof fn lemma_legacy_behind(s: Seq<char>, b: Seq<char>, at: int, from: int, i: int)
    requires
        0 <= from <= i <= b.len(),
        0 <= at,
        at + b.len() == s.len(),
        s.skip(at) == b,
    ensures
        pairs::v1_name_from(s, at + from, at + i) == pairs::v1_name_from(b, from, i),
    decreases b.len() - i,
{
    assert(s.subrange(at + from, at + i) =~= b.subrange(from, i)) by {
        assert forall|k: int| 0 <= k < i - from implies s.subrange(at + from, at + i)[k]
            == b.subrange(from, i)[k] by {
            assert(s.skip(at)[from + k] == s[at + from + k]);
        }
    }
    if i < b.len() {
        assert(s.skip(at)[i] == s[at + i]);
        if b[i] == '/' {
            lemma_legacy_behind(s, b, at, i + 1, i + 1);
        } else {
            lemma_legacy_behind(s, b, at, from, i + 1);
        }
    }
}

/// A pinned pair has drifted exactly where the venue does not give it the
/// pinned decimals, and each decimal that differs is a line of its own.
pub proof fn lemma_drift(m: Seq<(Seq<char>, JsonValue)>, symbol: Seq<char>, pin: (u32, u32))
    ensures
        ({
            let lines = pairs::pair_drift(m, symbol, pin);
            match pairs::venue_decimals(m, pairs::v1_name_from(symbol, 0, 0)) {
                None => lines.len() == 1,
                Some((p, q)) => lines.len() == (if p != pin.0 {
                    1int
                } else {
                    0
                }) + (if q != pin.1 {
                    1int
                } else {
                    0
                }),
            }
        }),
{
}

/// Nothing has drifted exactly where no pinned pair has, and the lines of the
/// pairs stand in their order.
pub proof fn lemma_all_drift(
    m: Seq<(Seq<char>, JsonValue)>,
    pinned: Seq<(String, (u32, u32))>,
    k: int,
)
    requires
        0 <= k <= pinned.len(),
    ensures
        pairs::drift(m, pinned, 0).len() == 0,
        k < pinned.len() ==> pairs::drift(m, pinned, k + 1) == pairs::drift(m, pinned, k)
            + pairs::pair_drift(m, pinned[k].0@, pinned[k].1),
        pairs::drift(m, pinned, k).len() == 0 <==> forall|i: int|
            0 <= i < k ==> pairs::pair_drift(m, (#[trigger] pinned[i]).0@, pinned[i].1).len() == 0,
    decreases k,
{
    if k > 0 {
        lemma_all_drift(m, pinned, k - 1);
    }
}

/// Of the entries of a response the last one that gives a pair its decimals
/// counts.
pub proof fn lemma_venue_decimals(
    m: Seq<(Seq<char>, JsonValue)>,
    e: (Seq<char>, JsonValue),
    wsname: Seq<char>,
)
    ensures
        pairs::venue_decimals(Seq::empty(), wsname) is None,
        pairs::entry_decimals(e.1) matches Some((w, p, q)) ==> (w == wsname
            ==> pairs::venue_decimals(m.push(e), wsname) == Some((p, q))),
        !(pairs::entry_decimals(e.1) matches Some((w, _, _)) && w == wsname)
            ==> pairs::venue_decimals(m.push(e), wsname) == pairs::venue_decimals(m, wsname),
{
    assert(m.push(e).drop_last() =~= m);
}

} // verus!
