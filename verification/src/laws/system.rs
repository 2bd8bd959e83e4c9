//! Laws of what is read about the system and of how programs stop.
use crate::args;
use crate::args::{Program, Tok};
use crate::bench::e2e;
use crate::bench::options;
use crate::bench::results;
use crate::bench::store;
use crate::json;
use crate::json::JsonValue;
use crate::strings;
use vstd::prelude::*;
use vstd::utf8::*;

verus! {

/// A program stops at the first token at which it does, and at none exactly
/// where it stops at no token.
pub proof fn lemma_first_halt<P: Program>(p: P, t: Seq<Tok>, i: int)
    requires
        0 <= i <= t.len(),
    ensures
        args::first_halt(p, t, i) is None <==> forall|j: int|
            i <= j < t.len() ==> p.halts(#[trigger] t[j]) is None,
        i < t.len() && p.halts(t[i]) is Some ==> args::first_halt(p, t, i) == p.halts(t[i]),
        i < t.len() && p.halts(t[i]) is None ==> args::first_halt(p, t, i) == args::first_halt(
            p,
            t,
            i + 1,
        ),
    decreases t.len() - i,
{
    if i < t.len() {
        lemma_first_halt(p, t, i + 1);
    }
}

/// What every program stops at: an argument that is no flag, a result
/// directory that is missing, and a call for help.
pub proof fn lemma_shared_halt(
    t: Tok,
    usage: Seq<char>,
    needs: Seq<char>,
    offers_help: bool,
)
    ensures
        ({
            let h = options::shared_halt(t, usage, needs, offers_help);
            &&& (h is None <==> {
                ||| t is Value
                ||| t matches Tok::Missing(f) && f != 1
                ||| t matches Tok::Switch(f) && f != 3 && f != 4
            })
            &&& (h == Some(args::Halt::Help) <==> offers_help && (t == Tok::Switch(3) || t
                == Tok::Switch(4)))
            &&& t == Tok::Missing(1) ==> h == Some(args::Halt::Error(needs))
        }),
{
}

/// The switches that a command line gives are those that it has a token of,
/// and the directory is the one given last.
pub proof fn lemma_told(t: Seq<Tok>)
    ensures
        ({
            let x = options::told(t);
            &&& (x.quick <==> exists|k: int| 0 <= k < t.len() && #[trigger] t[k] == Tok::Switch(0))
            &&& (x.overwrite <==> exists|k: int|
                0 <= k < t.len() && #[trigger] t[k] == Tok::Switch(2))
            &&& args::last_value(t, 1) matches Some(d) ==> x.results_dir == d
            &&& args::last_value(t, 1) is None ==> x.results_dir == "bench/results"@
        }),
{
}

/// The number that a flag was given, where it is one, and the default
/// otherwise.
pub proof fn lemma_number_or(s: Seq<char>, default: u64)
    ensures
        e2e::number_or(None, default) == default,
        strings::number_of(encode_utf8(s)) matches Some(n) ==> e2e::number_or(Some(s), default)
            == n,
        strings::number_of(encode_utf8(s)) is None ==> e2e::number_or(Some(s), default) == default,
        e2e::number_halt("--rate"@, Some(s)) is None <==> strings::number_of(
            encode_utf8(s),
        ) is Some,
{
}

/// What the network benchmark is asked for: each value the one that its flag
/// was given last, and otherwise 200000 a second for 30 seconds, or 50000 for
/// 10 in a quick run, to 4 subscribers.
pub proof fn lemma_net_choice(argv: Seq<Seq<char>>)
    ensures
        ({
            let t = args::tokens(argv, e2e::net_flags(), 0);
            let quick = args::switched(t, 0);
            e2e::net_of(argv) matches Ok(c) ==> (c matches e2e::Choice::Net {
                rate,
                subs,
                secs,
                options,
            } ==> {
                &&& options.quick == quick
                &&& args::last_value(t, 5) is None ==> secs == (if quick {
                    10u64
                } else {
                    30u64
                })
                &&& args::last_value(t, 6) is None ==> rate == (if quick {
                    50_000u64
                } else {
                    200_000u64
                })
                &&& args::last_value(t, 7) is None ==> subs == 4
                &&& args::last_value(t, 5) matches Some(s) ==> (strings::number_of(
                    encode_utf8(s),
                ) matches Some(n) ==> secs == n)
                &&& args::last_value(t, 6) matches Some(s) ==> (strings::number_of(
                    encode_utf8(s),
                ) matches Some(n) ==> rate == n)
                &&& args::last_value(t, 7) matches Some(s) ==> (strings::number_of(
                    encode_utf8(s),
                ) matches Some(n) ==> subs == n)
            })
        }),
{
}

/// What the live benchmark is asked for: 300 seconds, or 60 in a quick run,
/// unless it says otherwise, of `BTC` unless it says otherwise.
pub proof fn lemma_live_choice(argv: Seq<Seq<char>>)
    ensures
        ({
            let t = args::tokens(argv, e2e::live_flags(), 0);
            let quick = args::switched(t, 0);
            e2e::live_of(argv) matches Ok(c) ==> (c matches e2e::Choice::Live {
                secs,
                symbols,
                options,
            } ==> {
                &&& options.quick == quick
                &&& args::last_value(t, 5) is None ==> secs == (if quick {
                    60u64
                } else {
                    300u64
                })
                &&& args::last_value(t, 5) matches Some(s) ==> (strings::number_of(
                    encode_utf8(s),
                ) matches Some(n) ==> secs == n)
                &&& args::last_value(t, 6) is None ==> symbols == "BTC"@
            })
        }),
{
}

/// The first place of a byte: nothing before it is that byte.
pub proof fn lemma_until(b: Seq<u8>, c: u8, i: int)
    requires
        0 <= i <= b.len(),
    ensures
        i <= results::until(b, c, i) <= b.len(),
        results::until(b, c, i) < b.len() ==> b[results::until(b, c, i)] == c,
        forall|k: int| i <= k < results::until(b, c, i) ==> #[trigger] b[k] != c,
    decreases b.len() - i,
{
    if i < b.len() && b[i] != c {
        lemma_until(b, c, i + 1);
    }
}

/// What stands in a line behind its first colon, up to the next: for a text
/// without colons on both sides it is that text.
pub proof fn lemma_after_colon(a: Seq<u8>, v: Seq<u8>, more: Seq<u8>)
    requires
        !a.contains(0x3a),
        !v.contains(0x3a),
    ensures
        results::after_colon(a) is None,
        results::after_colon(a + seq![0x3au8] + v) == Some(v),
        results::after_colon(a + seq![0x3au8] + v + seq![0x3au8] + more) == Some(v),
{
    lemma_colon_at(a, a, 0);
    let n = a.len() as int;
    let x = a + seq![0x3au8] + v;
    let y = a + seq![0x3au8] + v + seq![0x3au8] + more;
    assert(x[n] == 0x3a && y[n] == 0x3a);
    assert(x.take(n) =~= a);
    assert(y.take(n) =~= a);
    lemma_colon_at(a, x, 0);
    lemma_colon_at(a, y, 0);
    let m = n + 1 + v.len();
    lemma_until(x, 0x3a, n + 1);
    lemma_until(y, 0x3a, n + 1);
    let e = results::until(x, 0x3a, n + 1);
    if e < x.len() {
        assert(x[e] == v[e - n - 1]);
        assert(v.contains(x[e]));
    }
    let f = results::until(y, 0x3a, n + 1);
    assert(y[m] == 0x3a);
    if f < m {
        assert(y[f] == v[f - n - 1]);
        assert(v.contains(y[f]));
    }
    assert(f == m);
    assert(x.subrange(n + 1, e) =~= v);
    assert(y.subrange(n + 1, f) =~= v);
}

proof fn lemma_colon_at(a: Seq<u8>, s: Seq<u8>, i: int)
    requires
        !a.contains(0x3a),
        0 <= i <= a.len() <= s.len(),
        s.take(a.len() as int) == a || s == a,
        a.len() < s.len() ==> s[a.len() as int] == 0x3a,
    ensures
        results::until(s, 0x3a, i) == a.len(),
    decreases a.len() - i,
{
    if i < a.len() {
        if s != a {
            assert(s.take(a.len() as int)[i] == s[i]);
        }
        assert(a.contains(a[i]));
        lemma_colon_at(a, s, i + 1);
    }
}

/// The bytes of `b` from `i` to `j` have nothing but quotes around them.
pub open spec fn within_quotes(b: Seq<u8>, i: int, j: int) -> bool {
    &&& 0 <= i <= j <= b.len()
    &&& forall|k: int| 0 <= k < i ==> #[trigger] b[k] == 0x22
    &&& forall|k: int| j <= k < b.len() ==> #[trigger] b[k] == 0x22
}

/// A text without its quotes neither starts nor ends with one, and stands in
/// the text with nothing but quotes around it.
pub proof fn lemma_unquoted(b: Seq<u8>)
    ensures
        ({
            let r = results::unquoted(b);
            &&& r.len() > 0 ==> r[0] != 0x22 && r.last() != 0x22
            &&& exists|i: int, j: int| #[trigger] within_quotes(b, i, j) && b.subrange(i, j) == r
        }),
{
    let (i, j) = lemma_unquoted_at(b);
    assert(within_quotes(b, i, j));
}

proof fn lemma_unquoted_at(b: Seq<u8>) -> (at: (int, int))
    ensures
        within_quotes(b, at.0, at.1),
        b.subrange(at.0, at.1) == results::unquoted(b),
        results::unquoted(b).len() > 0 ==> results::unquoted(b)[0] != 0x22 && results::unquoted(
            b,
        ).last() != 0x22,
    decreases b.len(),
{
    let n = b.len() as int;
    if b.len() > 0 && b[0] == 0x22 {
        let c = b.subrange(1, n);
        let (i, j) = lemma_unquoted_at(c);
        assert(b.subrange(i + 1, j + 1) =~= c.subrange(i, j));
        assert forall|k: int| 0 <= k < i + 1 implies #[trigger] b[k] == 0x22 by {
            if k > 0 {
                assert(c[k - 1] == b[k]);
            }
        }
        assert forall|k: int| j + 1 <= k < n implies #[trigger] b[k] == 0x22 by {
            assert(c[k - 1] == b[k]);
        }
        (i + 1, j + 1)
    } else if b.len() > 0 && b[n - 1] == 0x22 {
        let c = b.subrange(0, n - 1);
        let (i, j) = lemma_unquoted_at(c);
        assert(b.subrange(i, j) =~= c.subrange(i, j));
        assert forall|k: int| 0 <= k < i implies #[trigger] b[k] == 0x22 by {
            assert(c[k] == b[k]);
        }
        assert forall|k: int| j <= k < n implies #[trigger] b[k] == 0x22 by {
            if k < n - 1 {
                assert(c[k] == b[k]);
            }
        }
        (i, j)
    } else {
        assert(b.subrange(0, n) =~= b);
        (0, n)
    }
}

/// A run of white space, or of anything else, ends where it does.
pub proof fn lemma_run_end(s: Seq<char>, white: bool, i: int)
    requires
        0 <= i <= s.len(),
    ensures
        i <= results::run_end(s, white, i) <= s.len(),
        forall|k: int|
            i <= k < results::run_end(s, white, i) ==> strings::is_white(#[trigger] s[k]) == white,
        results::run_end(s, white, i) < s.len() ==> strings::is_white(
            s[results::run_end(s, white, i)],
        ) != white,
    decreases s.len() - i,
{
    if i < s.len() && strings::is_white(s[i]) == white {
        lemma_run_end(s, white, i + 1);
    }
}

/// The knobs that a document records are used where they can be: a positive
/// number of events, a level other than 0; 8192 and 3 stand in for others.
pub proof fn lemma_knobs(v: JsonValue)
    ensures
        ({
            let (events, level) = store::knobs_of(v);
            &&& events > 0
            &&& level != 0
            &&& json::u64_member(v, "block_events"@) matches Some(n) ==> (0 < n <= usize::MAX
                ==> events == n)
            &&& (json::u64_member(v, "block_events"@) is None || json::u64_member(
                v,
                "block_events"@,
            ) == Some(0u64)) ==> events == 8192
            &&& json::member(v, "zstd_level"@) matches Some(m) ==> (json::i64_of(m) matches Some(
                n,
            ) ==> (n != 0 && -0x8000_0000 <= n <= 0x7fff_ffff ==> level == n))
            &&& json::member(v, "zstd_level"@) is None ==> level == 3
        }),
{
}

} // verus!
