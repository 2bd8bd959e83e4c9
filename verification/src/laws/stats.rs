//! Laws of the lines that report the counters.
use crate::stats;
use crate::stats::{EmitterEntry, StatsSnapshot, Tick};
use crate::text;
use vstd::prelude::*;

verus! {

/// The text `s` is `a`, `b` and `c`, one behind the other.
pub open spec fn splits(s: Seq<char>, a: Seq<char>, b: Seq<char>, c: Seq<char>) -> bool {
    s == a + b + c
}

/// The text `s` shows the number `n` under the key `key`.
pub open spec fn shows(s: Seq<char>, key: Seq<char>, n: u64) -> bool {
    exists|a: Seq<char>, c: Seq<char>| #[trigger]
        splits(s, a, ",\""@ + key + "\":"@ + text::chars_of(text::dec_bytes(n as nat)), c)
}

/// The text `s` starts with `p`.
spec fn starts(s: Seq<char>, p: Seq<char>) -> bool {
    p.len() <= s.len() && s.take(p.len() as int) == p
}

proof fn lemma_shown(s: Seq<char>, a: Seq<char>, key: Seq<char>, n: u64)
    requires
        starts(s, a + stats::field(key, n)),
    ensures
        shows(s, key, n),
        starts(s, a),
{
    let f = stats::field(key, n);
    let p = a + f;
    let c = s.skip(p.len() as int);
    assert(s =~= s.take(p.len() as int) + c);
    assert(f == ",\""@ + key + "\":"@ + text::chars_of(text::dec_bytes(n as nat)));
    assert(splits(s, a, f, c));
    assert(s.take(a.len() as int) =~= p.take(a.len() as int));
    assert(p.take(a.len() as int) =~= a);
}

/// A line shows every counter, gauge and clock under its own name.
pub proof fn lemma_line_shows(
    t: Tick,
    venue: Seq<char>,
    c: StatsSnapshot,
    segments: u64,
    current_bytes: u64,
)
    ensures
        ({
            let s = stats::line(t, venue, c, segments, current_bytes);
            &&& shows(s, "msgs"@, c.msgs)
            &&& shows(s, "bytes"@, c.bytes)
            &&& shows(s, "events"@, c.events)
            &&& shows(s, "gaps"@, c.gaps)
            &&& shows(s, "resyncs"@, c.resyncs)
            &&& shows(s, "reconnects"@, c.reconnects)
            &&& shows(s, "fallbacks"@, c.fallbacks)
            &&& shows(s, "parse_errors"@, c.parse_errors)
            &&& shows(s, "rest_snaps"@, c.rest_snaps)
            &&& shows(s, "rss_mb"@, t.rss_mb)
            &&& shows(s, "rss_max_mb"@, t.rss_max_mb)
            &&& shows(s, "segments"@, segments)
            &&& shows(s, "current_segment_bytes"@, current_bytes)
            &&& shows(s, "uptime_s"@, t.uptime_s)
            &&& s.len() > 0
        }),
{
    let s = stats::line(t, venue, c, segments, current_bytes);
    let a0 = "{\"ts_wall_ns\":"@ + stats::dec(t.ts_wall_ns) + ",\"venue\":\""@ + venue + "\""@;
    let a1 = a0 + stats::field("msgs"@, c.msgs);
    let a2 = a1 + stats::field("bytes"@, c.bytes);
    let a3 = a2 + stats::field("events"@, c.events);
    let a4 = a3 + stats::field("gaps"@, c.gaps);
    let a5 = a4 + stats::field("resyncs"@, c.resyncs);
    let a6 = a5 + stats::field("reconnects"@, c.reconnects);
    let a7 = a6 + stats::field("fallbacks"@, c.fallbacks);
    let a8 = a7 + stats::field("parse_errors"@, c.parse_errors);
    let a9 = a8 + stats::field("rest_snaps"@, c.rest_snaps);
    let a10 = a9 + stats::field("rss_mb"@, t.rss_mb);
    let a11 = a10 + stats::field("rss_max_mb"@, t.rss_max_mb);
    let a12 = a11 + stats::field("segments"@, segments);
    let a13 = a12 + stats::field("current_segment_bytes"@, current_bytes);
    let a14 = a13 + stats::field("uptime_s"@, t.uptime_s);
    reveal_strlit("}\n");
    assert(s == a14 + "}\n"@);
    assert(s.take(a14.len() as int) =~= a14);
    lemma_shown(s, a13, "uptime_s"@, t.uptime_s);
    lemma_shown(s, a12, "current_segment_bytes"@, current_bytes);
    lemma_shown(s, a11, "segments"@, segments);
    lemma_shown(s, a10, "rss_max_mb"@, t.rss_max_mb);
    lemma_shown(s, a9, "rss_mb"@, t.rss_mb);
    lemma_shown(s, a8, "rest_snaps"@, c.rest_snaps);
    lemma_shown(s, a7, "parse_errors"@, c.parse_errors);
    lemma_shown(s, a6, "fallbacks"@, c.fallbacks);
    lemma_shown(s, a5, "reconnects"@, c.reconnects);
    lemma_shown(s, a4, "resyncs"@, c.resyncs);
    lemma_shown(s, a3, "gaps"@, c.gaps);
    lemma_shown(s, a2, "events"@, c.events);
    lemma_shown(s, a1, "bytes"@, c.bytes);
    lemma_shown(s, a0, "msgs"@, c.msgs);
}

/// A tick has one line for each entry, in order, and the totals' line behind
/// them.
pub proof fn lemma_tick(t: Tick, es: Seq<EmitterEntry>, n: int)
    requires
        0 <= n < es.len(),
    ensures
        stats::venue_lines(t, es, 0).len() == 0,
        stats::venue_lines(t, es, n + 1) == stats::venue_lines(t, es, n) + stats::line(
            t,
            es[n].venue.name_spec(),
            es[n].stats.snapshot_spec(),
            es[n].gauges.segments,
            es[n].gauges.current_bytes,
        ),
        ({
            let sum = stats::totals(es, es.len() as int);
            stats::tick_lines(t, es) == stats::venue_lines(t, es, es.len() as int) + stats::line(
                t,
                "total"@,
                sum.0,
                sum.1,
                sum.2,
            )
        }),
{
}

} // verus!
