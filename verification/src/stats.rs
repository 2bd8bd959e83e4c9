//! Soak statistics: per-venue counters, and the JSON lines that a periodic
//! emitter appends to a stats file: one per venue and one `"total"` line.
use crate::event::Venue;
use crate::sink::SinkGauges;
use crate::text;
use vstd::prelude::*;
use vstd::string::*;

verus! {

/// Counters for one venue, incremented by the connection task and read by the
/// stats emitter. They wrap.
#[derive(Debug, Clone, Copy, PartialEq, Eq, Structural)]
pub struct VenueStats {
    /// WS frames received (text + binary).
    pub msgs: u64,
    /// WS payload bytes received.
    pub bytes: u64,
    /// Normalized events emitted by the codec.
    pub events: u64,
    /// Gap events emitted (sequence breaks detected).
    pub gaps: u64,
    /// REST resyncs triggered by a codec's signal.
    pub resyncs: u64,
    /// Reconnects after an established connection dropped (idle kills too).
    pub reconnects: u64,
    /// Frames that fell back from `parse` to `parse_slow`.
    pub fallbacks: u64,
    /// Frames neither parse path could handle.
    pub parse_errors: u64,
    /// REST snapshots successfully fetched and recorded.
    pub rest_snaps: u64,
}

impl VenueStats {
    /// Nothing counted yet.
    pub open spec fn zero() -> VenueStats {
        VenueStats {
            msgs: 0,
            bytes: 0,
            events: 0,
            gaps: 0,
            resyncs: 0,
            reconnects: 0,
            fallbacks: 0,
            parse_errors: 0,
            rest_snaps: 0,
        }
    }

    /// The counters, as a snapshot.
    pub open spec fn snapshot_spec(self) -> StatsSnapshot {
        StatsSnapshot {
            msgs: self.msgs,
            bytes: self.bytes,
            events: self.events,
            gaps: self.gaps,
            resyncs: self.resyncs,
            reconnects: self.reconnects,
            fallbacks: self.fallbacks,
            parse_errors: self.parse_errors,
            rest_snaps: self.rest_snaps,
        }
    }

    /// An owned snapshot of all counters.
    pub fn snapshot(&self) -> (r: StatsSnapshot)
        ensures
            r == self.snapshot_spec(),
    {
        StatsSnapshot {
            msgs: self.msgs,
            bytes: self.bytes,
            events: self.events,
            gaps: self.gaps,
            resyncs: self.resyncs,
            reconnects: self.reconnects,
            fallbacks: self.fallbacks,
            parse_errors: self.parse_errors,
            rest_snaps: self.rest_snaps,
        }
    }
}

impl Default for VenueStats {
    fn default() -> (r: Self)
        ensures
            r == VenueStats::zero(),
    {
        VenueStats {
            msgs: 0,
            bytes: 0,
            events: 0,
            gaps: 0,
            resyncs: 0,
            reconnects: 0,
            fallbacks: 0,
            parse_errors: 0,
            rest_snaps: 0,
        }
    }
}

/// Owned point-in-time copy of [`VenueStats`].
#[derive(Debug, Clone, Copy, PartialEq, Eq, Structural)]
pub struct StatsSnapshot {
    /// WS frames received.
    pub msgs: u64,
    /// WS payload bytes received.
    pub bytes: u64,
    /// Normalized events emitted.
    pub events: u64,
    /// Gap events emitted.
    pub gaps: u64,
    /// REST resyncs triggered.
    pub resyncs: u64,
    /// Reconnects after an established connection dropped.
    pub reconnects: u64,
    /// Fast-path to slow-path fallbacks.
    pub fallbacks: u64,
    /// Frames neither parse path could handle.
    pub parse_errors: u64,
    /// REST snapshots recorded.
    pub rest_snaps: u64,
}

impl StatsSnapshot {
    /// Nothing counted.
    pub open spec fn zero() -> StatsSnapshot {
        StatsSnapshot {
            msgs: 0,
            bytes: 0,
            events: 0,
            gaps: 0,
            resyncs: 0,
            reconnects: 0,
            fallbacks: 0,
            parse_errors: 0,
            rest_snaps: 0,
        }
    }

    /// Every field-wise sum fits.
    pub open spec fn can_add(self, o: StatsSnapshot) -> bool {
        &&& self.msgs + o.msgs <= u64::MAX
        &&& self.bytes + o.bytes <= u64::MAX
        &&& self.events + o.events <= u64::MAX
        &&& self.gaps + o.gaps <= u64::MAX
        &&& self.resyncs + o.resyncs <= u64::MAX
        &&& self.reconnects + o.reconnects <= u64::MAX
        &&& self.fallbacks + o.fallbacks <= u64::MAX
        &&& self.parse_errors + o.parse_errors <= u64::MAX
        &&& self.rest_snaps + o.rest_snaps <= u64::MAX
    }

    /// The field-wise sum.
    pub open spec fn plus(self, o: StatsSnapshot) -> StatsSnapshot {
        StatsSnapshot {
            msgs: (self.msgs + o.msgs) as u64,
            bytes: (self.bytes + o.bytes) as u64,
            events: (self.events + o.events) as u64,
            gaps: (self.gaps + o.gaps) as u64,
            resyncs: (self.resyncs + o.resyncs) as u64,
            reconnects: (self.reconnects + o.reconnects) as u64,
            fallbacks: (self.fallbacks + o.fallbacks) as u64,
            parse_errors: (self.parse_errors + o.parse_errors) as u64,
            rest_snaps: (self.rest_snaps + o.rest_snaps) as u64,
        }
    }

    /// Field-wise sum (for the `"total"` line).
    pub fn add(&self, other: &StatsSnapshot) -> (r: StatsSnapshot)
        requires
            self.can_add(*other),
        ensures
            r == self.plus(*other),
    {
        StatsSnapshot {
            msgs: self.msgs + other.msgs,
            bytes: self.bytes + other.bytes,
            events: self.events + other.events,
            gaps: self.gaps + other.gaps,
            resyncs: self.resyncs + other.resyncs,
            reconnects: self.reconnects + other.reconnects,
            fallbacks: self.fallbacks + other.fallbacks,
            parse_errors: self.parse_errors + other.parse_errors,
            rest_snaps: self.rest_snaps + other.rest_snaps,
        }
    }
}

impl Default for StatsSnapshot {
    fn default() -> (r: Self)
        ensures
            r == StatsSnapshot::zero(),
    {
        StatsSnapshot {
            msgs: 0,
            bytes: 0,
            events: 0,
            gaps: 0,
            resyncs: 0,
            reconnects: 0,
            fallbacks: 0,
            parse_errors: 0,
            rest_snaps: 0,
        }
    }
}

/// One venue's inputs to the stats emitter.
#[derive(Debug, Clone, Copy)]
pub struct EmitterEntry {
    /// Venue this entry reports for.
    pub venue: Venue,
    /// Its counters.
    pub stats: VenueStats,
    /// Gauges of its sink.
    pub gauges: SinkGauges,
}

/// What all lines of one tick share.
#[derive(Debug, Clone, Copy)]
pub struct Tick {
    /// Wall time of the tick.
    pub ts_wall_ns: u64,
    /// Resident set size.
    pub rss_mb: u64,
    /// Its highest value so far.
    pub rss_max_mb: u64,
    /// Seconds since the start.
    pub uptime_s: u64,
}

/// The decimal form of a counter.
pub open spec fn dec(n: u64) -> Seq<char> {
    text::chars_of(text::dec_bytes(n as nat))
}

/// One field `,"key":n` of a line.
pub open spec fn field(key: Seq<char>, n: u64) -> Seq<char> {
    ",\""@ + key + "\":"@ + dec(n)
}

/// One stats line, newline-terminated.
pub open spec fn line(
    t: Tick,
    venue: Seq<char>,
    c: StatsSnapshot,
    segments: u64,
    current_bytes: u64,
) -> Seq<char> {
    "{\"ts_wall_ns\":"@ + dec(t.ts_wall_ns) + ",\"venue\":\""@ + venue + "\""@ + field(
        "msgs"@,
        c.msgs,
    ) + field("bytes"@, c.bytes) + field("events"@, c.events) + field("gaps"@, c.gaps) + field(
        "resyncs"@,
        c.resyncs,
    ) + field("reconnects"@, c.reconnects) + field("fallbacks"@, c.fallbacks) + field(
        "parse_errors"@,
        c.parse_errors,
    ) + field("rest_snaps"@, c.rest_snaps) + field("rss_mb"@, t.rss_mb) + field(
        "rss_max_mb"@,
        t.rss_max_mb,
    ) + field("segments"@, segments) + field("current_segment_bytes"@, current_bytes) + field(
        "uptime_s"@,
        t.uptime_s,
    ) + "}\n"@
}

/// The totals over the first `n` entries: counters, segments and segment
/// bytes.
pub open spec fn totals(es: Seq<EmitterEntry>, n: int) -> (StatsSnapshot, u64, u64)
    decreases n,
{
    if n <= 0 {
        (StatsSnapshot::zero(), 0, 0)
    } else {
        let t = totals(es, n - 1);
        let e = es[n - 1];
        (
            t.0.plus(e.stats.snapshot_spec()),
            (t.1 + e.gauges.segments) as u64,
            (t.2 + e.gauges.current_bytes) as u64,
        )
    }
}

/// The totals over the entries all fit.
pub open spec fn totals_fit(es: Seq<EmitterEntry>) -> bool {
    forall|n: int|
        0 <= n < es.len() ==> {
            let t = #[trigger] totals(es, n);
            &&& t.0.can_add(es[n].stats.snapshot_spec())
            &&& t.1 + es[n].gauges.segments <= u64::MAX
            &&& t.2 + es[n].gauges.current_bytes <= u64::MAX
        }
}

/// The lines of the first `n` entries.
pub open spec fn venue_lines(t: Tick, es: Seq<EmitterEntry>, n: int) -> Seq<char>
    decreases n,
{
    if n <= 0 {
        Seq::empty()
    } else {
        let e = es[n - 1];
        venue_lines(t, es, n - 1) + line(
            t,
            e.venue.name_spec(),
            e.stats.snapshot_spec(),
            e.gauges.segments,
            e.gauges.current_bytes,
        )
    }
}

/// All lines of one tick.
pub open spec fn tick_lines(t: Tick, es: Seq<EmitterEntry>) -> Seq<char> {
    let sum = totals(es, es.len() as int);
    venue_lines(t, es, es.len() as int) + line(t, "total"@, sum.0, sum.1, sum.2)
}

/// Append one field.
fn push_field(out: &mut String, key: &str, n: u64)
    ensures
        final(out)@ == old(out)@ + field(key@, n),
{
    out.append(",\"");
    out.append(key);
    out.append("\":");
    text::push_dec(out, n as u128);
    assert(out@ =~= old(out)@ + field(key@, n));
}

/// Append the counters of a line.
fn push_counters(out: &mut String, c: &StatsSnapshot)
    ensures
        final(out)@ == old(out)@ + field("msgs"@, c.msgs) + field("bytes"@, c.bytes) + field(
            "events"@,
            c.events,
        ) + field("gaps"@, c.gaps) + field("resyncs"@, c.resyncs) + field(
            "reconnects"@,
            c.reconnects,
        ) + field("fallbacks"@, c.fallbacks) + field("parse_errors"@, c.parse_errors) + field(
            "rest_snaps"@,
            c.rest_snaps,
        ),
{
    push_field(out, "msgs", c.msgs);
    push_field(out, "bytes", c.bytes);
    push_field(out, "events", c.events);
    push_field(out, "gaps", c.gaps);
    push_field(out, "resyncs", c.resyncs);
    push_field(out, "reconnects", c.reconnects);
    push_field(out, "fallbacks", c.fallbacks);
    push_field(out, "parse_errors", c.parse_errors);
    push_field(out, "rest_snaps", c.rest_snaps);
}

/// Append one line.
fn push_line(
    out: &mut String,
    t: &Tick,
    venue: &str,
    c: &StatsSnapshot,
    segments: u64,
    current_bytes: u64,
)
    ensures
        final(out)@ == old(out)@ + line(*t, venue@, *c, segments, current_bytes),
{
    out.append("{\"ts_wall_ns\":");
    text::push_dec(out, t.ts_wall_ns as u128);
    out.append(",\"venue\":\"");
    out.append(venue);
    out.append("\"");
    push_counters(out, c);
    push_field(out, "rss_mb", t.rss_mb);
    push_field(out, "rss_max_mb", t.rss_max_mb);
    push_field(out, "segments", segments);
    push_field(out, "current_segment_bytes", current_bytes);
    push_field(out, "uptime_s", t.uptime_s);
    out.append("}\n");
    assert(out@ =~= old(out)@ + line(*t, venue@, *c, segments, current_bytes));
}

/// Render one tick's worth of stats lines: one per venue plus a `"total"`
/// line, each newline-terminated.
pub fn emit_lines(
    entries: &[EmitterEntry],
    ts_wall_ns: u64,
    rss_mb: u64,
    rss_max_mb: u64,
    uptime_s: u64,
) -> (r: String)
    requires
        totals_fit(entries@),
    ensures
        r@ == tick_lines((Tick { ts_wall_ns, rss_mb, rss_max_mb, uptime_s }), entries@),
{
    let t = Tick { ts_wall_ns, rss_mb, rss_max_mb, uptime_s };
    let mut out: String = String::new();
    let mut total: StatsSnapshot = StatsSnapshot::default();
    let mut segments: u64 = 0;
    let mut seg_bytes: u64 = 0;
    let mut i: usize = 0;
    assert(out@ =~= venue_lines(t, entries@, 0));
    while i < entries.len()
        invariant
            i <= entries@.len(),
            totals_fit(entries@),
            (total, segments, seg_bytes) == totals(entries@, i as int),
            out@ == venue_lines(t, entries@, i as int),
        decreases entries@.len() - i,
    {
        let e: &EmitterEntry = &entries[i];
        let snap: StatsSnapshot = e.stats.snapshot();
        assert(totals(entries@, i as int).0.can_add(snap));
        total = total.add(&snap);
        segments = segments + e.gauges.segments;
        seg_bytes = seg_bytes + e.gauges.current_bytes;
        push_line(&mut out, &t, e.venue.name(), &snap, e.gauges.segments, e.gauges.current_bytes);
        i += 1;
    }
    push_line(&mut out, &t, "total", &total, segments, seg_bytes);
    out
}

} // verus!
