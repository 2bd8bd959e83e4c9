//! Capture sinks: when a raw-capture segment is rotated, what it is called
//! and what its header says.
//!
//! When the current segment exceeds its byte or age budget it is finished and
//! a fresh segment is opened. Segment paths are
//! `<dir>/<venue>/<venue>-<start_wall_ns>.fbraw`; segments are immutable once
//! closed (rotation or shutdown always opens a new file).
use crate::event::Venue;
use crate::json;
use crate::json::quote_json;
use crate::rawlog;
use crate::rawlog::{RawLogError, RawLogWriter};
use crate::span::Span;
use crate::text;
use vstd::prelude::*;
use vstd::string::*;
use vstd::utf8::*;

verus! {

/// Sink gauges for the stats emitter.
#[derive(Debug, Clone, Copy, PartialEq, Eq, Structural)]
pub struct SinkGauges {
    /// Segments opened so far (including the current one).
    pub segments: u64,
    /// Bytes written to the current segment (header + records).
    pub current_bytes: u64,
}

impl Default for SinkGauges {
    fn default() -> (r: Self)
        ensures
            r.segments == 0,
            r.current_bytes == 0,
    {
        SinkGauges { segments: 0, current_bytes: 0 }
    }
}

/// Default segment size cap: 256 MiB.
pub const DEFAULT_MAX_BYTES: u64 = 268_435_456;

/// Default segment age cap, in seconds (15 min).
pub const DEFAULT_MAX_AGE: u64 = 900;

/// Default segment age cap.
pub fn default_max_age() -> (r: Span)
    ensures
        r.nanos == 900_000_000_000,
{
    Span::from_secs(DEFAULT_MAX_AGE)
}

/// Pure rotation predicate: rotate when the current segment exceeds either
/// the byte or the age budget.
pub fn should_rotate(bytes: u64, max_bytes: u64, age: Span, max_age: Span) -> (r: bool)
    ensures
        r == (bytes >= max_bytes || age.nanos >= max_age.nanos),
{
    bytes >= max_bytes || age.nanos >= max_age.nanos
}

/// The file name of a segment.
pub open spec fn segment_name_spec(venue: Venue, wall: u64) -> Seq<char> {
    venue.name_spec() + "-"@ + text::chars_of(text::dec_bytes(wall as nat)) + ".fbraw"@
}

/// The file name of the segment of `venue` that starts at `wall`.
pub fn segment_name(venue: Venue, wall: u64) -> (r: String)
    ensures
        r@ == segment_name_spec(venue, wall),
{
    let mut out: String = venue.name().to_owned();
    out.append("-");
    text::push_dec(&mut out, wall as u128);
    out.append(".fbraw");
    out
}

/// The symbol entries of the metadata from `k` on.
pub open spec fn meta_items(symbols: Seq<(&str, u32)>, k: int) -> Seq<char>
    decreases symbols.len() - k,
{
    if !(0 <= k < symbols.len()) {
        Seq::empty()
    } else {
        (if k > 0 {
            ","@
        } else {
            Seq::empty()
        }) + "{\"id\":"@ + text::chars_of(text::dec_bytes(symbols[k].1 as nat)) + ",\"sym\":"@
            + json::json_quoted(symbols[k].0@) + "}"@ + meta_items(symbols, k + 1)
    }
}

/// The metadata of a segment header.
pub open spec fn meta_text(symbols: Seq<(&str, u32)>) -> Seq<char> {
    "{\"symbols\":["@ + meta_items(symbols, 0) + "]}"@
}

/// Build the conventional segment-header meta JSON from the venue's
/// subscribed `(venue_symbol, instrument_id)` pairs.
pub fn meta_json(symbols: &[(&str, u32)]) -> (r: Vec<u8>)
    ensures
        r@ == encode_utf8(meta_text(symbols@)),
{
    let mut out: String = "{\"symbols\":[".to_owned();
    let ghost all = out@ + meta_items(symbols@, 0);
    let mut i: usize = 0;
    while i < symbols.len()
        invariant
            i <= symbols@.len(),
            out@ + meta_items(symbols@, i as int) == all,
        decreases symbols@.len() - i,
    {
        let ghost before = out@;
        if i > 0 {
            out.append(",");
        }
        out.append("{\"id\":");
        text::push_dec(&mut out, symbols[i].1 as u128);
        out.append(",\"sym\":");
        out.append(quote_json(symbols[i].0).as_str());
        out.append("}");
        assert(out@ + meta_items(symbols@, i + 1) =~= before + meta_items(symbols@, i as int));
        i += 1;
    }
    assert(out@ =~= all);
    out.append("]}");
    vstd::slice::slice_to_vec(out.as_str().as_bytes())
}

/// A size/age-rotating raw-capture segment writer for one venue. Whoever
/// holds it owns the files: it writes what is pending to the current segment
/// and opens a new file when the segment is rotated.
pub struct RotatingRawLog {
    venue: Venue,
    meta: Vec<u8>,
    max_bytes: u64,
    max_age: Span,
    writer: RawLogWriter,
    opened_at: u64,
    segments: u64,
    header: Ghost<rawlog::Header>,
    held: Ghost<Seq<rawlog::Record>>,
}

impl RotatingRawLog {
    /// The venue whose capture this is.
    pub closed spec fn venue(&self) -> Venue {
        self.venue
    }

    /// The metadata of every segment.
    pub closed spec fn meta(&self) -> Seq<u8> {
        self.meta@
    }

    /// The budgets of a segment.
    pub closed spec fn budget(&self) -> (u64, Span) {
        (self.max_bytes, self.max_age)
    }

    /// The header of the current segment.
    pub closed spec fn header(&self) -> rawlog::Header {
        self.header@
    }

    /// The records of the current segment.
    pub closed spec fn held(&self) -> Seq<rawlog::Record> {
        self.held@
    }

    /// When the current segment was opened.
    pub closed spec fn opened_at(&self) -> u64 {
        self.opened_at
    }

    /// How many segments there have been.
    pub closed spec fn segments(&self) -> u64 {
        self.segments
    }

    /// What the current segment holds.
    pub closed spec fn log(&self) -> Seq<u8> {
        self.writer.log()
    }

    /// What is to be written to the current segment's file yet.
    pub closed spec fn unwritten(&self) -> Seq<u8> {
        self.writer.unwritten()
    }

    /// The current segment is its header and its records; before its last
    /// record, unless that is its first, it was within its byte budget.
    pub closed spec fn wf(&self) -> bool {
        &&& self.writer.wf()
        &&& self.meta@.len() <= u32::MAX
        &&& self.writer.count() == self.held@.len()
        &&& self.writer.log() == rawlog::header_bytes(self.header@) + rawlog::records_bytes(
            self.held@,
        )
        &&& self.header@.venue == self.venue.code_spec()
        &&& self.header@.meta == self.meta@
        &&& self.held@.len() > 1 ==> self.writer.log().len() < self.max_bytes
            + rawlog::record_bytes(self.held@.last()).len()
    }

    /// A segment never exceeds its byte budget by as much as its last record,
    /// unless its header alone exceeds the budget: then it holds one record.
    pub proof fn lemma_budget_kept(&self)
        requires
            self.wf(),
            self.held().len() > 0,
            rawlog::header_bytes(self.header()).len() < self.budget().0 || self.held().len() > 1,
        ensures
            self.log() == rawlog::header_bytes(self.header()) + rawlog::records_bytes(
                self.held(),
            ),
            self.log().len() < self.budget().0 + rawlog::record_bytes(self.held().last()).len(),
    {
        if self.held().len() == 1 {
            assert(rawlog::records_bytes(self.held().drop_last()).len() == 0);
        }
    }

    /// The age of the segment.
    pub open spec fn age(&self, now: u64) -> int {
        if now > self.opened_at() {
            now - self.opened_at()
        } else {
            0
        }
    }

    /// The segment is over one of its budgets.
    pub open spec fn over_budget(&self, now: u64) -> bool {
        self.log().len() >= self.budget().0 || self.age(now) >= self.budget().1.nanos
    }

    /// Open the first segment. `meta` is written verbatim into every segment
    /// header (see [`meta_json`]).
    pub fn create(
        venue: Venue,
        meta: Vec<u8>,
        max_bytes: u64,
        max_age: Span,
        wall: u64,
        mono: u64,
        now: u64,
    ) -> (r: Result<Self, RawLogError>)
        ensures
            match r {
                Ok(s) => {
                    &&& s.wf()
                    &&& s.venue() == venue
                    &&& s.meta() == meta@
                    &&& s.budget() == (max_bytes, max_age)
                    &&& s.segments() == 1
                    &&& s.held() == Seq::<rawlog::Record>::empty()
                    &&& s.opened_at() == now
                    &&& s.unwritten() == s.log()
                    &&& s.header() == (rawlog::Header {
                        venue: venue.code_spec(),
                        start_wall_ns: wall,
                        start_mono_ns: mono,
                        meta: meta@,
                    })
                },
                Err(e) => meta@.len() > u32::MAX && e == RawLogError::TooLarge,
            },
    {
        match RawLogWriter::create(venue.code(), wall, mono, meta.as_slice()) {
            Err(e) => Err(e),
            Ok(writer) => {
                let ghost h = rawlog::Header {
                    venue: venue.code_spec(),
                    start_wall_ns: wall,
                    start_mono_ns: mono,
                    meta: meta@,
                };
                assert(writer.log() =~= rawlog::header_bytes(h) + rawlog::records_bytes(
                    Seq::empty(),
                ));
                Ok(
                    RotatingRawLog {
                        venue,
                        meta,
                        max_bytes,
                        max_age,
                        writer,
                        opened_at: now,
                        segments: 1,
                        header: Ghost(h),
                        held: Ghost(Seq::empty()),
                    },
                )
            },
        }
    }

    /// True if the size or age budget is exceeded (asked before each record,
    /// and on a periodic tick so idle segments still rotate by age).
    pub fn due(&self, now: u64) -> (r: bool)
        requires
            self.wf(),
        ensures
            r == self.over_budget(now),
    {
        let age: u64 = if now > self.opened_at {
            now - self.opened_at
        } else {
            0
        };
        should_rotate(self.writer.bytes(), self.max_bytes, Span::from_nanos(age), self.max_age)
    }

    /// Close the current segment and open the next. Returns what is to be
    /// written to the closed one yet.
    pub fn rotate(&mut self, wall: u64, mono: u64, now: u64) -> (r: Vec<u8>)
        requires
            old(self).wf(),
            old(self).segments() < u64::MAX,
        ensures
            r@ == old(self).unwritten(),
            final(self).wf(),
            final(self).venue() == old(self).venue(),
            final(self).meta() == old(self).meta(),
            final(self).budget() == old(self).budget(),
            final(self).segments() == old(self).segments() + 1,
            final(self).held() == Seq::<rawlog::Record>::empty(),
            final(self).opened_at() == now,
            final(self).unwritten() == final(self).log(),
            final(self).header() == (rawlog::Header {
                start_wall_ns: wall,
                start_mono_ns: mono,
                ..old(self).header()
            }),
    {
        let rest: Vec<u8> = self.writer.take_pending();
        if let Ok(writer) = RawLogWriter::create(
            self.venue.code(),
            wall,
            mono,
            self.meta.as_slice(),
        ) {
            let ghost h = rawlog::Header {
                start_wall_ns: wall,
                start_mono_ns: mono,
                ..self.header@
            };
            assert(writer.log() =~= rawlog::header_bytes(h) + rawlog::records_bytes(
                Seq::empty(),
            ));
            self.writer = writer;
            self.header = Ghost(h);
            self.held = Ghost(Seq::empty());
        }
        self.opened_at = now;
        self.segments = self.segments + 1;
        rest
    }

    /// The segment is within its budgets at `now` or holds no record yet, and
    /// a payload of `len` bytes leaves its size a number that can be counted.
    pub open spec fn can_take(&self, len: nat, now: u64) -> bool {
        &&& self.wf()
        &&& !self.over_budget(now) || self.held().len() == 0
        &&& self.held().len() < u64::MAX
        &&& self.log().len() + rawlog::RECORD_OVERHEAD + 4 + len <= u64::MAX
    }

    /// This is the sink `before` with the record `rec` at the end of its
    /// segment.
    pub open spec fn took(&self, before: RotatingRawLog, rec: rawlog::Record) -> bool {
        &&& rawlog::fits(rec)
        &&& self.held() == before.held().push(rec)
        &&& self.log() == before.log() + rawlog::record_bytes(rec)
        &&& self.unwritten() == before.unwritten() + rawlog::record_bytes(rec)
        &&& self.venue() == before.venue()
        &&& self.meta() == before.meta()
        &&& self.budget() == before.budget()
        &&& self.segments() == before.segments()
        &&& self.header() == before.header()
        &&& self.opened_at() == before.opened_at()
    }

    /// Append one record to a segment that is within its budgets at `now`, or
    /// was just opened (so a segment never exceeds `max_bytes` by more than
    /// one record).
    pub fn append(
        &mut self,
        rk: u8,
        recv_mono_ns: u64,
        recv_wall_ns: u64,
        payload: &[u8],
        now: u64,
    ) -> (r: Result<(), RawLogError>)
        requires
            old(self).can_take(payload@.len(), now),
        ensures
            final(self).wf(),
            match r {
                Ok(_) => payload@.len() <= rawlog::MAX_PAYLOAD && final(self).took(
                    *old(self),
                    (rawlog::Record {
                        rkind: rk,
                        recv_mono_ns,
                        recv_wall_ns,
                        payload: payload@,
                    }),
                ),
                Err(e) => payload@.len() > rawlog::MAX_PAYLOAD && e == RawLogError::TooLarge
                    && *final(self) == *old(self),
            },
    {
        let ghost rec = rawlog::Record {
            rkind: rk,
            recv_mono_ns,
            recv_wall_ns,
            payload: payload@,
        };
        let ghost before = self.held@;
        match self.writer.append(rk, recv_mono_ns, recv_wall_ns, payload) {
            Err(e) => Err(e),
            Ok(_) => {
                self.held = Ghost(before.push(rec));
                proof {
                    assert(before.push(rec).drop_last() =~= before);
                    assert(self.writer.log() =~= rawlog::header_bytes(self.header@)
                        + rawlog::records_bytes(self.held@));
                }
                Ok(())
            },
        }
    }

    /// Take what is to be written to the current segment's file.
    pub fn take_pending(&mut self) -> (r: Vec<u8>)
        requires
            old(self).wf(),
        ensures
            r@ == old(self).unwritten(),
            final(self).wf(),
            final(self).unwritten() == Seq::<u8>::empty(),
            final(self).log() == old(self).log(),
            final(self).held() == old(self).held(),
            final(self).header() == old(self).header(),
            final(self).venue() == old(self).venue(),
            final(self).meta() == old(self).meta(),
            final(self).budget() == old(self).budget(),
            final(self).segments() == old(self).segments(),
            final(self).opened_at() == old(self).opened_at(),
    {
        self.writer.take_pending()
    }

    /// Segments opened so far (including the current one).
    pub fn segments_created(&self) -> (r: u64)
        ensures
            r == self.segments(),
    {
        self.segments
    }

    /// Bytes written to the current segment (header + records).
    pub fn current_bytes(&self) -> (r: u64)
        requires
            self.wf(),
        ensures
            r == self.log().len(),
    {
        self.writer.bytes()
    }

    /// Gauges for the stats emitter.
    pub fn gauges(&self) -> (r: SinkGauges)
        requires
            self.wf(),
        ensures
            r.segments == self.segments(),
            r.current_bytes == self.log().len(),
    {
        SinkGauges { segments: self.segments, current_bytes: self.writer.bytes() }
    }
}

} // verus!
