//! Append-only raw-capture segments: CRC32-framed records of raw venue
//! payload bytes plus receive timestamps, with torn-write detection on read.
//! This is the capture ground truth; everything else is derivable from it.
//!
//! Layout (all integers little-endian):
//!
//! ```text
//! header:  magic "FBRAW001" | ver u8 | venue u8 | rsvd u16 |
//!          start_wall_ns u64 | start_mono_ns u64 | meta_len u32 | meta bytes
//! record:  len u32 | rkind u8 | recv_mono_ns u64 | recv_wall_ns u64 |
//!          payload bytes | crc32 u32
//! ```
//!
//! `len` counts everything after the `len` field (rkind up to and with
//! crc32). `crc32` (IEEE) covers rkind..payload. A record that fails length
//! or CRC checks is a torn tail: the reader reports the valid prefix length
//! so callers can truncate and continue.
pub mod rkind;

use crate::crc;
use crate::text;
use vstd::bytes::*;
use vstd::prelude::*;
use vstd::slice::{slice_subrange, slice_to_vec};
use vstd::string::*;

verus! {

/// Segment magic, `FBRAW001`.
pub const MAGIC: [u8; 8] = [0x46, 0x42, 0x52, 0x41, 0x57, 0x30, 0x30, 0x31];

/// Format version written by this code.
pub const VERSION: u8 = 1;

/// Hard sanity cap on a single record's payload (a venue message is KBs;
/// anything huge means corruption).
pub const MAX_PAYLOAD: usize = 67_108_864;

/// Bytes of a record besides its length prefix and its payload: rkind, both
/// timestamps and the CRC.
pub const RECORD_OVERHEAD: usize = 21;

/// Bytes of a header besides its metadata.
pub const HEADER_SIZE: usize = 32;

/// Errors from segment writing and reading.
#[derive(Debug, Clone, Copy, PartialEq, Eq)]
pub enum RawLogError {
    /// The payload or the metadata is too large for a segment.
    TooLarge,
    /// The segment does not start with a valid header.
    BadHeader(&'static str),
    /// Torn or corrupt tail; `valid_bytes` is the offset of the last
    /// fully-valid record end (safe truncation point).
    TornTail {
        /// Safe truncation offset.
        valid_bytes: u64,
        /// Why the tail was rejected.
        reason: &'static str,
    },
}

impl RawLogError {
    /// The message of this error.
    pub open spec fn message_spec(self) -> Seq<char> {
        match self {
            RawLogError::TooLarge => "too large for a segment"@,
            RawLogError::BadHeader(why) => "bad header: "@ + why@,
            RawLogError::TornTail { valid_bytes, reason } => "torn tail after "@ + text::chars_of(
                text::dec_bytes(valid_bytes as nat),
            ) + " valid bytes: "@ + reason@,
        }
    }

    /// The message of this error.
    pub fn message(&self) -> (r: String)
        ensures
            r@ == self.message_spec(),
    {
        match self {
            RawLogError::TooLarge => "too large for a segment".to_owned(),
            RawLogError::BadHeader(why) => {
                let mut out: String = "bad header: ".to_owned();
                out.append(why);
                out
            },
            RawLogError::TornTail { valid_bytes, reason } => {
                let mut out: String = "torn tail after ".to_owned();
                text::push_dec(&mut out, *valid_bytes as u128);
                out.append(" valid bytes: ");
                out.append(reason);
                out
            },
        }
    }
}

/// One record, as values.
pub struct Record {
    pub rkind: u8,
    pub recv_mono_ns: u64,
    pub recv_wall_ns: u64,
    pub payload: Seq<u8>,
}

/// A segment header, as values.
pub struct Header {
    pub venue: u8,
    pub start_wall_ns: u64,
    pub start_mono_ns: u64,
    pub meta: Seq<u8>,
}

/// The bytes of a header.
pub open spec fn header_bytes(h: Header) -> Seq<u8> {
    MAGIC@ + seq![VERSION, h.venue, 0u8, 0u8] + spec_u64_to_le_bytes(h.start_wall_ns)
        + spec_u64_to_le_bytes(h.start_mono_ns) + spec_u32_to_le_bytes(h.meta.len() as u32)
        + h.meta
}

/// The bytes of a record that its CRC covers.
pub open spec fn body_bytes(r: Record) -> Seq<u8> {
    seq![r.rkind] + spec_u64_to_le_bytes(r.recv_mono_ns) + spec_u64_to_le_bytes(r.recv_wall_ns)
        + r.payload
}

/// The bytes of a record.
pub open spec fn record_bytes(r: Record) -> Seq<u8> {
    spec_u32_to_le_bytes((RECORD_OVERHEAD + r.payload.len()) as u32) + body_bytes(r)
        + spec_u32_to_le_bytes(crc::crc32_of(body_bytes(r)))
}

/// The bytes of the records `rs`, one behind the other.
pub open spec fn records_bytes(rs: Seq<Record>) -> Seq<u8>
    decreases rs.len(),
{
    if rs.len() == 0 {
        Seq::empty()
    } else {
        records_bytes(rs.drop_last()) + record_bytes(rs.last())
    }
}

/// What reading a header comes to: the header and the offset behind it.
pub open spec fn read_header(b: Seq<u8>) -> Result<(Header, int), RawLogError> {
    if b.len() < 8 {
        Err(RawLogError::BadHeader("short magic"))
    } else if b.take(8) != MAGIC@ {
        Err(RawLogError::BadHeader("bad magic"))
    } else if b.len() < HEADER_SIZE {
        Err(RawLogError::BadHeader("short header"))
    } else if b[8] != VERSION {
        Err(RawLogError::BadHeader("unsupported version"))
    } else {
        let meta_len = spec_u32_from_le_bytes(b.subrange(28, 32));
        if meta_len > MAX_PAYLOAD {
            Err(RawLogError::BadHeader("meta too large"))
        } else if b.len() < HEADER_SIZE + meta_len {
            Err(RawLogError::BadHeader("short meta"))
        } else {
            Ok(
                (
                    Header {
                        venue: b[9],
                        start_wall_ns: spec_u64_from_le_bytes(b.subrange(12, 20)),
                        start_mono_ns: spec_u64_from_le_bytes(b.subrange(20, 28)),
                        meta: b.subrange(32, 32 + meta_len),
                    },
                    32 + meta_len,
                ),
            )
        }
    }
}

/// What reading a record at `at` comes to: nothing at the end, a record and
/// the offset behind it, or the reason for which the tail is torn.
pub open spec fn read_record(b: Seq<u8>, at: int) -> Result<Option<(Record, int)>, &'static str> {
    if at >= b.len() {
        Ok(None)
    } else if at + 4 > b.len() {
        Err("partial length prefix")
    } else {
        let len = spec_u32_from_le_bytes(b.subrange(at, at + 4));
        if !(RECORD_OVERHEAD <= len <= RECORD_OVERHEAD + MAX_PAYLOAD) {
            Err("implausible record length")
        } else if at + 4 + len > b.len() {
            Err("record truncated")
        } else {
            let body = b.subrange(at + 4, at + len);
            let want = spec_u32_from_le_bytes(b.subrange(at + len, at + 4 + len));
            if want != crc::crc32_of(body) {
                Err("crc mismatch")
            } else {
                Ok(
                    Some(
                        (
                            Record {
                                rkind: body[0],
                                recv_mono_ns: spec_u64_from_le_bytes(body.subrange(1, 9)),
                                recv_wall_ns: spec_u64_from_le_bytes(body.subrange(9, 17)),
                                payload: body.skip(17),
                            },
                            at + 4 + len,
                        ),
                    ),
                )
            }
        }
    }
}

/// What reading all records from `at` on comes to: the records, the offset
/// behind the last of them and the reason for which the tail is torn, if it
/// is.
pub open spec fn read_all(b: Seq<u8>, at: int, acc: Seq<Record>) -> (
    Seq<Record>,
    int,
    Option<&'static str>,
)
    decreases b.len() - at,
{
    match read_record(b, at) {
        Ok(None) => (acc, at, None),
        Ok(Some((r, next))) => read_all(b, next, acc.push(r)),
        Err(reason) => (acc, at, Some(reason)),
    }
}

/// A record fits a segment.
pub open spec fn fits(r: Record) -> bool {
    r.payload.len() <= MAX_PAYLOAD
}

/// A record is read back as it was written, whatever stands around it.
pub proof fn lemma_record_roundtrip(before: Seq<u8>, r: Record, after: Seq<u8>)
    requires
        fits(r),
    ensures
        read_record(before + record_bytes(r) + after, before.len() as int) == Ok::<
            Option<(Record, int)>,
            &'static str,
        >(Some((r, (before + record_bytes(r)).len() as int))),
{
    lemma_auto_spec_u32_to_from_le_bytes();
    lemma_auto_spec_u64_to_from_le_bytes();
    let b = before + record_bytes(r) + after;
    let at = before.len() as int;
    let n = (RECORD_OVERHEAD + r.payload.len()) as u32;
    let body = body_bytes(r);
    let sum = crc::crc32_of(body);
    assert(body.len() == 17 + r.payload.len());
    assert(b.subrange(at, at + 4) =~= spec_u32_to_le_bytes(n));
    assert(b.subrange(at + 4, at + n) =~= body);
    assert(b.subrange(at + n, at + 4 + n) =~= spec_u32_to_le_bytes(sum));
    assert(body.subrange(1, 9) =~= spec_u64_to_le_bytes(r.recv_mono_ns));
    assert(body.subrange(9, 17) =~= spec_u64_to_le_bytes(r.recv_wall_ns));
    assert(body.skip(17) =~= r.payload);
}

/// A header is read back as it was written.
pub proof fn lemma_header_roundtrip(h: Header, after: Seq<u8>)
    requires
        h.meta.len() <= MAX_PAYLOAD,
    ensures
        read_header(header_bytes(h) + after) == Ok::<(Header, int), RawLogError>(
            (h, header_bytes(h).len() as int),
        ),
{
    lemma_auto_spec_u32_to_from_le_bytes();
    lemma_auto_spec_u64_to_from_le_bytes();
    let b = header_bytes(h) + after;
    let n = h.meta.len() as u32;
    assert(b.take(8) =~= MAGIC@);
    assert(b.subrange(12, 20) =~= spec_u64_to_le_bytes(h.start_wall_ns));
    assert(b.subrange(20, 28) =~= spec_u64_to_le_bytes(h.start_mono_ns));
    assert(b.subrange(28, 32) =~= spec_u32_to_le_bytes(n));
    assert(b.subrange(32, 32 + n) =~= h.meta);
}

/// Reading over records that were written gives them back, and goes on behind
/// them.
pub proof fn lemma_read_written(before: Seq<u8>, rs: Seq<Record>, after: Seq<u8>, acc: Seq<Record>)
    requires
        forall|i: int| 0 <= i < rs.len() ==> fits(#[trigger] rs[i]),
    ensures
        ({
            let b = before + records_bytes(rs) + after;
            read_all(b, before.len() as int, acc) == read_all(
                b,
                (before + records_bytes(rs)).len() as int,
                acc + rs,
            )
        }),
    decreases rs.len(),
{
    let b = before + records_bytes(rs) + after;
    if rs.len() == 0 {
        assert(acc + rs =~= acc);
        assert(before + records_bytes(rs) =~= before);
    } else {
        let init = rs.drop_last();
        let last = rs.last();
        let mid = before + records_bytes(init);
        lemma_read_written(before, init, record_bytes(last) + after, acc);
        assert(b =~= before + records_bytes(init) + (record_bytes(last) + after));
        assert(b =~= mid + record_bytes(last) + after);
        lemma_record_roundtrip(mid, last, after);
        assert((acc + init).push(last) =~= acc + rs);
        assert((before + records_bytes(rs)).len() == (mid + record_bytes(last)).len());
    }
}

/// A segment is read back as it was written: its header, then exactly its
/// records, with nothing torn.
pub proof fn lemma_segment_roundtrip(h: Header, rs: Seq<Record>)
    requires
        h.meta.len() <= MAX_PAYLOAD,
        forall|i: int| 0 <= i < rs.len() ==> fits(#[trigger] rs[i]),
    ensures
        ({
            let b = header_bytes(h) + records_bytes(rs);
            &&& read_header(b) == Ok::<(Header, int), RawLogError>(
                (h, header_bytes(h).len() as int),
            )
            &&& read_all(b, header_bytes(h).len() as int, Seq::empty()) == (
                rs,
                b.len() as int,
                None::<&'static str>,
            )
        }),
{
    let b = header_bytes(h) + records_bytes(rs);
    lemma_header_roundtrip(h, records_bytes(rs));
    lemma_read_written(header_bytes(h), rs, Seq::empty(), Seq::empty());
    assert(b =~= header_bytes(h) + records_bytes(rs) + Seq::<u8>::empty());
    assert(Seq::<Record>::empty() + rs =~= rs);
}

/// A write that was cut off within a record loses that record alone: the
/// records in front of it are read, and the tail is reported as torn at its
/// start.
pub proof fn lemma_torn_write(h: Header, rs: Seq<Record>, r: Record, cut: int)
    requires
        h.meta.len() <= MAX_PAYLOAD,
        forall|i: int| 0 <= i < rs.len() ==> fits(#[trigger] rs[i]),
        fits(r),
        0 < cut < record_bytes(r).len(),
    ensures
        ({
            let whole = header_bytes(h) + records_bytes(rs);
            let all = read_all(
                whole + record_bytes(r).take(cut),
                header_bytes(h).len() as int,
                Seq::empty(),
            );
            &&& all.0 == rs
            &&& all.1 == whole.len()
            &&& all.2 is Some
        }),
{
    lemma_auto_spec_u32_to_from_le_bytes();
    lemma_auto_spec_u64_to_from_le_bytes();
    let part = record_bytes(r).take(cut);
    let whole = header_bytes(h) + records_bytes(rs);
    let b = whole + part;
    let at = whole.len() as int;
    let n = (RECORD_OVERHEAD + r.payload.len()) as u32;
    lemma_read_written(header_bytes(h), rs, part, Seq::empty());
    assert(Seq::<Record>::empty() + rs =~= rs);
    if cut >= 4 {
        assert(b.subrange(at, at + 4) =~= spec_u32_to_le_bytes(n));
    }
    assert(read_record(b, at) is Err);
}

/// A record lies behind where it was read, and within the segment.
pub proof fn lemma_read_record_bounds(b: Seq<u8>, at: int)
    requires
        0 <= at,
    ensures
        read_record(b, at) matches Ok(Some(x)) ==> at < x.1 <= b.len() && x.1 - at == 25
            + x.0.payload.len() && fits(x.0),
{
}

/// Reading everything ends within the segment.
pub proof fn lemma_read_all_bounds(b: Seq<u8>, at: int, acc: Seq<Record>)
    requires
        at <= b.len(),
    ensures
        at <= read_all(b, at, acc).1 <= b.len(),
    decreases b.len() - at,
{
    if let Ok(Some((r, next))) = read_record(b, at) {
        lemma_read_all_bounds(b, next, acc.push(r));
    }
}

/// Recovery: a segment that is truncated at the reported offset holds the
/// same records and is clean.
pub proof fn lemma_truncate_recovers(b: Seq<u8>, at: int, acc: Seq<Record>)
    requires
        0 <= at <= b.len(),
    ensures
        ({
            let all = read_all(b, at, acc);
            read_all(b.take(all.1), at, acc) == (all.0, all.1, None::<&'static str>)
        }),
    decreases b.len() - at,
{
    let v = read_all(b, at, acc).1;
    let t = b.take(v);
    lemma_read_all_bounds(b, at, acc);
    if let Ok(Some((r, next))) = read_record(b, at) {
        lemma_read_all_bounds(b, next, acc.push(r));
        lemma_truncate_recovers(b, next, acc.push(r));
        let len = spec_u32_from_le_bytes(b.subrange(at, at + 4));
        assert(t.subrange(at, at + 4) =~= b.subrange(at, at + 4));
        assert(t.subrange(at + 4, at + len) =~= b.subrange(at + 4, at + len));
        assert(t.subrange(at + len, at + 4 + len) =~= b.subrange(at + len, at + 4 + len));
    }
}

/// Builds one segment. What was appended and not yet taken is pending; the
/// caller takes it and writes it to the file.
pub struct RawLogWriter {
    pending: Vec<u8>,
    bytes: u64,
    records: u64,
    log: Ghost<Seq<u8>>,
}

impl RawLogWriter {
    /// Everything that the segment holds.
    pub closed spec fn log(&self) -> Seq<u8> {
        self.log@
    }

    /// What is to be written to the file yet.
    pub closed spec fn unwritten(&self) -> Seq<u8> {
        self.pending@
    }

    /// How many records the segment holds.
    pub closed spec fn count(&self) -> u64 {
        self.records
    }

    /// The byte counter counts the segment.
    pub closed spec fn wf(&self) -> bool {
        self.bytes == self.log@.len()
    }

    /// Start a new segment: its header is pending.
    pub fn create(venue: u8, start_wall_ns: u64, start_mono_ns: u64, meta: &[u8]) -> (r: Result<
        Self,
        RawLogError,
    >)
        ensures
            match r {
                Ok(w) => meta@.len() <= u32::MAX && w.wf() && w.log() == header_bytes(
                    Header { venue, start_wall_ns, start_mono_ns, meta: meta@ },
                ) && w.unwritten() == w.log() && w.count() == 0,
                Err(e) => meta@.len() > u32::MAX && e == RawLogError::TooLarge,
            },
    {
        if meta.len() as u64 > u32::MAX as u64 {
            return Err(RawLogError::TooLarge);
        }
        let mut out: Vec<u8> = Vec::new();
        let mut i: usize = 0;
        while i < 8
            invariant
                i <= 8,
                out@ == MAGIC@.take(i as int),
            decreases 8 - i,
        {
            out.push(MAGIC[i]);
            i += 1;
            assert(out@ =~= MAGIC@.take(i as int));
        }
        assert(out@ =~= MAGIC@);
        out.push(VERSION);
        out.push(venue);
        out.push(0);
        out.push(0);
        out.extend_from_slice(u64_to_le_bytes(start_wall_ns).as_slice());
        out.extend_from_slice(u64_to_le_bytes(start_mono_ns).as_slice());
        out.extend_from_slice(u32_to_le_bytes(meta.len() as u32).as_slice());
        out.extend_from_slice(meta);
        let ghost h = Header { venue, start_wall_ns, start_mono_ns, meta: meta@ };
        assert(out@ =~= header_bytes(h));
        let n: u64 = out.len() as u64;
        Ok(RawLogWriter { pending: out, bytes: n, records: 0, log: Ghost(header_bytes(h)) })
    }

    /// Append one record.
    pub fn append(&mut self, rk: u8, recv_mono_ns: u64, recv_wall_ns: u64, payload: &[u8]) -> (r:
        Result<(), RawLogError>)
        requires
            old(self).wf(),
            old(self).log().len() + RECORD_OVERHEAD + 4 + payload@.len() <= u64::MAX,
            old(self).count() < u64::MAX,
        ensures
            final(self).wf(),
            match r {
                Ok(_) => {
                    let rec = Record { rkind: rk, recv_mono_ns, recv_wall_ns, payload: payload@ };
                    &&& fits(rec)
                    &&& final(self).log() == old(self).log() + record_bytes(rec)
                    &&& final(self).unwritten() == old(self).unwritten() + record_bytes(rec)
                    &&& final(self).count() == old(self).count() + 1
                },
                Err(e) => payload@.len() > MAX_PAYLOAD && e == RawLogError::TooLarge
                    && *final(self) == *old(self),
            },
    {
        if payload.len() > MAX_PAYLOAD {
            return Err(RawLogError::TooLarge);
        }
        let ghost rec = Record { rkind: rk, recv_mono_ns, recv_wall_ns, payload: payload@ };
        let len: u32 = (RECORD_OVERHEAD + payload.len()) as u32;
        let mut body: Vec<u8> = Vec::new();
        body.push(rk);
        body.extend_from_slice(u64_to_le_bytes(recv_mono_ns).as_slice());
        body.extend_from_slice(u64_to_le_bytes(recv_wall_ns).as_slice());
        body.extend_from_slice(payload);
        assert(body@ =~= body_bytes(rec));
        let sum: u32 = crc::crc32(body.as_slice());
        self.pending.extend_from_slice(u32_to_le_bytes(len).as_slice());
        self.pending.extend_from_slice(body.as_slice());
        self.pending.extend_from_slice(u32_to_le_bytes(sum).as_slice());
        assert(self.pending@ =~= old(self).pending@ + record_bytes(rec));
        assert(record_bytes(rec).len() == 4 + len) by {
            lemma_auto_spec_u32_to_from_le_bytes();
            lemma_auto_spec_u64_to_from_le_bytes();
        }
        self.bytes = self.bytes + 4 + len as u64;
        self.records = self.records + 1;
        self.log = Ghost(old(self).log@ + record_bytes(rec));
        Ok(())
    }

    /// Take what is to be written to the file.
    pub fn take_pending(&mut self) -> (r: Vec<u8>)
        requires
            old(self).wf(),
        ensures
            r@ == old(self).unwritten(),
            final(self).wf(),
            final(self).unwritten() == Seq::<u8>::empty(),
            final(self).log() == old(self).log(),
            final(self).count() == old(self).count(),
    {
        let mut out: Vec<u8> = Vec::new();
        std::mem::swap(&mut out, &mut self.pending);
        out
    }

    /// Bytes of the segment so far (header + records).
    pub fn bytes(&self) -> (r: u64)
        requires
            self.wf(),
        ensures
            r == self.log().len(),
    {
        self.bytes
    }

    /// Records of the segment so far.
    pub fn records(&self) -> (r: u64)
        ensures
            r == self.count(),
    {
        self.records
    }
}

/// One decoded record, borrowing the segment.
#[derive(Debug, PartialEq, Eq)]
pub struct RawRecord<'a> {
    /// Record kind (see [`rkind`]).
    pub rkind: u8,
    /// Monotonic receive timestamp.
    pub recv_mono_ns: u64,
    /// Wall receive timestamp.
    pub recv_wall_ns: u64,
    /// Raw payload bytes.
    pub payload: &'a [u8],
}

impl<'a> View for RawRecord<'a> {
    type V = Record;

    open spec fn view(&self) -> Record {
        Record {
            rkind: self.rkind,
            recv_mono_ns: self.recv_mono_ns,
            recv_wall_ns: self.recv_wall_ns,
            payload: self.payload@,
        }
    }
}

/// Segment header fields.
#[derive(Debug, Clone, PartialEq, Eq)]
pub struct SegmentHeader {
    /// Format version.
    pub version: u8,
    /// Venue id (see [`crate::event::Venue`]).
    pub venue: u8,
    /// Wall clock at segment creation.
    pub start_wall_ns: u64,
    /// Monotonic clock at segment creation.
    pub start_mono_ns: u64,
    /// Opaque metadata bytes (by convention JSON).
    pub meta: Vec<u8>,
}

impl View for SegmentHeader {
    type V = Header;

    open spec fn view(&self) -> Header {
        Header {
            venue: self.venue,
            start_wall_ns: self.start_wall_ns,
            start_mono_ns: self.start_mono_ns,
            meta: self.meta@,
        }
    }
}

/// Reads one segment sequentially with torn-tail detection.
pub struct RawLogReader<'a> {
    data: &'a [u8],
    /// Segment header.
    pub header: SegmentHeader,
    offset: usize,
}

impl<'a> RawLogReader<'a> {
    /// The segment.
    pub closed spec fn data(&self) -> Seq<u8> {
        self.data@
    }

    /// The end of the last record that was read.
    pub closed spec fn at(&self) -> int {
        self.offset as int
    }

    /// The header.
    pub closed spec fn head(&self) -> SegmentHeader {
        self.header
    }

    /// The offset lies within the segment.
    pub open spec fn wf(&self) -> bool {
        0 <= self.at() <= self.data().len() <= usize::MAX
    }

    /// Read the header of a segment.
    pub fn from_reader(data: &'a [u8]) -> (r: Result<Self, RawLogError>)
        ensures
            match read_header(data@) {
                Ok(x) => r matches Ok(rd) && rd.wf() && rd.data() == data@ && rd.head()@ == x.0
                    && rd.head().version == VERSION && rd.at() == x.1,
                Err(e) => r matches Err(f) && f == e,
            },
    {
        if data.len() < 8 {
            return Err(RawLogError::BadHeader("short magic"));
        }
        let mut i: usize = 0;
        while i < 8
            invariant
                i <= 8 <= data@.len(),
                forall|k: int| 0 <= k < i ==> data@[k] == #[trigger] MAGIC@[k],
            decreases 8 - i,
        {
            if data[i] != MAGIC[i] {
                assert(data@.take(8)[i as int] != MAGIC@[i as int]);
                return Err(RawLogError::BadHeader("bad magic"));
            }
            i += 1;
        }
        assert(data@.take(8) =~= MAGIC@);
        if data.len() < HEADER_SIZE {
            return Err(RawLogError::BadHeader("short header"));
        }
        if data[8] != VERSION {
            return Err(RawLogError::BadHeader("unsupported version"));
        }
        let meta_len: usize = u32_from_le_bytes(slice_subrange(data, 28, 32)) as usize;
        if meta_len > MAX_PAYLOAD {
            return Err(RawLogError::BadHeader("meta too large"));
        }
        if data.len() - HEADER_SIZE < meta_len {
            return Err(RawLogError::BadHeader("short meta"));
        }
        let end: usize = HEADER_SIZE + meta_len;
        let header = SegmentHeader {
            version: data[8],
            venue: data[9],
            start_wall_ns: u64_from_le_bytes(slice_subrange(data, 12, 20)),
            start_mono_ns: u64_from_le_bytes(slice_subrange(data, 20, 28)),
            meta: slice_to_vec(slice_subrange(data, HEADER_SIZE, end)),
        };
        Ok(RawLogReader { data, header, offset: end })
    }

    /// Byte offset of the end of the last successfully-read record.
    pub fn offset(&self) -> (r: u64)
        ensures
            r == self.at(),
    {
        self.offset as u64
    }

    /// Read the next record. `Ok(None)` at a clean end; `Err(TornTail)` if
    /// the segment ends mid-record or fails CRC.
    pub fn read_next(&mut self) -> (r: Result<Option<RawRecord<'a>>, RawLogError>)
        requires
            old(self).wf(),
        ensures
            final(self).wf(),
            final(self).data() == old(self).data(),
            final(self).head() == old(self).head(),
            match read_record(old(self).data(), old(self).at()) {
                Ok(None) => r matches Ok(None) && final(self).at() == old(self).at(),
                Ok(Some(x)) => r matches Ok(Some(y)) && y@ == x.0 && final(self).at() == x.1,
                Err(reason) => r matches Err(e) && e == (RawLogError::TornTail {
                    valid_bytes: old(self).at() as u64,
                    reason,
                }) && final(self).at() == old(self).at(),
            },
    {
        let at: usize = self.offset;
        let data: &'a [u8] = self.data;
        let valid_bytes: u64 = at as u64;
        if at >= data.len() {
            return Ok(None);
        }
        if data.len() - at < 4 {
            return Err(RawLogError::TornTail { valid_bytes, reason: "partial length prefix" });
        }
        let len: usize = u32_from_le_bytes(slice_subrange(data, at, at + 4)) as usize;
        if len < RECORD_OVERHEAD || len > RECORD_OVERHEAD + MAX_PAYLOAD {
            return Err(
                RawLogError::TornTail { valid_bytes, reason: "implausible record length" },
            );
        }
        if data.len() - at - 4 < len {
            return Err(RawLogError::TornTail { valid_bytes, reason: "record truncated" });
        }
        let end: usize = at + 4 + len;
        let body: &'a [u8] = slice_subrange(data, at + 4, end - 4);
        let want: u32 = u32_from_le_bytes(slice_subrange(data, end - 4, end));
        if want != crc::crc32(body) {
            return Err(RawLogError::TornTail { valid_bytes, reason: "crc mismatch" });
        }
        let rec = RawRecord {
            rkind: body[0],
            recv_mono_ns: u64_from_le_bytes(slice_subrange(body, 1, 9)),
            recv_wall_ns: u64_from_le_bytes(slice_subrange(body, 9, 17)),
            payload: slice_subrange(body, 17, body.len()),
        };
        assert(rec.payload@ =~= body@.skip(17));
        self.offset = end;
        Ok(Some(rec))
    }
}

/// Result of [`scan`].
#[derive(Debug, Clone, PartialEq, Eq)]
pub struct ScanReport {
    /// Valid records found.
    pub records: u64,
    /// Sum of payload lengths over valid records.
    pub payload_bytes: u64,
    /// Offset of last valid record end.
    pub valid_bytes: u64,
    /// `Some((valid_bytes, reason))` if the tail was torn/corrupt.
    pub torn: Option<(u64, &'static str)>,
}

/// The payload bytes of the records `rs`.
pub open spec fn payload_total(rs: Seq<Record>) -> nat
    decreases rs.len(),
{
    if rs.len() == 0 {
        0
    } else {
        payload_total(rs.drop_last()) + rs.last().payload.len()
    }
}

/// Scan a segment and report its records, its payload bytes, its valid prefix
/// and whether its tail is torn.
pub fn scan(data: &[u8]) -> (r: Result<ScanReport, RawLogError>)
    ensures
        match read_header(data@) {
            Err(e) => r matches Err(f) && f == e,
            Ok(x) => {
                let all = read_all(data@, x.1, Seq::empty());
                r matches Ok(rep) && rep.records == all.0.len() && rep.payload_bytes
                    == payload_total(all.0) && rep.valid_bytes == all.1 && rep.torn == (match all.2 {
                    Some(reason) => Some((all.1 as u64, reason)),
                    None => None,
                })
            },
        },
{
    let mut rd: RawLogReader<'_> = match RawLogReader::from_reader(data) {
        Ok(rd) => rd,
        Err(e) => {
            return Err(e);
        },
    };
    let ghost start = rd.at();
    let ghost mut acc: Seq<Record> = Seq::empty();
    let mut records: u64 = 0;
    let mut payload_bytes: u64 = 0;
    loop
        invariant
            rd.wf(),
            rd.data() == data@,
            read_header(data@) matches Ok(x) && x.1 == start,
            records == acc.len(),
            payload_bytes == payload_total(acc),
            25 * records + payload_bytes <= rd.at(),
            read_all(data@, rd.at(), acc) == read_all(data@, start, Seq::empty()),
        decreases data@.len() - rd.at(),
    {
        proof {
            lemma_read_record_bounds(data@, rd.at());
        }
        match rd.read_next() {
            Ok(Some(rec)) => {
                proof {
                    assert(acc.push(rec@).drop_last() =~= acc);
                    acc = acc.push(rec@);
                }
                records = records + 1;
                payload_bytes = payload_bytes + rec.payload.len() as u64;
            },
            Ok(None) => {
                return Ok(
                    ScanReport { records, payload_bytes, valid_bytes: rd.offset(), torn: None },
                );
            },
            Err(RawLogError::TornTail { valid_bytes, reason }) => {
                return Ok(
                    ScanReport {
                        records,
                        payload_bytes,
                        valid_bytes: rd.offset(),
                        torn: Some((valid_bytes, reason)),
                    },
                );
            },
            Err(e) => {
                return Err(e);
            },
        }
    }
}

} // verus!
