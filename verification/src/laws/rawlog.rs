//! Laws of the raw segment format.
use crate::crc;
use crate::rawlog;
use crate::rawlog::{rkind, Header, RawLogError, Record};
use vstd::bytes::*;
use vstd::prelude::*;

verus! {

/// Where a header holds its fields: the magic `FBRAW001`, the version, the
/// venue, two reserved bytes, both start times, the length of the metadata
/// and the metadata.
pub proof fn lemma_header_layout(h: Header)
    requires
        h.meta.len() <= u32::MAX,
    ensures
        ({
            let b = rawlog::header_bytes(h);
            &&& b.len() == 32 + h.meta.len()
            &&& b.take(8) == seq![
                0x46u8,
                0x42u8,
                0x52u8,
                0x41u8,
                0x57u8,
                0x30u8,
                0x30u8,
                0x31u8,
            ]
            &&& b[8] == 1
            &&& b[9] == h.venue
            &&& b[10] == 0 && b[11] == 0
            &&& spec_u64_from_le_bytes(b.subrange(12, 20)) == h.start_wall_ns
            &&& spec_u64_from_le_bytes(b.subrange(20, 28)) == h.start_mono_ns
            &&& spec_u32_from_le_bytes(b.subrange(28, 32)) == h.meta.len()
            &&& b.skip(32) == h.meta
        }),
{
    lemma_auto_spec_u32_to_from_le_bytes();
    lemma_auto_spec_u64_to_from_le_bytes();
    let b = rawlog::header_bytes(h);
    assert(rawlog::MAGIC@.len() == 8);
    assert(b.subrange(12, 20) =~= spec_u64_to_le_bytes(h.start_wall_ns));
    assert(b.subrange(20, 28) =~= spec_u64_to_le_bytes(h.start_mono_ns));
    assert(b.subrange(28, 32) =~= spec_u32_to_le_bytes(h.meta.len() as u32));
    assert(b.skip(32) =~= h.meta);
    assert(b.take(8) =~= seq![
        0x46u8,
        0x42u8,
        0x52u8,
        0x41u8,
        0x57u8,
        0x30u8,
        0x30u8,
        0x31u8,
    ]);
}

/// Where a record holds its fields: the length of all that follows, the kind,
/// both receive times, the payload, and the checksum of what stands between
/// the length and itself.
pub proof fn lemma_record_layout(r: Record)
    requires
        rawlog::fits(r),
    ensures
        ({
            let b = rawlog::record_bytes(r);
            let n = r.payload.len() as int;
            &&& b.len() == 25 + n
            &&& spec_u32_from_le_bytes(b.subrange(0, 4)) == 21 + n
            &&& b[4] == r.rkind
            &&& spec_u64_from_le_bytes(b.subrange(5, 13)) == r.recv_mono_ns
            &&& spec_u64_from_le_bytes(b.subrange(13, 21)) == r.recv_wall_ns
            &&& b.subrange(21, 21 + n) == r.payload
            &&& spec_u32_from_le_bytes(b.subrange(21 + n, 25 + n)) == crc::crc32_of(
                b.subrange(4, 21 + n),
            )
        }),
{
    lemma_auto_spec_u32_to_from_le_bytes();
    lemma_auto_spec_u64_to_from_le_bytes();
    let b = rawlog::record_bytes(r);
    let n = r.payload.len() as int;
    assert(b.subrange(0, 4) =~= spec_u32_to_le_bytes((21 + n) as u32));
    assert(b.subrange(4, 21 + n) =~= rawlog::body_bytes(r));
    assert(b.subrange(5, 13) =~= spec_u64_to_le_bytes(r.recv_mono_ns));
    assert(b.subrange(13, 21) =~= spec_u64_to_le_bytes(r.recv_wall_ns));
    assert(b.subrange(21, 21 + n) =~= r.payload);
    assert(b.subrange(21 + n, 25 + n) =~= spec_u32_to_le_bytes(
        crc::crc32_of(rawlog::body_bytes(r)),
    ));
}

/// A payload fits a record up to 64 MiB, and the kinds are numbered from 1.
pub proof fn lemma_record_limits(r: Record)
    ensures
        rawlog::fits(r) <==> r.payload.len() <= 64 * 1024 * 1024,
        rkind::WS_TEXT == 1,
        rkind::WS_BINARY == 2,
        rkind::REST_SNAPSHOT == 3,
        rkind::NOTE == 4,
{
}

/// Only what a record is written as is read as a record: what was read, put
/// down again, is the very bytes that it was read from.
pub proof fn lemma_only_written_records(b: Seq<u8>, at: int)
    requires
        0 <= at,
    ensures
        rawlog::read_record(b, at) matches Ok(Some((r, next))) ==> {
            &&& rawlog::fits(r)
            &&& at + 25 <= next <= b.len()
            &&& b.subrange(at, next) == rawlog::record_bytes(r)
        },
        rawlog::read_record(b, at) matches Ok(None) ==> at >= b.len(),
{
    if let Ok(Some((r, next))) = rawlog::read_record(b, at) {
        lemma_auto_spec_u32_to_from_le_bytes();
        lemma_auto_spec_u64_to_from_le_bytes();
        let len = spec_u32_from_le_bytes(b.subrange(at, at + 4)) as int;
        let body = b.subrange(at + 4, at + len);
        assert(spec_u32_to_le_bytes(len as u32) =~= b.subrange(at, at + 4));
        assert(spec_u64_to_le_bytes(r.recv_mono_ns) =~= body.subrange(1, 9));
        assert(spec_u64_to_le_bytes(r.recv_wall_ns) =~= body.subrange(9, 17));
        assert(rawlog::body_bytes(r) =~= body);
        assert(spec_u32_to_le_bytes(crc::crc32_of(body)) =~= b.subrange(at + len, at + 4 + len));
        assert(rawlog::record_bytes(r) =~= b.subrange(at, next));
    }
}

/// Only what a header is written as, but for its two reserved bytes, is read
/// as a header.
pub proof fn lemma_only_written_headers(b: Seq<u8>)
    ensures
        rawlog::read_header(b) matches Ok((h, next)) ==> {
            &&& h.meta.len() <= 64 * 1024 * 1024
            &&& next == 32 + h.meta.len() <= b.len()
            &&& b.take(10) == rawlog::header_bytes(h).take(10)
            &&& b.subrange(12, next) == rawlog::header_bytes(h).skip(12)
        },
{
    if let Ok((h, next)) = rawlog::read_header(b) {
        lemma_auto_spec_u32_to_from_le_bytes();
        lemma_auto_spec_u64_to_from_le_bytes();
        let w = rawlog::header_bytes(h);
        assert(rawlog::MAGIC@.len() == 8);
        assert(spec_u64_to_le_bytes(h.start_wall_ns) =~= b.subrange(12, 20));
        assert(spec_u64_to_le_bytes(h.start_mono_ns) =~= b.subrange(20, 28));
        assert(spec_u32_to_le_bytes(h.meta.len() as u32) =~= b.subrange(28, 32));
        assert forall|i: int| 0 <= i < 8 implies b[i] == w[i] by {
            assert(b.take(8)[i] == rawlog::MAGIC@[i]);
        }
        assert(b.take(10) =~= w.take(10));
        assert(b.subrange(12, next) =~= w.skip(12)) by {
            assert forall|i: int| 0 <= i < next - 12 implies b.subrange(12, next)[i] == w.skip(
                12,
            )[i] by {
                if i < 8 {
                    assert(b.subrange(12, 20)[i] == b[12 + i]);
                } else if i < 16 {
                    assert(b.subrange(20, 28)[i - 8] == b[12 + i]);
                } else if i < 20 {
                    assert(b.subrange(28, 32)[i - 16] == b[12 + i]);
                } else {
                    assert(h.meta[i - 20] == b[12 + i]);
                }
            }
        }
    }
}

/// Why a tail is torn: fewer than four bytes are left, they give a length
/// that no record has, fewer bytes follow than they say, or the checksum is
/// not that of the bytes.
pub proof fn lemma_torn_reasons(b: Seq<u8>, at: int)
    requires
        0 <= at < b.len(),
    ensures
        ({
            let r = rawlog::read_record(b, at);
            let len = spec_u32_from_le_bytes(b.subrange(at, at + 4)) as int;
            let whole = b.len() - at >= 4;
            let plausible = 21 <= len <= 21 + 64 * 1024 * 1024;
            let there = b.len() - at >= 4 + len;
            &&& !whole ==> r == Err::<Option<(Record, int)>, &'static str>("partial length prefix")
            &&& whole && !plausible ==> r == Err::<Option<(Record, int)>, &'static str>(
                "implausible record length",
            )
            &&& whole && plausible && !there ==> r == Err::<Option<(Record, int)>, &'static str>(
                "record truncated",
            )
            &&& whole && plausible && there ==> (r is Ok <==> spec_u32_from_le_bytes(
                b.subrange(at + len, at + len + 4),
            ) == crc::crc32_of(b.subrange(at + 4, at + len)))
            &&& whole && plausible && there && r is Err ==> r == Err::<
                Option<(Record, int)>,
                &'static str,
            >("crc mismatch")
        }),
{
}

/// Why a header is refused, in the order in which the reasons are looked for.
pub proof fn lemma_header_reasons(b: Seq<u8>)
    ensures
        ({
            let r = rawlog::read_header(b);
            let meta = spec_u32_from_le_bytes(b.subrange(28, 32)) as int;
            let magic = seq![
                0x46u8,
                0x42u8,
                0x52u8,
                0x41u8,
                0x57u8,
                0x30u8,
                0x30u8,
                0x31u8,
            ];
            &&& b.len() < 8 ==> r == Err::<(Header, int), RawLogError>(
                RawLogError::BadHeader("short magic"),
            )
            &&& b.len() >= 8 && b.take(8) != magic ==> r == Err::<(Header, int), RawLogError>(
                RawLogError::BadHeader("bad magic"),
            )
            &&& b.len() >= 8 && b.take(8) == magic ==> {
                &&& b.len() < 32 ==> r == Err::<(Header, int), RawLogError>(
                    RawLogError::BadHeader("short header"),
                )
                &&& b.len() >= 32 && b[8] != 1 ==> r == Err::<(Header, int), RawLogError>(
                    RawLogError::BadHeader("unsupported version"),
                )
                &&& b.len() >= 32 && b[8] == 1 ==> {
                    &&& meta > 64 * 1024 * 1024 ==> r == Err::<(Header, int), RawLogError>(
                        RawLogError::BadHeader("meta too large"),
                    )
                    &&& meta <= 64 * 1024 * 1024 && b.len() < 32 + meta ==> r == Err::<
                        (Header, int),
                        RawLogError,
                    >(RawLogError::BadHeader("short meta"))
                    &&& meta <= 64 * 1024 * 1024 && b.len() >= 32 + meta ==> r is Ok
                }
            }
        }),
{
    assert(rawlog::MAGIC@ =~= seq![
        0x46u8,
        0x42u8,
        0x52u8,
        0x41u8,
        0x57u8,
        0x30u8,
        0x30u8,
        0x31u8,
    ]);
}

/// The bytes of records stand one behind the other, and their payloads add
/// up.
pub proof fn lemma_records_add_up(a: Seq<Record>, b: Seq<Record>, r: Record)
    ensures
        rawlog::records_bytes(Seq::empty()).len() == 0,
        rawlog::records_bytes(seq![r]) == rawlog::record_bytes(r),
        rawlog::records_bytes(a + b) == rawlog::records_bytes(a) + rawlog::records_bytes(b),
        rawlog::payload_total(Seq::empty()) == 0,
        rawlog::payload_total(seq![r]) == r.payload.len(),
        rawlog::payload_total(a + b) == rawlog::payload_total(a) + rawlog::payload_total(b),
    decreases b.len(),
{
    let none = Seq::<Record>::empty();
    assert(seq![r].drop_last() =~= none);
    assert(rawlog::records_bytes(none) =~= Seq::<u8>::empty());
    assert(rawlog::payload_total(none) == 0);
    assert(rawlog::records_bytes(seq![r]) =~= rawlog::record_bytes(r));
    if b.len() == 0 {
        assert(a + b =~= a);
        assert(rawlog::records_bytes(a + b) =~= rawlog::records_bytes(a) + rawlog::records_bytes(
            b,
        ));
    } else {
        lemma_records_add_up(a, b.drop_last(), r);
        assert((a + b).drop_last() =~= a + b.drop_last());
        assert(rawlog::records_bytes(a + b) =~= rawlog::records_bytes(a) + rawlog::records_bytes(
            b,
        ));
    }
}

} // verus!
