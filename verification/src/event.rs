//! The normalized wire event: one fixed 64-byte record (exactly one cache
//! line on the wire).
//!
//! Book snapshots are encoded as bracketed runs of the same record
//! (`SnapBegin`, N x `SnapBid`/`SnapAsk`, `SnapEnd`) so every consumer
//! handles exactly one record shape.
use vstd::bytes::*;
use vstd::prelude::*;
use vstd::slice::slice_subrange;

pub mod flags;

verus! {

/// Venue identifiers (stable on the wire; never renumber).
#[derive(Debug, Clone, Copy, PartialEq, Eq, Hash, Structural)]
pub enum Venue {
    /// Coinbase Exchange (ws-feed.exchange.coinbase.com), code 1
    Coinbase,
    /// Binance spot (stream.binance.com), code 2
    Binance,
    /// Kraken spot v2 (ws.kraken.com/v2), code 3
    Kraken,
}

/// The venue with wire code `v`, or the byte itself if there is none.
pub open spec fn venue_of(v: u8) -> Result<Venue, u8> {
    if v == 1 {
        Ok(Venue::Coinbase)
    } else if v == 2 {
        Ok(Venue::Binance)
    } else if v == 3 {
        Ok(Venue::Kraken)
    } else {
        Err(v)
    }
}

impl Venue {
    /// All venues, in wire order.
    pub const ALL: [Venue; 3] = [Venue::Coinbase, Venue::Binance, Venue::Kraken];

    /// The wire code of this venue.
    pub open spec fn code_spec(self) -> u8 {
        match self {
            Venue::Coinbase => 1,
            Venue::Binance => 2,
            Venue::Kraken => 3,
        }
    }

    /// The wire code of this venue.
    pub fn code(self) -> (r: u8)
        ensures
            r == self.code_spec(),
    {
        match self {
            Venue::Coinbase => 1,
            Venue::Binance => 2,
            Venue::Kraken => 3,
        }
    }

    /// Lowercase stable name.
    pub open spec fn name_spec(self) -> Seq<char> {
        match self {
            Venue::Coinbase => "coinbase"@,
            Venue::Binance => "binance"@,
            Venue::Kraken => "kraken"@,
        }
    }

    /// Lowercase stable name (used in file names, stats keys).
    pub fn name(self) -> (r: &'static str)
        ensures
            r@ == self.name_spec(),
    {
        match self {
            Venue::Coinbase => "coinbase",
            Venue::Binance => "binance",
            Venue::Kraken => "kraken",
        }
    }
}

impl TryFrom<u8> for Venue {
    type Error = u8;

    fn try_from(v: u8) -> (r: Result<Self, u8>) {
        match v {
            1 => Ok(Venue::Coinbase),
            2 => Ok(Venue::Binance),
            3 => Ok(Venue::Kraken),
            other => Err(other),
        }
    }
}

impl vstd::std_specs::convert::TryFromSpecImpl<u8> for Venue {
    open spec fn obeys_try_from_spec() -> bool {
        true
    }

    open spec fn try_from_spec(v: u8) -> Result<Self, u8> {
        venue_of(v)
    }
}

/// Book side.
#[derive(Debug, Clone, Copy, PartialEq, Eq, Hash, Structural)]
pub enum Side {
    /// Buy side.
    Bid,
    /// Sell side.
    Ask,
}

/// Event kinds (stable on the wire; never renumber).
#[derive(Debug, Clone, Copy, PartialEq, Eq, Hash, Structural)]
pub enum EventKind {
    /// Set absolute quantity at a bid price level (qty 0 removes the level).
    BidSet,
    /// Set absolute quantity at an ask price level (qty 0 removes the level).
    AskSet,
    /// A trade print. `aux` = venue trade id (0 if none);
    /// flag [`flags::TAKER_SELL`] set when the aggressor sold.
    Trade,
    /// Start of a book snapshot; consumers should clear the book.
    /// `aux` = level count if known in advance, else 0.
    SnapBegin,
    /// One bid level of a snapshot.
    SnapBid,
    /// One ask level of a snapshot.
    SnapAsk,
    /// End of a book snapshot. `aux` = venue checksum if provided, else 0.
    SnapEnd,
    /// Venue-provided book checksum to verify against (Kraken CRC32).
    /// `aux` = checksum value.
    Checksum,
    /// Venue heartbeat / liveness marker.
    Heartbeat,
    /// Sequence gap detected by the feed handler. `aux` = number of missed
    /// messages if computable, else 0. A resync (snapshot) follows.
    Gap,
    /// Book must be cleared (reconnect/resync start).
    Clear,
}

/// The kind with wire code `v`, or the byte itself if there is none.
pub open spec fn kind_of(v: u8) -> Result<EventKind, u8> {
    if v == 1 {
        Ok(EventKind::BidSet)
    } else if v == 2 {
        Ok(EventKind::AskSet)
    } else if v == 3 {
        Ok(EventKind::Trade)
    } else if v == 4 {
        Ok(EventKind::SnapBegin)
    } else if v == 5 {
        Ok(EventKind::SnapBid)
    } else if v == 6 {
        Ok(EventKind::SnapAsk)
    } else if v == 7 {
        Ok(EventKind::SnapEnd)
    } else if v == 8 {
        Ok(EventKind::Checksum)
    } else if v == 9 {
        Ok(EventKind::Heartbeat)
    } else if v == 10 {
        Ok(EventKind::Gap)
    } else if v == 11 {
        Ok(EventKind::Clear)
    } else {
        Err(v)
    }
}

impl EventKind {
    /// The wire code of this kind.
    pub open spec fn code_spec(self) -> u8 {
        match self {
            EventKind::BidSet => 1,
            EventKind::AskSet => 2,
            EventKind::Trade => 3,
            EventKind::SnapBegin => 4,
            EventKind::SnapBid => 5,
            EventKind::SnapAsk => 6,
            EventKind::SnapEnd => 7,
            EventKind::Checksum => 8,
            EventKind::Heartbeat => 9,
            EventKind::Gap => 10,
            EventKind::Clear => 11,
        }
    }

    /// The wire code of this kind.
    pub fn code(self) -> (r: u8)
        ensures
            r == self.code_spec(),
    {
        match self {
            EventKind::BidSet => 1,
            EventKind::AskSet => 2,
            EventKind::Trade => 3,
            EventKind::SnapBegin => 4,
            EventKind::SnapBid => 5,
            EventKind::SnapAsk => 6,
            EventKind::SnapEnd => 7,
            EventKind::Checksum => 8,
            EventKind::Heartbeat => 9,
            EventKind::Gap => 10,
            EventKind::Clear => 11,
        }
    }
}

impl TryFrom<u8> for EventKind {
    type Error = u8;

    fn try_from(v: u8) -> (r: Result<Self, u8>) {
        match v {
            1 => Ok(EventKind::BidSet),
            2 => Ok(EventKind::AskSet),
            3 => Ok(EventKind::Trade),
            4 => Ok(EventKind::SnapBegin),
            5 => Ok(EventKind::SnapBid),
            6 => Ok(EventKind::SnapAsk),
            7 => Ok(EventKind::SnapEnd),
            8 => Ok(EventKind::Checksum),
            9 => Ok(EventKind::Heartbeat),
            10 => Ok(EventKind::Gap),
            11 => Ok(EventKind::Clear),
            other => Err(other),
        }
    }
}

impl vstd::std_specs::convert::TryFromSpecImpl<u8> for EventKind {
    open spec fn obeys_try_from_spec() -> bool {
        true
    }

    open spec fn try_from_spec(v: u8) -> Result<Self, u8> {
        kind_of(v)
    }
}

/// Every kind and every venue is read back from its wire code.
pub proof fn lemma_codes_roundtrip(k: EventKind, v: Venue)
    ensures
        kind_of(k.code_spec()) == Ok::<EventKind, u8>(k),
        venue_of(v.code_spec()) == Ok::<Venue, u8>(v),
{
}

/// The normalized event. Exactly 64 bytes on the wire.
///
/// Prices and quantities are i64 mantissas at the global 1e-8 scale
/// ([`crate::fixed::SCALE`]). Timestamps are nanoseconds: `recv_mono_ns` from
/// the process monotonic clock (ordering/latency math), `recv_wall_ns` UNIX
/// wall time (cross-process alignment), `venue_ts_ns` the venue's own event
/// time (0 if the venue provides none for this message).
#[derive(Debug, Clone, Copy, PartialEq, Eq, Structural)]
pub struct Event {
    /// Local monotonic receive timestamp (ns since process clock anchor).
    pub recv_mono_ns: u64,
    /// Local wall-clock receive timestamp (ns since UNIX epoch).
    pub recv_wall_ns: u64,
    /// Venue event timestamp (ns since UNIX epoch; 0 if not provided).
    pub venue_ts_ns: u64,
    /// Venue sequence / update id (0 if not provided).
    pub venue_seq: u64,
    /// Price mantissa at 1e-8 (0 when meaningless for the kind).
    pub price: i64,
    /// Quantity mantissa at 1e-8 (absolute level qty for book events;
    /// trade size for trades; 0 when meaningless).
    pub qty: i64,
    /// Kind-specific auxiliary value (trade id, checksum, level count, gap size).
    pub aux: u64,
    /// Instrument id from the [`crate::instrument::Registry`].
    pub instrument: u32,
    /// [`EventKind`] code.
    pub kind: u8,
    /// [`Venue`] code.
    pub venue: u8,
    /// Bit flags, see [`flags`].
    pub flags: u8,
    /// Reserved; must be 0.
    pub rsvd: u8,
}

/// Size of one event record on the wire.
pub const EVENT_SIZE: usize = 64;

impl Event {
    /// The all-zero event (kind 0 is invalid; useful as a fill value).
    pub open spec fn zero_spec() -> Event {
        Event {
            recv_mono_ns: 0,
            recv_wall_ns: 0,
            venue_ts_ns: 0,
            venue_seq: 0,
            price: 0,
            qty: 0,
            aux: 0,
            instrument: 0,
            kind: 0,
            venue: 0,
            flags: 0,
            rsvd: 0,
        }
    }

    /// The all-zero event (kind 0 is invalid; useful as a fill value).
    pub fn zero() -> (r: Event)
        ensures
            r == Event::zero_spec(),
    {
        Event {
            recv_mono_ns: 0,
            recv_wall_ns: 0,
            venue_ts_ns: 0,
            venue_seq: 0,
            price: 0,
            qty: 0,
            aux: 0,
            instrument: 0,
            kind: 0,
            venue: 0,
            flags: 0,
            rsvd: 0,
        }
    }

    /// Typed kind, or the raw byte if unknown.
    pub fn kind(&self) -> (r: Result<EventKind, u8>)
        ensures
            r == kind_of(self.kind),
    {
        EventKind::try_from(self.kind)
    }

    /// Typed venue, or the raw byte if unknown.
    pub fn venue(&self) -> (r: Result<Venue, u8>)
        ensures
            r == venue_of(self.venue),
    {
        Venue::try_from(self.venue)
    }

    /// The book side that this event's kind speaks of.
    pub open spec fn side_spec(self) -> Option<Side> {
        match kind_of(self.kind) {
            Ok(EventKind::BidSet) | Ok(EventKind::SnapBid) => Some(Side::Bid),
            Ok(EventKind::AskSet) | Ok(EventKind::SnapAsk) => Some(Side::Ask),
            _ => None,
        }
    }

    /// Book side for book-affecting kinds.
    pub fn side(&self) -> (r: Option<Side>)
        ensures
            r == self.side_spec(),
    {
        match self.kind() {
            Ok(EventKind::BidSet) | Ok(EventKind::SnapBid) => Some(Side::Bid),
            Ok(EventKind::AskSet) | Ok(EventKind::SnapAsk) => Some(Side::Ask),
            _ => None,
        }
    }

    /// The event is of a kind that changes the levels of a book.
    pub open spec fn is_book_spec(self) -> bool {
        self.kind == EventKind::BidSet.code_spec() || self.kind == EventKind::AskSet.code_spec()
            || self.kind == EventKind::SnapBegin.code_spec() || self.kind
            == EventKind::SnapBid.code_spec() || self.kind == EventKind::SnapAsk.code_spec()
            || self.kind == EventKind::SnapEnd.code_spec() || self.kind
            == EventKind::Clear.code_spec()
    }

    /// True for kinds that mutate book levels.
    pub fn is_book(&self) -> (r: bool)
        ensures
            r == self.is_book_spec(),
    {
        match self.kind() {
            Ok(EventKind::BidSet)
            | Ok(EventKind::AskSet)
            | Ok(EventKind::SnapBegin)
            | Ok(EventKind::SnapBid)
            | Ok(EventKind::SnapAsk)
            | Ok(EventKind::SnapEnd)
            | Ok(EventKind::Clear) => true,
            _ => false,
        }
    }

    /// The events as wire bytes: one 64-byte record each, in order.
    pub fn slice_as_bytes(events: &[Event]) -> (r: Vec<u8>)
        ensures
            r@ == encode_all(events@),
    {
        let mut out: Vec<u8> = Vec::new();
        let mut i: usize = 0;
        while i < events.len()
            invariant
                i <= events.len(),
                out@ == encode_all(events@.take(i as int)),
            decreases events.len() - i,
        {
            let e: Event = events[i];
            push_u64(&mut out, e.recv_mono_ns);
            push_u64(&mut out, e.recv_wall_ns);
            push_u64(&mut out, e.venue_ts_ns);
            push_u64(&mut out, e.venue_seq);
            push_u64(&mut out, e.price as u64);
            push_u64(&mut out, e.qty as u64);
            push_u64(&mut out, e.aux);
            let mut id: Vec<u8> = u32_to_le_bytes(e.instrument);
            out.append(&mut id);
            out.push(e.kind);
            out.push(e.venue);
            out.push(e.flags);
            out.push(e.rsvd);
            proof {
                let t = events@.take(i + 1);
                assert(t.drop_last() =~= events@.take(i as int));
                assert(out@ =~= encode_all(t.drop_last()) + encode(t.last()));
            }
            i += 1;
        }
        assert(events@.take(i as int) =~= events@);
        out
    }

    /// Decode one record.
    fn read_record(b: &[u8], at: usize) -> (r: Event)
        requires
            at + 64 <= b.len(),
        ensures
            r == decode(b@.subrange(at as int, at + 64)),
    {
        let ghost rec: Seq<u8> = b@.subrange(at as int, at + 64);
        proof {
            assert(forall|o: int, n: int|
                0 <= o <= n <= 64 ==> #[trigger] rec.subrange(o, n) =~= b@.subrange(at + o, at + n));
        }
        Event {
            recv_mono_ns: u64_from_le_bytes(slice_subrange(b, at, at + 8)),
            recv_wall_ns: u64_from_le_bytes(slice_subrange(b, at + 8, at + 16)),
            venue_ts_ns: u64_from_le_bytes(slice_subrange(b, at + 16, at + 24)),
            venue_seq: u64_from_le_bytes(slice_subrange(b, at + 24, at + 32)),
            price: u64_from_le_bytes(slice_subrange(b, at + 32, at + 40)) as i64,
            qty: u64_from_le_bytes(slice_subrange(b, at + 40, at + 48)) as i64,
            aux: u64_from_le_bytes(slice_subrange(b, at + 48, at + 56)),
            instrument: u32_from_le_bytes(slice_subrange(b, at + 56, at + 60)),
            kind: b[at + 60],
            venue: b[at + 61],
            flags: b[at + 62],
            rsvd: b[at + 63],
        }
    }

    /// The events of `bytes` as one slice of records. Fails if the buffer is
    /// misaligned for a record of 8-byte words or not a multiple of 64 bytes.
    pub fn bytes_as_slice(bytes: &[u8]) -> (r: Result<Vec<Event>, CastError>)
        ensures
            match r {
                Ok(v) => bytes@.len() % 64 == 0 && v@ == decode_all(bytes@),
                Err(CastError::OutputSliceWouldHaveSlop) => bytes@.len() % 64 != 0,
                Err(e) => e == CastError::TargetAlignmentGreaterAndInputNotAligned,
            },
    {
        Event::records(bytes, cast_check(bytes))
    }

    /// The events of `bytes`, once the cast of the buffer to records was
    /// tried with the outcome `cast`.
    pub fn records(bytes: &[u8], cast: Result<(), CastError>) -> (r: Result<Vec<Event>, CastError>)
        ensures
            match cast {
                Ok(_) => r matches Ok(v) && v@ == decode_all(bytes@),
                Err(e) => r == Err::<Vec<Event>, CastError>(e),
            },
    {
        match cast {
            Ok(_) => Ok(Event::iter_unaligned(bytes)),
            Err(e) => Err(e),
        }
    }

    /// Copy-decode events from possibly-unaligned bytes: one for each whole
    /// 64-byte chunk, a shorter rest being ignored.
    pub fn iter_unaligned(bytes: &[u8]) -> (r: Vec<Event>)
        ensures
            r@ == decode_all(bytes@),
    {
        let n: usize = bytes.len() / 64;
        let mut out: Vec<Event> = Vec::new();
        let mut i: usize = 0;
        while i < n
            invariant
                i <= n,
                n == bytes@.len() / 64,
                n * 64 <= bytes.len(),
                out@ =~= decode_all(bytes@).take(i as int),
            decreases n - i,
        {
            out.push(Event::read_record(bytes, i * 64));
            i += 1;
        }
        out
    }
}

/// Why a buffer cannot be viewed as records.
#[derive(Debug, Clone, Copy, PartialEq, Eq, Structural)]
pub enum CastError {
    /// The buffer does not start at an address that a record may start at.
    TargetAlignmentGreaterAndInputNotAligned,
    /// The buffer's length is not a whole number of records.
    OutputSliceWouldHaveSlop,
    /// The sizes of two single values differ.
    SizeMismatch,
    /// The alignments of two owned values differ.
    AlignmentMismatch,
}

/// `bytemuck::try_cast_slice` from bytes to records of eight 8-byte words.
/// It succeeds only where the length is a multiple of 64, and reports slop
/// only where it is not; whether the buffer is aligned depends on where it
/// happens to lie, so nothing is claimed of that. The words themselves are
/// dropped: the record's bytes have an order of their own.
#[verifier::external_body]
fn cast_check(bytes: &[u8]) -> (r: Result<(), CastError>)
    ensures
        match r {
            Ok(_) => bytes@.len() % 64 == 0,
            Err(CastError::OutputSliceWouldHaveSlop) => bytes@.len() % 64 != 0,
            Err(e) => e == CastError::TargetAlignmentGreaterAndInputNotAligned,
        },
{
    match bytemuck::try_cast_slice::<u8, [u64; 8]>(bytes) {
        Ok(_) => Ok(()),
        Err(bytemuck::PodCastError::TargetAlignmentGreaterAndInputNotAligned) => Err(
            CastError::TargetAlignmentGreaterAndInputNotAligned,
        ),
        Err(bytemuck::PodCastError::OutputSliceWouldHaveSlop) => Err(
            CastError::OutputSliceWouldHaveSlop,
        ),
        Err(bytemuck::PodCastError::SizeMismatch) => Err(CastError::SizeMismatch),
        Err(bytemuck::PodCastError::AlignmentMismatch) => Err(CastError::AlignmentMismatch),
    }
}

/// The wire record of one event: seven 8-byte words and the 4-byte instrument
/// id, all little-endian, then four single bytes.
pub open spec fn encode(e: Event) -> Seq<u8> {
    spec_u64_to_le_bytes(e.recv_mono_ns) + spec_u64_to_le_bytes(e.recv_wall_ns)
        + spec_u64_to_le_bytes(e.venue_ts_ns) + spec_u64_to_le_bytes(e.venue_seq)
        + spec_u64_to_le_bytes(e.price as u64) + spec_u64_to_le_bytes(e.qty as u64)
        + spec_u64_to_le_bytes(e.aux) + spec_u32_to_le_bytes(e.instrument) + seq![
        e.kind,
        e.venue,
        e.flags,
        e.rsvd,
    ]
}

/// The event that a 64-byte record holds.
pub open spec fn decode(b: Seq<u8>) -> Event {
    Event {
        recv_mono_ns: spec_u64_from_le_bytes(b.subrange(0, 8)),
        recv_wall_ns: spec_u64_from_le_bytes(b.subrange(8, 16)),
        venue_ts_ns: spec_u64_from_le_bytes(b.subrange(16, 24)),
        venue_seq: spec_u64_from_le_bytes(b.subrange(24, 32)),
        price: spec_u64_from_le_bytes(b.subrange(32, 40)) as i64,
        qty: spec_u64_from_le_bytes(b.subrange(40, 48)) as i64,
        aux: spec_u64_from_le_bytes(b.subrange(48, 56)),
        instrument: spec_u32_from_le_bytes(b.subrange(56, 60)),
        kind: b[60],
        venue: b[61],
        flags: b[62],
        rsvd: b[63],
    }
}

/// The records of a run of events, one after the other.
pub open spec fn encode_all(s: Seq<Event>) -> Seq<u8>
    decreases s.len(),
{
    if s.len() == 0 {
        Seq::empty()
    } else {
        encode_all(s.drop_last()) + encode(s.last())
    }
}

/// The events of the whole records of `b`.
pub open spec fn decode_all(b: Seq<u8>) -> Seq<Event> {
    Seq::new((b.len() / 64) as nat, |i: int| decode(b.subrange(i * 64, i * 64 + 64)))
}

fn push_u64(out: &mut Vec<u8>, v: u64)
    ensures
        final(out)@ == old(out)@ + spec_u64_to_le_bytes(v),
{
    let mut w: Vec<u8> = u64_to_le_bytes(v);
    out.append(&mut w);
}

/// A record is 64 bytes long and holds the event that it was made of.
pub proof fn lemma_encode_decode(e: Event)
    ensures
        encode(e).len() == 64,
        decode(encode(e)) == e,
{
    lemma_auto_spec_u64_to_from_le_bytes();
    lemma_auto_spec_u32_to_from_le_bytes();
    let b = encode(e);
    assert(b.subrange(0, 8) =~= spec_u64_to_le_bytes(e.recv_mono_ns));
    assert(b.subrange(8, 16) =~= spec_u64_to_le_bytes(e.recv_wall_ns));
    assert(b.subrange(16, 24) =~= spec_u64_to_le_bytes(e.venue_ts_ns));
    assert(b.subrange(24, 32) =~= spec_u64_to_le_bytes(e.venue_seq));
    assert(b.subrange(32, 40) =~= spec_u64_to_le_bytes(e.price as u64));
    assert(b.subrange(40, 48) =~= spec_u64_to_le_bytes(e.qty as u64));
    assert(b.subrange(48, 56) =~= spec_u64_to_le_bytes(e.aux));
    assert(b.subrange(56, 60) =~= spec_u32_to_le_bytes(e.instrument));
    let p = e.price;
    let q = e.qty;
    assert((p as u64) as i64 == p) by (bit_vector);
    assert((q as u64) as i64 == q) by (bit_vector);
}

/// Decoding the bytes of a run of events gives the events back.
pub proof fn lemma_encode_all_roundtrip(s: Seq<Event>)
    ensures
        encode_all(s).len() == 64 * s.len(),
        decode_all(encode_all(s)) == s,
    decreases s.len(),
{
    if s.len() > 0 {
        let init = s.drop_last();
        lemma_encode_all_roundtrip(init);
        lemma_encode_decode(s.last());
        let b = encode_all(s);
        let bi = encode_all(init);
        assert forall|i: int| 0 <= i < s.len() implies decode_all(b)[i] == s[i] by {
            if i < init.len() {
                assert(b.subrange(i * 64, i * 64 + 64) =~= bi.subrange(i * 64, i * 64 + 64));
                assert(decode_all(bi)[i] == init[i]);
            } else {
                assert(b.subrange(i * 64, i * 64 + 64) =~= encode(s.last()));
            }
        }
        assert(decode_all(b) =~= s);
    } else {
        assert(decode_all(encode_all(s)) =~= s);
    }
}

} // verus!
