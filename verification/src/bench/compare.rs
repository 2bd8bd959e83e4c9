//! The comparison with SQL stores: events as rows and back, the full-scan
//! aggregate, and point-in-time tops of book.
//!
//! - **u64 columns**: `recv_mono/recv_wall/venue_ts/venue_seq/aux` are u64
//!   in [`Event`] but BIGINT (i64) in SQL. Values above `i64::MAX` cannot be
//!   represented; rows are *checked* and refused rather than corrupted.
//! - **PIT fold**: identical code for all backends: events are applied to a
//!   fresh unbounded [`LadderBook`] and the resulting top of book compared.
use crate::book;
use crate::book::{BookState, L2Book};
use crate::event::Event;
use crate::ladder::LadderBook;
use crate::text;
use vstd::prelude::*;
use vstd::string::*;

verus! {

/// Flat SQL schema for the `events` table, shared verbatim by all engines.
pub const SCHEMA_SQL: &'static str = "CREATE TABLE events(recv_mono BIGINT, recv_wall BIGINT, venue_ts BIGINT, venue_seq BIGINT, price BIGINT, qty BIGINT, aux BIGINT, instrument INTEGER, kind TINYINT, venue INTEGER, flags INTEGER)";

/// The SQL columns of one event, in table order.
pub type SqlEventRow = (i64, i64, i64, i64, i64, i64, i64, i32, i8, i32, i32);

/// Why an event cannot be a row, or a row cannot be an event.
#[derive(Debug, Clone, Copy, PartialEq, Eq)]
pub enum RowError {
    /// A value of this column exceeds BIGINT.
    ExceedsBigint(&'static str, u64),
    /// A value exceeds the column's narrower type.
    Exceeds(&'static str),
    /// A row holds a value that no event has.
    OutOfRange(&'static str),
}

impl RowError {
    /// The message of this error.
    pub open spec fn message_spec(self) -> Seq<char> {
        match self {
            RowError::ExceedsBigint(field, v) => field@ + " value "@ + text::chars_of(
                text::dec_bytes(v as nat),
            ) + " exceeds i64::MAX (BIGINT)"@,
            RowError::Exceeds(what) => what@,
            RowError::OutOfRange(what) => what@,
        }
    }

    /// The message of this error.
    pub fn message(&self) -> (r: String)
        ensures
            r@ == self.message_spec(),
    {
        match *self {
            RowError::ExceedsBigint(field, v) => {
                let mut out: String = field.to_owned();
                out.append(" value ");
                text::push_dec(&mut out, v as u128);
                out.append(" exceeds i64::MAX (BIGINT)");
                out
            },
            RowError::Exceeds(what) => what.to_owned(),
            RowError::OutOfRange(what) => what.to_owned(),
        }
    }
}

/// Checked u64 -> BIGINT conversion; values above `i64::MAX` are
/// unrepresentable and must fail the load, not wrap.
pub open spec fn bigint(v: u64, field: &'static str) -> Result<i64, RowError> {
    if v <= i64::MAX {
        Ok(v as i64)
    } else {
        Err(RowError::ExceedsBigint(field, v))
    }
}

/// Checked u64 -> BIGINT conversion; values above `i64::MAX` are
/// unrepresentable and must fail the load, not wrap.
pub fn as_i64(v: u64, field: &'static str) -> (r: Result<i64, RowError>)
    ensures
        r == bigint(v, field),
{
    if v <= i64::MAX as u64 {
        Ok(v as i64)
    } else {
        Err(RowError::ExceedsBigint(field, v))
    }
}

/// An [`Event`] as its SQL row, or the first of its values that no column
/// takes.
pub open spec fn row_of(e: Event) -> Result<SqlEventRow, RowError> {
    if e.recv_mono_ns > i64::MAX {
        Err(RowError::ExceedsBigint("recv_mono", e.recv_mono_ns))
    } else if e.recv_wall_ns > i64::MAX {
        Err(RowError::ExceedsBigint("recv_wall", e.recv_wall_ns))
    } else if e.venue_ts_ns > i64::MAX {
        Err(RowError::ExceedsBigint("venue_ts", e.venue_ts_ns))
    } else if e.venue_seq > i64::MAX {
        Err(RowError::ExceedsBigint("venue_seq", e.venue_seq))
    } else if e.aux > i64::MAX {
        Err(RowError::ExceedsBigint("aux", e.aux))
    } else if e.instrument > i32::MAX {
        Err(RowError::Exceeds("instrument exceeds INTEGER"))
    } else if e.kind > i8::MAX {
        Err(RowError::Exceeds("kind exceeds TINYINT"))
    } else {
        Ok(
            (
                e.recv_mono_ns as i64,
                e.recv_wall_ns as i64,
                e.venue_ts_ns as i64,
                e.venue_seq as i64,
                e.price,
                e.qty,
                e.aux as i64,
                e.instrument as i32,
                e.kind as i8,
                e.venue as i32,
                e.flags as i32,
            ),
        )
    }
}

/// An [`Event`] as its SQL row (checked narrowing).
pub fn sql_row(e: &Event) -> (r: Result<SqlEventRow, RowError>)
    ensures
        r == row_of(*e),
{
    let recv_mono: i64 = match as_i64(e.recv_mono_ns, "recv_mono") {
        Ok(v) => v,
        Err(x) => return Err(x),
    };
    let recv_wall: i64 = match as_i64(e.recv_wall_ns, "recv_wall") {
        Ok(v) => v,
        Err(x) => return Err(x),
    };
    let venue_ts: i64 = match as_i64(e.venue_ts_ns, "venue_ts") {
        Ok(v) => v,
        Err(x) => return Err(x),
    };
    let venue_seq: i64 = match as_i64(e.venue_seq, "venue_seq") {
        Ok(v) => v,
        Err(x) => return Err(x),
    };
    let aux: i64 = match as_i64(e.aux, "aux") {
        Ok(v) => v,
        Err(x) => return Err(x),
    };
    if e.instrument > i32::MAX as u32 {
        return Err(RowError::Exceeds("instrument exceeds INTEGER"));
    }
    if e.kind > i8::MAX as u8 {
        return Err(RowError::Exceeds("kind exceeds TINYINT"));
    }
    Ok(
        (
            recv_mono,
            recv_wall,
            venue_ts,
            venue_seq,
            e.price,
            e.qty,
            aux,
            e.instrument as i32,
            e.kind as i8,
            e.venue as i32,
            e.flags as i32,
        ),
    )
}

/// A SQL row as an [`Event`] (`rsvd` is 0), or what is wrong with the first
/// of its values that no event has.
pub open spec fn event_of_row(r: SqlEventRow) -> Result<Event, RowError> {
    if r.0 < 0 {
        Err(RowError::OutOfRange("negative recv_mono"))
    } else if r.1 < 0 {
        Err(RowError::OutOfRange("negative recv_wall"))
    } else if r.2 < 0 {
        Err(RowError::OutOfRange("negative venue_ts"))
    } else if r.3 < 0 {
        Err(RowError::OutOfRange("negative venue_seq"))
    } else if r.6 < 0 {
        Err(RowError::OutOfRange("negative aux"))
    } else if r.7 < 0 {
        Err(RowError::OutOfRange("negative instrument"))
    } else if r.8 < 0 {
        Err(RowError::OutOfRange("negative kind"))
    } else if !(0 <= r.9 <= 255) {
        Err(RowError::OutOfRange("venue out of u8"))
    } else if !(0 <= r.10 <= 255) {
        Err(RowError::OutOfRange("flags out of u8"))
    } else {
        Ok(
            Event {
                recv_mono_ns: r.0 as u64,
                recv_wall_ns: r.1 as u64,
                venue_ts_ns: r.2 as u64,
                venue_seq: r.3 as u64,
                price: r.4,
                qty: r.5,
                aux: r.6 as u64,
                instrument: r.7 as u32,
                kind: r.8 as u8,
                venue: r.9 as u8,
                flags: r.10 as u8,
                rsvd: 0,
            },
        )
    }
}

/// A SQL row back into an [`Event`] (`rsvd` reconstructed as 0): the inverse
/// of [`sql_row`], used by the SQL PIT folds.
pub fn event_from_sql(r: SqlEventRow) -> (res: Result<Event, RowError>)
    ensures
        res == event_of_row(r),
{
    if r.0 < 0 {
        return Err(RowError::OutOfRange("negative recv_mono"));
    }
    if r.1 < 0 {
        return Err(RowError::OutOfRange("negative recv_wall"));
    }
    if r.2 < 0 {
        return Err(RowError::OutOfRange("negative venue_ts"));
    }
    if r.3 < 0 {
        return Err(RowError::OutOfRange("negative venue_seq"));
    }
    if r.6 < 0 {
        return Err(RowError::OutOfRange("negative aux"));
    }
    if r.7 < 0 {
        return Err(RowError::OutOfRange("negative instrument"));
    }
    if r.8 < 0 {
        return Err(RowError::OutOfRange("negative kind"));
    }
    if r.9 < 0 || r.9 > 255 {
        return Err(RowError::OutOfRange("venue out of u8"));
    }
    if r.10 < 0 || r.10 > 255 {
        return Err(RowError::OutOfRange("flags out of u8"));
    }
    Ok(
        Event {
            recv_mono_ns: r.0 as u64,
            recv_wall_ns: r.1 as u64,
            venue_ts_ns: r.2 as u64,
            venue_seq: r.3 as u64,
            price: r.4,
            qty: r.5,
            aux: r.6 as u64,
            instrument: r.7 as u32,
            kind: r.8 as u8,
            venue: r.9 as u8,
            flags: r.10 as u8,
            rsvd: 0,
        },
    )
}

/// An event that is a row at all is read back from it.
pub proof fn lemma_row_roundtrip(e: Event)
    requires
        row_of(e) is Ok,
        e.rsvd == 0,
    ensures
        event_of_row(row_of(e)->Ok_0) == Ok::<Event, RowError>(e),
{
}

/// A text with its single quotes doubled, from character `i` on.
pub open spec fn doubled_quotes(s: Seq<char>, i: int) -> Seq<char>
    decreases s.len() - i,
{
    if !(0 <= i < s.len()) {
        Seq::empty()
    } else if s[i] == '\'' {
        "''"@ + doubled_quotes(s, i + 1)
    } else {
        seq![s[i]] + doubled_quotes(s, i + 1)
    }
}

/// Escape a path for embedding in a single-quoted SQL string literal.
pub fn sql_str_literal(path: &str) -> (r: String)
    ensures
        r@ == "'"@ + doubled_quotes(path@, 0) + "'"@,
{
    let mut out: String = "'".to_owned();
    let n: usize = path.unicode_len();
    let ghost goal = "'"@ + doubled_quotes(path@, 0);
    let mut i: usize = 0;
    while i < n
        invariant
            i <= n,
            n == path@.len(),
            out@ + doubled_quotes(path@, i as int) == goal,
        decreases n - i,
    {
        let c: char = path.get_char(i);
        let ghost before = out@;
        if c == '\'' {
            out.append("''");
        } else {
            out.push(c);
        }
        assert(out@ + doubled_quotes(path@, i + 1) =~= before + doubled_quotes(path@, i as int));
        i += 1;
    }
    assert(out@ + doubled_quotes(path@, i as int) =~= out@);
    out.append("'");
    out
}

/// One row of the full-scan aggregate.
#[derive(Debug, Clone, Copy, PartialEq, Eq, Structural)]
pub struct ScanRow {
    /// Instrument id.
    pub instrument: u32,
    /// Event count.
    pub count: u64,
    /// Sum of `qty` mantissas (exceeds i64 on large corpora).
    pub sum_qty: i128,
    /// Minimum `price` mantissa (0 events with meaningless price included,
    /// identically on every backend).
    pub min_price: i64,
    /// Maximum `price` mantissa.
    pub max_price: i64,
    /// Maximum `recv_mono_ns`.
    pub max_mono: u64,
}

impl ScanRow {
    /// The aggregate of no events of an instrument.
    pub open spec fn none(instrument: u32) -> ScanRow {
        ScanRow {
            instrument,
            count: 0,
            sum_qty: 0,
            min_price: i64::MAX,
            max_price: i64::MIN,
            max_mono: 0,
        }
    }

    /// The aggregate with one event more.
    pub open spec fn with(self, e: Event) -> ScanRow {
        ScanRow {
            count: (self.count + 1) as u64,
            sum_qty: (self.sum_qty + e.qty) as i128,
            min_price: if e.price < self.min_price {
                e.price
            } else {
                self.min_price
            },
            max_price: if e.price > self.max_price {
                e.price
            } else {
                self.max_price
            },
            max_mono: if e.recv_mono_ns > self.max_mono {
                e.recv_mono_ns
            } else {
                self.max_mono
            },
            ..self
        }
    }
}

/// The aggregate of the events of one instrument.
pub open spec fn aggregate(evs: Seq<Event>, instrument: u32) -> ScanRow
    decreases evs.len(),
{
    if evs.len() == 0 {
        ScanRow::none(instrument)
    } else if evs.last().instrument == instrument {
        aggregate(evs.drop_last(), instrument).with(evs.last())
    } else {
        aggregate(evs.drop_last(), instrument)
    }
}

/// Some event is one of the instrument.
pub open spec fn occurs(evs: Seq<Event>, instrument: u32) -> bool {
    exists|i: int| 0 <= i < evs.len() && (#[trigger] evs[i]).instrument == instrument
}

/// The rows are the aggregates of the instruments that occur, by ascending
/// instrument.
pub open spec fn scanned(evs: Seq<Event>, rows: Seq<ScanRow>) -> bool {
    &&& forall|i: int, j: int|
        0 <= i < j < rows.len() ==> (#[trigger] rows[i]).instrument < (#[trigger]
        rows[j]).instrument
    &&& forall|i: int|
        0 <= i < rows.len() ==> (#[trigger] rows[i]) == aggregate(evs, rows[i].instrument)
    &&& forall|i: int| 0 <= i < rows.len() ==> occurs(evs, (#[trigger] rows[i]).instrument)
    &&& forall|k: int|
        0 <= k < evs.len() ==> exists|i: int|
            0 <= i < rows.len() && (#[trigger] rows[i]).instrument == (#[trigger]
            evs[k]).instrument
}

/// How large the count and the sum of an aggregate can be.
proof fn lemma_aggregate_bounds(evs: Seq<Event>, instrument: u32)
    requires
        evs.len() <= u64::MAX,
    ensures
        aggregate(evs, instrument).instrument == instrument,
        aggregate(evs, instrument).count <= evs.len(),
        -(evs.len() * 0x8000_0000_0000_0000) <= aggregate(evs, instrument).sum_qty <= evs.len()
            * 0x8000_0000_0000_0000,
    decreases evs.len(),
{
    if evs.len() > 0 {
        lemma_aggregate_bounds(evs.drop_last(), instrument);
        let n = evs.len() - 1;
        assert(evs.len() * 0x8000_0000_0000_0000 == n * 0x8000_0000_0000_0000
            + 0x8000_0000_0000_0000) by (nonlinear_arith)
            requires
                n == evs.len() - 1,
        ;
        assert(evs.len() * 0x8000_0000_0000_0000 <= u64::MAX * 0x8000_0000_0000_0000)
            by (nonlinear_arith)
            requires
                evs.len() <= u64::MAX,
        ;
    }
}

/// An instrument that does not occur has the aggregate of no events.
proof fn lemma_aggregate_none(evs: Seq<Event>, instrument: u32)
    requires
        !occurs(evs, instrument),
    ensures
        aggregate(evs, instrument) == ScanRow::none(instrument),
    decreases evs.len(),
{
    if evs.len() > 0 {
        assert(evs[evs.len() - 1].instrument != instrument);
        if occurs(evs.drop_last(), instrument) {
            let i = choose|i: int|
                0 <= i < evs.drop_last().len() && (#[trigger] evs.drop_last()[i]).instrument
                    == instrument;
            assert(evs[i].instrument == instrument);
        }
        lemma_aggregate_none(evs.drop_last(), instrument);
    }
}

/// The place of an instrument's row, or where it would go.
fn find_row(rows: &[ScanRow], instrument: u32) -> (r: Result<usize, usize>)
    requires
        forall|i: int, j: int|
            0 <= i < j < rows@.len() ==> (#[trigger] rows@[i]).instrument < (#[trigger]
            rows@[j]).instrument,
    ensures
        match r {
            Ok(i) => i < rows@.len() && rows@[i as int].instrument == instrument,
            Err(i) => i <= rows@.len() && (forall|j: int|
                0 <= j < i ==> (#[trigger] rows@[j]).instrument < instrument) && (forall|j: int|
                i <= j < rows@.len() ==> instrument < (#[trigger] rows@[j]).instrument),
        },
{
    let mut i: usize = 0;
    while i < rows.len()
        invariant
            i <= rows@.len(),
            forall|i: int, j: int|
                0 <= i < j < rows@.len() ==> (#[trigger] rows@[i]).instrument < (#[trigger]
                rows@[j]).instrument,
            forall|j: int| 0 <= j < i ==> (#[trigger] rows@[j]).instrument < instrument,
        decreases rows@.len() - i,
    {
        if rows[i].instrument == instrument {
            return Ok(i);
        }
        if rows[i].instrument > instrument {
            assert forall|j: int| i <= j < rows@.len() implies instrument < (#[trigger]
            rows@[j]).instrument by {
                if j > i {
                    assert(rows@[i as int].instrument < rows@[j].instrument);
                }
            }
            return Err(i);
        }
        i += 1;
    }
    Err(i)
}

/// What one event more does to the rows.
proof fn lemma_scanned_step(evs: Seq<Event>, e: Event, rows: Seq<ScanRow>, next: Seq<ScanRow>)
    requires
        scanned(evs, rows),
        ({
            let row = aggregate(evs, e.instrument).with(e);
            ||| exists|i: int|
                0 <= i < rows.len() && (#[trigger] rows[i]).instrument == e.instrument && next
                    == rows.update(i, row)
            ||| exists|i: int| #[trigger]
                goes_at(rows, e.instrument, i) && next == rows.insert(i, row)
        }),
        evs.len() < u64::MAX,
    ensures
        scanned(evs.push(e), next),
{
    let all = evs.push(e);
    let row = aggregate(evs, e.instrument).with(e);
    lemma_aggregate_bounds(evs, e.instrument);
    assert(all.drop_last() =~= evs);
    assert(aggregate(all, e.instrument) == row);
    assert(all[evs.len() as int] == e);
    assert forall|x: u32| occurs(evs, x) implies occurs(all, x) by {
        let i = choose|i: int| 0 <= i < evs.len() && (#[trigger] evs[i]).instrument == x;
        assert(all[i].instrument == x);
    }
    assert(occurs(all, e.instrument));
    if exists|i: int|
        0 <= i < rows.len() && (#[trigger] rows[i]).instrument == e.instrument && next
            == rows.update(i, row) {
        let p = choose|i: int|
            0 <= i < rows.len() && (#[trigger] rows[i]).instrument == e.instrument && next
                == rows.update(i, row);
        assert forall|i: int| 0 <= i < next.len() implies (#[trigger] next[i]) == aggregate(
            all,
            next[i].instrument,
        ) by {
            if i != p {
                assert(next[i] == rows[i]);
                if i < p {
                    assert(rows[i].instrument < rows[p].instrument);
                } else {
                    assert(rows[p].instrument < rows[i].instrument);
                }
            }
        }
        assert forall|i: int| 0 <= i < next.len() implies occurs(
            all,
            (#[trigger] next[i]).instrument,
        ) by {
            if i != p {
                assert(next[i] == rows[i]);
            }
        }
        assert forall|i: int, j: int| 0 <= i < j < next.len() implies (#[trigger]
        next[i]).instrument < (#[trigger] next[j]).instrument by {
            assert(rows[i].instrument < rows[j].instrument);
        }
        assert forall|k: int| 0 <= k < all.len() implies exists|i: int|
            0 <= i < next.len() && (#[trigger] next[i]).instrument == (#[trigger]
            all[k]).instrument by {
            if k < evs.len() {
                assert(all[k] == evs[k]);
                let i = choose|i: int|
                    0 <= i < rows.len() && (#[trigger] rows[i]).instrument == evs[k].instrument;
                assert(next[i].instrument == rows[i].instrument);
            } else {
                assert(next[p].instrument == e.instrument);
            }
        }
    } else {
        let p = choose|i: int| #[trigger]
            goes_at(rows, e.instrument, i) && next == rows.insert(i, row);
        assert forall|i: int| 0 <= i < next.len() implies (#[trigger] next[i]) == aggregate(
            all,
            next[i].instrument,
        ) by {
            if i < p {
                assert(next[i] == rows[i]);
            } else if i > p {
                assert(next[i] == rows[i - 1]);
            }
        }
        assert forall|i: int| 0 <= i < next.len() implies occurs(
            all,
            (#[trigger] next[i]).instrument,
        ) by {
            if i < p {
                assert(next[i] == rows[i]);
            } else if i > p {
                assert(next[i] == rows[i - 1]);
            }
        }
        assert forall|i: int, j: int| 0 <= i < j < next.len() implies (#[trigger]
        next[i]).instrument < (#[trigger] next[j]).instrument by {
            if i < p {
                assert(next[i] == rows[i]);
            } else if i > p {
                assert(next[i] == rows[i - 1]);
            }
            if j < p {
                assert(next[j] == rows[j]);
            } else if j > p {
                assert(next[j] == rows[j - 1]);
            }
        }
        assert forall|k: int| 0 <= k < all.len() implies exists|i: int|
            0 <= i < next.len() && (#[trigger] next[i]).instrument == (#[trigger]
            all[k]).instrument by {
            if k < evs.len() {
                assert(all[k] == evs[k]);
                let i = choose|i: int|
                    0 <= i < rows.len() && (#[trigger] rows[i]).instrument == evs[k].instrument;
                if i < p {
                    assert(next[i] == rows[i]);
                } else {
                    assert(next[i + 1] == rows[i]);
                }
            } else {
                assert(next[p].instrument == e.instrument);
            }
        }
    }
}

/// A row of the instrument goes at `i`.
pub open spec fn goes_at(rows: Seq<ScanRow>, instrument: u32, i: int) -> bool {
    &&& 0 <= i <= rows.len()
    &&& forall|j: int| 0 <= j < i ==> (#[trigger] rows[j]).instrument < instrument
    &&& forall|j: int| i <= j < rows.len() ==> instrument < (#[trigger] rows[j]).instrument
}

/// The full-scan aggregate: one fold over every event, rows by ascending
/// instrument.
pub fn full_scan_ours(events: &[Event]) -> (r: Vec<ScanRow>)
    ensures
        scanned(events@, r@),
{
    let mut rows: Vec<ScanRow> = Vec::new();
    let n: usize = events.len();
    let mut i: usize = 0;
    while i < n
        invariant
            i <= n,
            n == events@.len(),
            scanned(events@.take(i as int), rows@),
        decreases n - i,
    {
        let e: Event = events[i];
        let ghost evs = events@.take(i as int);
        let ghost before = rows@;
        proof {
            lemma_aggregate_bounds(evs, e.instrument);
            assert(evs.len() * 0x8000_0000_0000_0000 <= u64::MAX * 0x8000_0000_0000_0000)
                by (nonlinear_arith)
                requires
                    evs.len() <= u64::MAX,
            ;
        }
        match find_row(rows.as_slice(), e.instrument) {
            Ok(p) => {
                let row: ScanRow = add_event(rows[p], &e);
                rows.set(p, row);
                assert(before[p as int].instrument == e.instrument && rows@ == before.update(
                    p as int,
                    aggregate(evs, e.instrument).with(e),
                ));
            },
            Err(p) => {
                proof {
                    if occurs(evs, e.instrument) {
                        let k = choose|k: int|
                            0 <= k < evs.len() && (#[trigger] evs[k]).instrument == e.instrument;
                        let q = choose|q: int|
                            0 <= q < before.len() && (#[trigger] before[q]).instrument
                                == evs[k].instrument;
                        assert(before[q].instrument == e.instrument);
                    }
                    lemma_aggregate_none(evs, e.instrument);
                }
                let row: ScanRow = add_event(
                    ScanRow {
                        instrument: e.instrument,
                        count: 0,
                        sum_qty: 0,
                        min_price: i64::MAX,
                        max_price: i64::MIN,
                        max_mono: 0,
                    },
                    &e,
                );
                rows.insert(p, row);
                assert(goes_at(before, e.instrument, p as int) && rows@ == before.insert(
                    p as int,
                    aggregate(evs, e.instrument).with(e),
                ));
            },
        }
        proof {
            lemma_scanned_step(evs, e, before, rows@);
            assert(evs.push(e) =~= events@.take(i + 1));
        }
        i += 1;
    }
    assert(events@.take(i as int) =~= events@);
    rows
}

/// The aggregate with one event more.
fn add_event(row: ScanRow, e: &Event) -> (r: ScanRow)
    requires
        row.count < u64::MAX,
        i128::MIN <= row.sum_qty + e.qty <= i128::MAX,
    ensures
        r == row.with(*e),
{
    ScanRow {
        instrument: row.instrument,
        count: row.count + 1,
        sum_qty: row.sum_qty + e.qty as i128,
        min_price: if e.price < row.min_price {
            e.price
        } else {
            row.min_price
        },
        max_price: if e.price > row.max_price {
            e.price
        } else {
            row.max_price
        },
        max_mono: if e.recv_mono_ns > row.max_mono {
            e.recv_mono_ns
        } else {
            row.max_mono
        },
    }
}

/// One raw aggregate row as a [`ScanRow`]: the sum of quantities is split
/// into a high part, in units of two to the power of 31, and a low part.
pub open spec fn scan_row_of(t: (i32, i64, i64, i64, i64, i64, i64)) -> Result<
    ScanRow,
    RowError,
> {
    if t.0 < 0 {
        Err(RowError::OutOfRange("negative instrument"))
    } else if t.1 < 0 {
        Err(RowError::OutOfRange("negative count"))
    } else if t.6 < 0 {
        Err(RowError::OutOfRange("negative max recv_mono"))
    } else {
        Ok(
            ScanRow {
                instrument: t.0 as u32,
                count: t.1 as u64,
                sum_qty: (t.2 * 0x8000_0000 + t.3) as i128,
                min_price: t.4,
                max_price: t.5,
                max_mono: t.6 as u64,
            },
        )
    }
}

/// The sums of the high and of the low parts of the quantities of one
/// instrument's events, as a SQL engine computes them: a quantity shifted
/// right by 31 bits, and its low 31 bits.
pub open spec fn split_sums(evs: Seq<Event>, instrument: u32) -> (int, int)
    decreases evs.len(),
{
    if evs.len() == 0 {
        (0, 0)
    } else {
        let s = split_sums(evs.drop_last(), instrument);
        let q = evs.last().qty;
        if evs.last().instrument == instrument {
            (s.0 + (q >> 31), s.1 + (q & 0x7fff_ffff))
        } else {
            s
        }
    }
}

/// The two parts of a quantity are exact, whatever its sign.
proof fn lemma_split(q: i64)
    ensures
        (q >> 31) * 0x8000_0000 + (q & 0x7fff_ffff) == q,
{
    assert((q >> 31) * 0x8000_0000 + (q & 0x7fff_ffff) == q) by (bit_vector);
}

/// The split sums recombine to the exact sum.
pub proof fn lemma_split_sums(evs: Seq<Event>, instrument: u32)
    requires
        evs.len() <= u64::MAX,
    ensures
        aggregate(evs, instrument).sum_qty == split_sums(evs, instrument).0 * 0x8000_0000
            + split_sums(evs, instrument).1,
    decreases evs.len(),
{
    if evs.len() > 0 {
        let e = evs.last();
        lemma_split_sums(evs.drop_last(), instrument);
        lemma_aggregate_bounds(evs.drop_last(), instrument);
        assert(evs.drop_last().len() * 0x8000_0000_0000_0000 <= u64::MAX
            * 0x8000_0000_0000_0000) by (nonlinear_arith)
            requires
                evs.drop_last().len() <= u64::MAX,
        ;
        lemma_split(e.qty);
        let s = split_sums(evs.drop_last(), instrument);
        assert((s.0 + (e.qty >> 31)) * 0x8000_0000 == s.0 * 0x8000_0000 + (e.qty >> 31)
            * 0x8000_0000) by (nonlinear_arith);
    }
}

/// Every backend gives the same row: where the values of an aggregate fit the
/// columns of a SQL result, the raw row reads back as the row that the scan
/// computes.
pub proof fn lemma_backends_agree(evs: Seq<Event>, instrument: u32)
    requires
        evs.len() <= u64::MAX,
        instrument <= i32::MAX,
        aggregate(evs, instrument).count <= i64::MAX,
        aggregate(evs, instrument).max_mono <= i64::MAX,
        i64::MIN <= split_sums(evs, instrument).0 <= i64::MAX,
        i64::MIN <= split_sums(evs, instrument).1 <= i64::MAX,
    ensures
        scan_row_of(
            (
                instrument as i32,
                aggregate(evs, instrument).count as i64,
                split_sums(evs, instrument).0 as i64,
                split_sums(evs, instrument).1 as i64,
                aggregate(evs, instrument).min_price,
                aggregate(evs, instrument).max_price,
                aggregate(evs, instrument).max_mono as i64,
            ),
        ) == Ok::<ScanRow, RowError>(aggregate(evs, instrument)),
{
    lemma_split_sums(evs, instrument);
    lemma_aggregate_bounds(evs, instrument);
}

/// One raw aggregate row into a [`ScanRow`] (shared by all SQL backends):
/// recombines the hi/lo split sums exactly.
pub fn scan_row_from_sql(t: (i32, i64, i64, i64, i64, i64, i64)) -> (r: Result<ScanRow, RowError>)
    ensures
        r == scan_row_of(t),
{
    if t.0 < 0 {
        return Err(RowError::OutOfRange("negative instrument"));
    }
    if t.1 < 0 {
        return Err(RowError::OutOfRange("negative count"));
    }
    if t.6 < 0 {
        return Err(RowError::OutOfRange("negative max recv_mono"));
    }
    Ok(
        ScanRow {
            instrument: t.0 as u32,
            count: t.1 as u64,
            sum_qty: t.2 as i128 * 0x8000_0000 + t.3 as i128,
            min_price: t.4,
            max_price: t.5,
            max_mono: t.6 as u64,
        },
    )
}

/// Point-in-time top of book, plus the anchor it was folded from.
#[derive(Debug, Clone, Copy, PartialEq, Eq)]
pub struct PitTop {
    /// `recv_mono_ns` of the `SnapBegin` the fold started at (`None` = no
    /// complete snapshot at or before `t`; empty book).
    pub anchor_mono: Option<u64>,
    /// Best bid (price, qty).
    pub best_bid: Option<(i64, i64)>,
    /// Best ask (price, qty).
    pub best_ask: Option<(i64, i64)>,
}

/// The top of a book that was folded from an anchor; nothing where there is
/// none.
pub open spec fn top_of(anchor: Option<u64>, b: BookState) -> PitTop {
    PitTop {
        anchor_mono: anchor,
        best_bid: if anchor is Some {
            book::top(b.bids)
        } else {
            None
        },
        best_ask: if anchor is Some {
            book::top(b.asks)
        } else {
            None
        },
    }
}

/// Result of one SQL-backend PIT query.
#[derive(Debug, Clone, Copy, PartialEq, Eq)]
pub struct SqlPit {
    /// The folded top of book (from the validated anchor).
    pub top: PitTop,
    /// What the naive SQL anchor query said (may point at an incomplete
    /// snapshot).
    pub sql_anchor: Option<u64>,
    /// True when the SQL anchor differed from the validated one
    /// (incomplete-snapshot case); the fold still used the latter.
    pub anchor_diverged: bool,
}

/// Build the [`SqlPit`] from the pieces shared by all SQL backends.
pub fn finish_sql_pit(ours_anchor: Option<u64>, sql_anchor: Option<u64>, book: &LadderBook) -> (r:
    SqlPit)
    requires
        book.wf(),
    ensures
        r.top == top_of(ours_anchor, book.state()),
        r.sql_anchor == sql_anchor,
        r.anchor_diverged == (sql_anchor != ours_anchor),
{
    let top: PitTop = if ours_anchor.is_some() {
        PitTop {
            anchor_mono: ours_anchor,
            best_bid: book.best_bid(),
            best_ask: book.best_ask(),
        }
    } else {
        PitTop { anchor_mono: ours_anchor, best_bid: None, best_ask: None }
    };
    let diverged: bool = match (sql_anchor, ours_anchor) {
        (Some(a), Some(b)) => a != b,
        (None, None) => false,
        _ => true,
    };
    SqlPit { top, sql_anchor, anchor_diverged: diverged }
}

/// Apply one event to the PIT fold book (the SAME fold on every backend).
pub fn fold_event(book: &mut LadderBook, e: &Event)
    requires
        old(book).wf(),
        old(book).state().dropped < u64::MAX,
    ensures
        final(book).wf(),
        final(book).state() == old(book).state().step(*e).0,
{
    let _ = book.apply(e);
}

/// A book counts at most one dropped event per event.
proof fn lemma_dropped(evs: Seq<Event>)
    ensures
        BookState::fresh(None).run(evs).dropped <= evs.len(),
    decreases evs.len(),
{
    if evs.len() > 0 {
        lemma_dropped(evs.drop_last());
    }
}

/// Point-in-time top of book: the events from the anchor on, folded into a
/// fresh unbounded book.
pub fn pit_top(anchor: Option<u64>, events: &[Event]) -> (r: PitTop)
    ensures
        r == top_of(anchor, BookState::fresh(None).run(events@)),
{
    let mut book: LadderBook = LadderBook::new();
    let n: usize = events.len();
    let mut i: usize = 0;
    assert(events@.take(0) =~= Seq::<Event>::empty());
    while i < n
        invariant
            i <= n,
            n == events@.len(),
            book.wf(),
            book.state() == BookState::fresh(None).run(events@.take(i as int)),
        decreases n - i,
    {
        proof {
            lemma_dropped(events@.take(i as int));
            assert(events@.take(i + 1).drop_last() =~= events@.take(i as int));
        }
        fold_event(&mut book, &events[i]);
        i += 1;
    }
    assert(events@.take(i as int) =~= events@);
    finish_sql_pit(anchor, anchor, &book).top
}

/// The event is one of `instrument`'s from `from` to `to`.
pub open spec fn in_window(e: Event, instrument: u32, from: u64, to: u64) -> bool {
    e.instrument == instrument && from <= e.recv_mono_ns <= to
}

/// The events of `instrument` from `from` to `to`, in order.
pub fn window(events: &[Event], instrument: u32, from: u64, to: u64) -> (r: Vec<Event>)
    ensures
        r@ == events@.filter(|e: Event| in_window(e, instrument, from, to)),
{
    let ghost keep = |e: Event| in_window(e, instrument, from, to);
    let n: usize = events.len();
    let mut out: Vec<Event> = Vec::new();
    let mut i: usize = 0;
    proof {
        reveal(Seq::filter);
        assert(events@.take(0).filter(keep) =~= Seq::<Event>::empty());
    }
    while i < n
        invariant
            i <= n,
            n == events@.len(),
            keep == (|e: Event| in_window(e, instrument, from, to)),
            out@ == events@.take(i as int).filter(keep),
        decreases n - i,
    {
        proof {
            reveal(Seq::filter);
            assert(events@.take(i + 1).drop_last() =~= events@.take(i as int));
        }
        let e: Event = events[i];
        if e.instrument == instrument && from <= e.recv_mono_ns && e.recv_mono_ns <= to {
            out.push(e);
        }
        i += 1;
    }
    assert(events@.take(i as int) =~= events@);
    out
}

/// Point-in-time top of book at `t_mono`, ours: the events of the instrument
/// from the anchor to `t_mono`, folded; nothing without an anchor.
pub fn pit_ours(events: &[Event], instrument: u32, t_mono: u64, anchor: Option<u64>) -> (r: PitTop)
    ensures
        r == match anchor {
            None => PitTop { anchor_mono: None, best_bid: None, best_ask: None },
            Some(a) => top_of(
                anchor,
                BookState::fresh(None).run(
                    events@.filter(|e: Event| in_window(e, instrument, a, t_mono)),
                ),
            ),
        },
{
    match anchor {
        None => PitTop { anchor_mono: None, best_bid: None, best_ask: None },
        Some(a) => pit_top(anchor, window(events, instrument, a, t_mono).as_slice()),
    }
}

} // verus!
