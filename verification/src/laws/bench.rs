//! Laws of the benchmarks: percentiles, pacing, load, aggregates and
//! measurements.
use crate::bench::compare;
use crate::bench::compare::ScanRow;
use crate::bench::e2e;
use crate::bench::feed;
use crate::bench::live;
use crate::bench::lob;
use crate::bench::loadgen;
use crate::bench::loadgen::GenState;
use crate::bench::pacing;
use crate::bench::percentile;
use crate::book::BookState;
use crate::bookset;
use crate::event::{Event, Venue};
use crate::instrument::Meta;
use vstd::bytes::*;
use vstd::prelude::*;

verus! {

/// `v` is the sample of nearest rank: of the `n` ascending samples, at least
/// `mille` thousandths lie at or before it, and fewer lie before it.
pub open spec fn has_rank(s: Seq<u64>, v: u64, mille: int) -> bool {
    exists|k: int|
        0 <= k < s.len() && #[trigger] s[k] == v && (k + 1) * 1000 >= s.len() * mille && k * 1000
            < s.len() * mille
}

/// The summary of samples: how many, the first, the last, and the samples of
/// nearest rank at 500, 900, 990 and 999 thousandths.
pub proof fn lemma_summary(s: Seq<u64>)
    requires
        0 < s.len() <= u64::MAX,
    ensures
        ({
            let p = percentile::summary(s);
            &&& p.n == s.len()
            &&& p.min == s[0]
            &&& p.max == s.last()
            &&& has_rank(s, p.p50, 500)
            &&& has_rank(s, p.p90, 900)
            &&& has_rank(s, p.p99, 990)
            &&& has_rank(s, p.p999, 999)
        }),
{
    lemma_ranked(s, 500);
    lemma_ranked(s, 900);
    lemma_ranked(s, 990);
    lemma_ranked(s, 999);
}

proof fn lemma_ranked(s: Seq<u64>, mille: int)
    requires
        s.len() > 0,
        mille == 500 || mille == 900 || mille == 990 || mille == 999,
    ensures
        has_rank(s, s[percentile::rank_place(s.len() as int, mille)], mille),
{
    let n = s.len() as int;
    let k = percentile::rank_place(n, mille);
    percentile::lemma_rank_place(n, mille);
    assert(s[k] == s[k]);
}

/// A quotient rounded up is the least number that reaches the dividend.
pub proof fn lemma_div_up(a: int, b: int)
    requires
        a >= 0,
        b > 0,
    ensures
        pacing::div_up(a, b) * b >= a,
        (pacing::div_up(a, b) - 1) * b < a,
{
    let x = a + b - 1;
    vstd::arithmetic::div_mod::lemma_fundamental_div_mod(x, b);
    vstd::arithmetic::div_mod::lemma_mod_bound(x, b);
    let q = x / b;
    let r = x % b;
    assert(q * b >= a && (q - 1) * b < a) by (nonlinear_arith)
        requires
            x == b * q + r,
            0 <= r < b,
            x == a + b - 1,
    ;
}

/// Of `total` messages every `stride`-th is kept: the stride is the least
/// that keeps at most `cap` of them. Without a cap one message is kept, and
/// of no messages the stride is 1.
pub proof fn lemma_stride(total: u64, cap: u64)
    ensures
        ({
            let s = pacing::stride_of(total, cap);
            &&& s >= 1
            &&& cap == 0 && total > 0 ==> s == total
            &&& total == 0 ==> s == 1
            &&& cap > 0 && total > 0 ==> s * cap >= total && (s - 1) * cap < total
        }),
{
    if cap > 0 && total > 0 {
        lemma_div_up(total as int, cap as int);
        let s = pacing::stride_of(total, cap);
        assert(s >= 1) by (nonlinear_arith)
            requires
                s * cap >= total,
                total > 0,
                cap > 0,
        ;
    }
}

/// Message `i` of a rate goes out `i / rate` seconds behind the start, to the
/// nanosecond below, as far as there are instants.
pub proof fn lemma_pace(start: u64, i: u64, rate: u64)
    requires
        rate > 0,
    ensures
        ({
            let t = pacing::pace_target(start, i, rate);
            &&& t >= start
            &&& t < u64::MAX ==> (t - start) * rate <= i * 1_000_000_000 < (t - start + 1) * rate
            &&& t == u64::MAX ==> i * 1_000_000_000 >= (u64::MAX - start) * rate
        }),
        pacing::pace_target(start, i, 0) == pacing::pace_target(start, i, 1),
{
    let x = i * 1_000_000_000;
    let r = rate as int;
    vstd::arithmetic::div_mod::lemma_fundamental_div_mod(x, r);
    vstd::arithmetic::div_mod::lemma_mod_bound(x, r);
    let q = x / r;
    let m = x % r;
    assert(q * r <= x < (q + 1) * r) by (nonlinear_arith)
        requires
            x == r * q + m,
            0 <= m < r,
    ;
    assert(q >= 0) by (nonlinear_arith)
        requires
            x < (q + 1) * r,
            x >= 0,
            r > 0,
    ;
    let d = u64::MAX - start;
    assert(q >= d ==> x >= d * r) by (nonlinear_arith)
        requires
            q * r <= x,
            r > 0,
    ;
}

/// A generated event comes 50 to 450 microseconds behind the one before it,
/// at a price at most 1000 units away, with the next sequence number; one in
/// ten random numbers makes a trade, five a bid and four an ask.
pub proof fn lemma_load(g: GenState)
    requires
        g.room(1),
    ensures
        ({
            let h = g.next();
            let e = h.event();
            let x = loadgen::mixed(h.state);
            &&& 50_000 <= h.t_ns - g.t_ns < 450_000
            &&& -1000 <= h.price - g.price <= 1000
            &&& h.seq == g.seq + 1
            &&& e.recv_mono_ns == h.t_ns
            &&& e.price == h.price
            &&& e.venue_seq == h.seq && e.aux == h.seq
            &&& 0 <= e.qty < 500_000_000
            &&& 1 <= e.instrument <= 15
            &&& 1 <= e.venue <= 3
            &&& e.recv_wall_ns - e.recv_mono_ns == 1_700_000_000_000_000_000
            &&& e.recv_wall_ns - e.venue_ts_ns == 3_000_000
            &&& e.flags == 0 && e.rsvd == 0
            &&& (e.kind == 3 <==> x % 10 == 0)
            &&& (e.kind == 1 <==> 1 <= x % 10 <= 5)
            &&& (e.kind == 2 <==> 6 <= x % 10 <= 9)
        }),
{
    let x = loadgen::mixed(g.next().state);
    let p = (x >> 8) % 2001;
    let q = (x >> 16) % 500_000_000;
    assert(0 <= p <= 2000);
    assert(0 <= q < 500_000_000);
}

/// Every event of a run of load follows the one before it.
pub proof fn lemma_load_stepwise(g: GenState, n: nat)
    ensures
        g.after(0) == g,
        g.after(n + 1) == g.after(n).next(),
{
}

/// An event fits a SQL row exactly where each of its unsigned values fits its
/// signed column, and then the row holds its values.
pub proof fn lemma_row(e: Event)
    ensures
        compare::row_of(e) is Ok <==> {
            &&& e.recv_mono_ns <= 0x7fff_ffff_ffff_ffff
            &&& e.recv_wall_ns <= 0x7fff_ffff_ffff_ffff
            &&& e.venue_ts_ns <= 0x7fff_ffff_ffff_ffff
            &&& e.venue_seq <= 0x7fff_ffff_ffff_ffff
            &&& e.aux <= 0x7fff_ffff_ffff_ffff
            &&& e.instrument <= 0x7fff_ffff
            &&& e.kind <= 127
        },
        compare::row_of(e) matches Ok(r) ==> {
            &&& r.0 == e.recv_mono_ns && r.1 == e.recv_wall_ns && r.2 == e.venue_ts_ns
            &&& r.3 == e.venue_seq && r.4 == e.price && r.5 == e.qty && r.6 == e.aux
            &&& r.7 == e.instrument && r.8 == e.kind && r.9 == e.venue && r.10 == e.flags
        },
{
}

/// A row is an event exactly where none of its columns that hold unsigned
/// values is negative and its bytes are bytes; then it is that event's row.
pub proof fn lemma_event_of_row(r: compare::SqlEventRow)
    ensures
        compare::event_of_row(r) is Ok <==> r.0 >= 0 && r.1 >= 0 && r.2 >= 0 && r.3 >= 0 && r.6
            >= 0 && r.7 >= 0 && r.8 >= 0 && 0 <= r.9 <= 255 && 0 <= r.10 <= 255,
        compare::event_of_row(r) matches Ok(e) ==> e.rsvd == 0 && compare::row_of(e) == Ok::<
            compare::SqlEventRow,
            compare::RowError,
        >(r),
{
}

/// A value fits a BIGINT exactly up to `i64::MAX`.
pub proof fn lemma_bigint(v: u64, field: &'static str)
    ensures
        compare::bigint(v, field) is Ok <==> v <= 0x7fff_ffff_ffff_ffff,
        compare::bigint(v, field) matches Ok(x) ==> x == v,
{
}

/// The events of one instrument.
pub open spec fn count_of(evs: Seq<Event>, instrument: u32) -> int
    decreases evs.len(),
{
    if evs.len() == 0 {
        0
    } else {
        count_of(evs.drop_last(), instrument) + (if evs.last().instrument == instrument {
            1int
        } else {
            0
        })
    }
}

/// The aggregate of an instrument: how many events it has, a price that none
/// of theirs is below, one that none is above and a time that none is behind,
/// each of them one of theirs where there is any.
pub proof fn lemma_aggregate(evs: Seq<Event>, id: u32)
    requires
        evs.len() <= u64::MAX,
    ensures
        ({
            let a = compare::aggregate(evs, id);
            &&& a.instrument == id
            &&& a.count == count_of(evs, id)
            &&& 0 <= count_of(evs, id) <= evs.len()
            &&& forall|i: int|
                0 <= i < evs.len() && (#[trigger] evs[i]).instrument == id ==> a.min_price
                    <= evs[i].price <= a.max_price && evs[i].recv_mono_ns <= a.max_mono
            &&& compare::occurs(evs, id) ==> {
                &&& exists|i: int|
                    0 <= i < evs.len() && (#[trigger] evs[i]).instrument == id && evs[i].price
                        == a.min_price
                &&& exists|i: int|
                    0 <= i < evs.len() && (#[trigger] evs[i]).instrument == id && evs[i].price
                        == a.max_price
                &&& exists|i: int|
                    0 <= i < evs.len() && (#[trigger] evs[i]).instrument == id
                        && evs[i].recv_mono_ns == a.max_mono
            }
            &&& !compare::occurs(evs, id) ==> a == ScanRow::none(id)
        }),
    decreases evs.len(),
{
    if evs.len() > 0 {
        let t = evs.drop_last();
        let n = t.len() as int;
        lemma_aggregate(t, id);
        let a = compare::aggregate(evs, id);
        let b = compare::aggregate(t, id);
        assert forall|i: int| 0 <= i < n implies evs[i] == #[trigger] t[i] by {}
        if compare::occurs(t, id) {
            let i = choose|i: int| 0 <= i < t.len() && (#[trigger] t[i]).instrument == id;
            assert(evs[i].instrument == id);
            let x = choose|i: int|
                0 <= i < t.len() && (#[trigger] t[i]).instrument == id && t[i].price == b.min_price;
            let y = choose|i: int|
                0 <= i < t.len() && (#[trigger] t[i]).instrument == id && t[i].price == b.max_price;
            let z = choose|i: int|
                0 <= i < t.len() && (#[trigger] t[i]).instrument == id && t[i].recv_mono_ns
                    == b.max_mono;
            assert(evs[x].price == b.min_price);
            assert(evs[y].price == b.max_price);
            assert(evs[z].recv_mono_ns == b.max_mono);
        }
        assert(evs[n] == evs.last());
        if evs.last().instrument == id {
            assert(compare::occurs(evs, id));
            assert(a == b.with(evs.last()));
            assert(a.min_price == evs[n].price || compare::occurs(t, id));
            assert(a.max_price == evs[n].price || compare::occurs(t, id));
            assert(a.max_mono == evs[n].recv_mono_ns || compare::occurs(t, id));
        } else {
            assert(a == b);
            if compare::occurs(evs, id) {
                let i = choose|i: int| 0 <= i < evs.len() && (#[trigger] evs[i]).instrument == id;
                assert(t[i].instrument == id);
            }
        }
        assert forall|i: int|
            0 <= i < evs.len() && (#[trigger] evs[i]).instrument == id implies a.min_price
            <= evs[i].price <= a.max_price && evs[i].recv_mono_ns <= a.max_mono by {
            if i < n {
                assert(t[i].instrument == id);
            }
        }
    }
}

/// Each event of an instrument adds its quantity to the sum, as long as the
/// sum fits, and an event of another changes nothing.
pub proof fn lemma_aggregate_sum(evs: Seq<Event>, e: Event, id: u32)
    ensures
        compare::aggregate(Seq::empty(), id).sum_qty == 0,
        e.instrument != id ==> compare::aggregate(evs.push(e), id) == compare::aggregate(evs, id),
        e.instrument == id ==> ({
            let s = compare::aggregate(evs, id).sum_qty + e.qty;
            i128::MIN <= s <= i128::MAX ==> compare::aggregate(evs.push(e), id).sum_qty == s
        }),
{
    assert(evs.push(e).drop_last() =~= evs);
}

/// A window holds the events of an instrument from one time to another, both
/// ends within.
pub proof fn lemma_window(e: Event, id: u32, from: u64, to: u64)
    ensures
        compare::in_window(e, id, from, to) <==> e.instrument == id && !(e.recv_mono_ns < from)
            && !(to < e.recv_mono_ns),
{
}

/// Without an anchor there is no top; with one it is the best of each side.
pub proof fn lemma_top_of(anchor: Option<u64>, b: BookState)
    ensures
        ({
            let t = compare::top_of(anchor, b);
            &&& t.anchor_mono == anchor
            &&& anchor is None ==> t.best_bid is None && t.best_ask is None
            &&& anchor is Some ==> (t.best_bid is Some <==> b.bids.len() > 0) && (
            t.best_ask is Some <==> b.asks.len() > 0)
            &&& anchor is Some && b.bids.len() > 0 ==> t.best_bid == Some(b.bids[0])
            &&& anchor is Some && b.asks.len() > 0 ==> t.best_ask == Some(b.asks[0])
        }),
{
}

/// Kraken's events go to books of the given depth, all others to books
/// without one; either set takes the step that it would take on its own.
pub proof fn lemma_routed(r: lob::Routed, depth: Option<usize>, ev: Event)
    ensures
        ({
            let (s, a) = r.step(depth, ev);
            &&& ev.venue == 3 ==> s.other == r.other && (s.kraken, a) == bookset::set_step(
                r.kraken,
                depth,
                ev,
            )
            &&& ev.venue != 3 ==> s.kraken == r.kraken && (s.other, a) == bookset::set_step(
                r.other,
                None,
                ev,
            )
        }),
{
}

/// The time between two stamps is never negative, and it is their difference
/// where the second is not the earlier.
pub proof fn lemma_since(b: u64, a: u64)
    ensures
        a <= b ==> live::since(b, a) + a == b,
        a > b ==> live::since(b, a) == 0,
{
}

/// The first stamp of a frame is that of its first event that has one.
pub proof fn lemma_first_stamp(evs: Seq<Event>, k: int)
    requires
        0 <= k <= evs.len(),
    ensures
        match live::stamp_from(evs, k) {
            Some(ts) => ts > 0 && exists|i: int|
                k <= i < evs.len() && (#[trigger] evs[i]).venue_ts_ns == ts && forall|j: int|
                    k <= j < i ==> (#[trigger] evs[j]).venue_ts_ns == 0,
            None => forall|j: int| k <= j < evs.len() ==> (#[trigger] evs[j]).venue_ts_ns == 0,
        },
    decreases evs.len() - k,
{
    if k < evs.len() && evs[k].venue_ts_ns == 0 {
        lemma_first_stamp(evs, k + 1);
        if let Some(ts) = live::stamp_from(evs, k + 1) {
            let i = choose|i: int|
                k + 1 <= i < evs.len() && (#[trigger] evs[i]).venue_ts_ns == ts && forall|j: int|
                    k + 1 <= j < i ==> (#[trigger] evs[j]).venue_ts_ns == 0;
            assert(evs[i].venue_ts_ns == ts);
        }
    } else if k < evs.len() {
        assert(evs[k].venue_ts_ns > 0);
    }
}

/// The entry `m` is the one of `venue` for the base `base` in dollars.
pub open spec fn is_pair(m: Meta, venue: Venue, base: Seq<char>) -> bool {
    m.venue == venue && m.canonical == base + "-USD"@
}

/// The entry `i` is the first from `k` on for the base at the venue.
pub open spec fn first_pair(t: Seq<Meta>, venue: Venue, base: Seq<char>, k: int, i: int) -> bool {
    &&& k <= i < t.len()
    &&& is_pair(t[i], venue, base)
    &&& forall|j: int| k <= j < i ==> !is_pair(#[trigger] t[j], venue, base)
}

/// The instrument that a base names at a venue is the first of that venue
/// whose canonical name is the base in dollars.
pub proof fn lemma_instrument(t: Seq<Meta>, venue: Venue, base: Seq<char>, k: int)
    requires
        0 <= k <= t.len(),
    ensures
        match live::instrument_from(t, venue, base, k) {
            Some(x) => exists|i: int| #[trigger]
                first_pair(t, venue, base, k, i) && x == (t[i].symbol, t[i].id),
            None => forall|j: int|
                k <= j < t.len() ==> !is_pair(#[trigger] t[j], venue, base),
        },
    decreases t.len() - k,
{
    if k < t.len() {
        if is_pair(t[k], venue, base) {
            assert(first_pair(t, venue, base, k, k));
        } else {
            lemma_instrument(t, venue, base, k + 1);
            if let Some(x) = live::instrument_from(t, venue, base, k + 1) {
                let i = choose|i: int| #[trigger]
                    first_pair(t, venue, base, k + 1, i) && x == (t[i].symbol, t[i].id);
                assert(first_pair(t, venue, base, k, i));
            }
        }
    }
}

/// An event that is dequeued adds its age, and counts as steady where its
/// snapshot flag is not set.
pub proof fn lemma_dequeued(m: live::Measured, e: Event, t3: u64)
    ensures
        ({
            let n = m.dequeued(e, t3);
            let age: int = if t3 >= e.recv_mono_ns {
                t3 - e.recv_mono_ns
            } else {
                0
            };
            &&& n.total_added.len() == m.total_added.len() + 1
            &&& n.total_added.last() == age
            &&& live::is_steady(e) ==> n.total_steady == m.total_steady.push(age as u64)
            &&& !live::is_steady(e) ==> n.total_steady == m.total_steady
            &&& n.deliver == m.deliver && n.deliver_steady == m.deliver_steady
            &&& n.stamps == m.stamps && n.unmatched == m.unmatched && n.lagged_lost
                == m.lagged_lost
        }),
        live::is_steady(e) <==> (e.flags / 2) % 2 == 0,
{
    let f: u8 = e.flags;
    assert((f & 2 == 0) == ((f / 2) % 2 == 0)) by (bit_vector);
}

/// An event whose publish stamp is known adds the time since that stamp; one
/// whose stamp is not known is counted as unmatched and adds none.
pub proof fn lemma_settled(m: live::Measured, e: Event, t3: u64)
    requires
        m.unmatched < u64::MAX,
    ensures
        ({
            let n = m.settled(e, t3);
            let known = m.stamps.contains_key(e.recv_mono_ns);
            let sent = m.stamps[e.recv_mono_ns];
            let d: int = if t3 >= sent {
                t3 - sent
            } else {
                0
            };
            &&& known ==> n.deliver == m.deliver.push(d as u64) && n.unmatched == m.unmatched
            &&& known && live::is_steady(e) ==> n.deliver_steady == m.deliver_steady.push(d as u64)
            &&& known && !live::is_steady(e) ==> n.deliver_steady == m.deliver_steady
            &&& !known ==> n.deliver == m.deliver && n.deliver_steady == m.deliver_steady
                && n.unmatched == m.unmatched + 1
            &&& n.total_added == m.total_added && n.total_steady == m.total_steady && n.stamps
                == m.stamps
        }),
{
}

/// What a parsed frame, published events and a pong add to the reading.
pub proof fn lemma_reading(
    r: live::Reading,
    evs: Seq<Event>,
    payload: Seq<u8>,
    ok: bool,
    wall: u64,
    t0: u64,
    t1: u64,
)
    requires
        r.frames < u64::MAX,
        r.events + evs.len() <= u64::MAX,
        r.clamped < u64::MAX,
        t0 <= t1,
    ensures
        ok ==> r.parsed(ok, t0, t1).frames == r.frames + 1 && r.parsed(ok, t0, t1).parse
            == r.parse.push((t1 - t0) as u64),
        !ok ==> r.parsed(ok, t0, t1) == r,
        evs.len() == 0 ==> r.published(evs, wall, t0, t1) == r,
        evs.len() > 0 ==> ({
            let p = r.published(evs, wall, t0, t1);
            &&& p.events == r.events + evs.len()
            &&& p.publish == r.publish.push((t1 - t0) as u64)
            &&& live::stamp_from(evs, 0) is None ==> p.venue_path == r.venue_path && p.clamped
                == r.clamped
            &&& live::stamp_from(evs, 0) matches Some(ts) ==> {
                &&& ts <= wall ==> p.venue_path == r.venue_path.push((wall - ts) as u64)
                    && p.clamped == r.clamped
                &&& ts > wall ==> p.venue_path == r.venue_path.push(0) && p.clamped == r.clamped
                    + 1
            }
        }),
        e2e::rtt_of(payload, t1) matches Some(x) ==> r.ponged(payload, t1).rtt == r.rtt.push(x),
        e2e::rtt_of(payload, t1) is None ==> r.ponged(payload, t1) == r,
{
}

/// What a frame and a REST snapshot add to the counts of a pass.
pub proof fn lemma_pass_counts(
    p: feed::PassResult,
    len: int,
    n: int,
    fell_back: bool,
    failed: bool,
)
    requires
        0 <= len,
        0 <= n,
        p.ws_frames < u64::MAX,
        p.rest_snapshots < u64::MAX,
        p.ws_payload_bytes + len <= u64::MAX,
        p.events + n <= u64::MAX,
        p.fallbacks < u64::MAX,
        p.parse_errors < u64::MAX,
    ensures
        ({
            let q = p.frame(len, n, fell_back, failed);
            let r = p.snapshot(n, failed);
            let f: int = if failed {
                1
            } else {
                0
            };
            &&& q.ws_frames == p.ws_frames + 1 && q.ws_payload_bytes == p.ws_payload_bytes + len
            &&& q.events == p.events + n && r.events == p.events + n
            &&& q.fallbacks == p.fallbacks + (if fell_back {
                1int
            } else {
                0
            })
            &&& q.parse_errors == p.parse_errors + f && r.parse_errors == p.parse_errors + f
            &&& q.rest_snapshots == p.rest_snapshots && r.rest_snapshots == p.rest_snapshots + 1
            &&& r.ws_frames == p.ws_frames && r.ws_payload_bytes == p.ws_payload_bytes
                && r.fallbacks == p.fallbacks
        }),
{
}

/// A pong shows a round trip exactly where it holds eight bytes: the time
/// since the stamp that they are, little-endian.
pub proof fn lemma_round_trip(payload: Seq<u8>, sent: u64, now: u64)
    ensures
        payload.len() != 8 ==> e2e::rtt_of(payload, now) is None,
        payload == spec_u64_to_le_bytes(sent) ==> e2e::rtt_of(payload, now) == Some(
            live::since(now, sent),
        ),
{
    lemma_auto_spec_u64_to_from_le_bytes();
}

/// A record is kept exactly where its venue has room and it is a frame or a
/// REST snapshot; reading stops exactly where no venue has room.
pub proof fn lemma_fate(c: feed::Loader, venue: Venue, rk: u8)
    ensures
        ({
            let full = c.frames(venue) >= c.cap;
            let all = c.coinbase >= c.cap && c.binance >= c.cap && c.kraken >= c.cap;
            &&& (c.verdict(venue, rk) is Stop <==> all)
            &&& (c.verdict(venue, rk) is Keep <==> !full && 1 <= rk <= 3)
            &&& (c.verdict(venue, rk) is Skip <==> !all && (full || !(1 <= rk <= 3)))
        }),
{
}

/// The last `n` hexadecimal digits of a number: the last of them is its rest
/// by 16, and the others are those of the quotient.
pub proof fn lemma_hex(x: int, n: nat)
    requires
        x >= 0,
    ensures
        lob::hex(x, n).len() == n,
        n > 0 ==> {
            let c = lob::hex(x, n).last() as int;
            let d = x % 16;
            &&& d < 10 ==> c == 0x30 + d
            &&& d >= 10 ==> c == 0x61 + d - 10
            &&& lob::hex(x, n).drop_last() == lob::hex(x / 16, (n - 1) as nat)
        },
    decreases n,
{
    if n > 0 {
        lemma_hex(x / 16, (n - 1) as nat);
        assert(lob::hex(x, n).drop_last() =~= lob::hex(x / 16, (n - 1) as nat));
    }
}

} // verus!
