//! Laws of the order book.
use crate::book;
use crate::book::{Apply, BookState, SyncState};
use crate::event;
use crate::event::{Event, EventKind, Side};
use vstd::bytes::*;
use vstd::prelude::*;

verus! {

/// A cut to `n` levels keeps a side of at most `n` levels whole, leaves
/// exactly `n` of a longer one, and drops from its end only.
pub proof fn lemma_cut_to_depth(s: Seq<(i64, i64)>, n: usize)
    ensures
        book::capped(s, None) == s,
        s.len() <= n ==> book::capped(s, Some(n)) == s,
        s.len() > n ==> book::capped(s, Some(n)).len() == n,
        forall|i: int|
            0 <= i < book::capped(s, Some(n)).len() ==> #[trigger] book::capped(s, Some(n))[i]
                == s[i],
{
}

/// The level `l` is one of `s`.
pub open spec fn holds(s: Seq<(i64, i64)>, l: (i64, i64)) -> bool {
    exists|i: int| 0 <= i < s.len() && #[trigger] s[i] == l
}

/// The side `s` has a level at `price`.
pub open spec fn holds_price(s: Seq<(i64, i64)>, price: i64) -> bool {
    exists|i: int| 0 <= i < s.len() && (#[trigger] s[i]).0 == price
}

/// A valid side has its best price first and no price twice: bids fall and
/// asks rise.
pub proof fn lemma_sides_are_sorted(b: BookState, i: int, j: int)
    requires
        b.valid(),
        0 <= i < j,
    ensures
        j < b.bids.len() ==> b.bids[i].0 > b.bids[j].0,
        j < b.asks.len() ==> b.asks[i].0 < b.asks[j].0,
        b.cap matches Some(n) ==> b.bids.len() <= n && b.asks.len() <= n,
{
}

/// Setting a level of an uncut side: the level is there with its quantity,
/// or gone where that is 0, and every other level is kept.
pub proof fn lemma_level_set(side: Side, s: Seq<(i64, i64)>, price: i64, qty: i64)
    requires
        book::in_order(side, s),
    ensures
        ({
            let t = book::with_level(side, s, price, qty);
            &&& forall|l: (i64, i64)| #[trigger]
                holds(t, l) <==> (l.0 != price && holds(s, l)) || (qty != 0 && l == (price, qty))
            &&& t.len() == s.len() - (if holds_price(s, price) {
                1int
            } else {
                0
            }) + (if qty != 0 {
                1int
            } else {
                0
            })
        }),
{
    let t = book::with_level(side, s, price, qty);
    let k = book::rank(side, s, price);
    book::lemma_rank(side, s, price);
    if holds_price(s, price) {
        let i = choose|i: int| 0 <= i < s.len() && (#[trigger] s[i]).0 == price;
        book::lemma_rank_is(side, s, price, i);
        assert(book::has_level(side, s, price));
    }
    if book::has_level(side, s, price) {
        assert(s[k].0 == price);
        assert(holds_price(s, price));
    }
    assert forall|l: (i64, i64)| #[trigger]
        holds(t, l) <==> (l.0 != price && holds(s, l)) || (qty != 0 && l == (price, qty)) by {
        if holds(t, l) {
            let i = choose|i: int| 0 <= i < t.len() && #[trigger] t[i] == l;
            if book::has_level(side, s, price) && qty == 0 {
                let j = if i < k {
                    i
                } else {
                    i + 1
                };
                assert(s[j] == l);
            } else if book::has_level(side, s, price) {
                assert(i != k ==> s[i] == l);
            } else if qty != 0 {
                assert(i < k ==> s[i] == l);
                assert(i > k ==> s[i - 1] == l);
            } else {
                assert(s[i] == l);
            }
        }
        if l.0 != price && holds(s, l) {
            let i = choose|i: int| 0 <= i < s.len() && #[trigger] s[i] == l;
            if book::has_level(side, s, price) && qty == 0 {
                let j = if i < k {
                    i
                } else {
                    i - 1
                };
                assert(t[j] == l);
            } else if book::has_level(side, s, price) {
                assert(t[i] == l);
            } else if qty != 0 {
                let j = if i < k {
                    i
                } else {
                    i + 1
                };
                assert(t[j] == l);
            } else {
                assert(t[i] == l);
            }
        }
        if qty != 0 && l == (price, qty) {
            assert(t[k] == l);
        }
    }
}

/// Setting a level of a book. With `m` levels on the side after the set,
/// a book of depth `n` keeps `min(n, m)` of them. What it keeps is either the
/// level that was set or one of the other levels, as it was; what it does
/// not keep is worse than all that it does. The rest of the book is as it
/// was.
pub proof fn lemma_set_keeps_best(b: BookState, side: Side, price: i64, qty: i64)
    requires
        b.valid(),
    ensures
        ({
            let c = b.set(side, price, qty);
            let (s, t) = match side {
                Side::Bid => (b.bids, c.bids),
                Side::Ask => (b.asks, c.asks),
            };
            let m = s.len() - (if holds_price(s, price) {
                1int
            } else {
                0
            }) + (if qty != 0 {
                1int
            } else {
                0
            });
            &&& t.len() == (match b.cap {
                Some(n) => if n < m {
                    n as int
                } else {
                    m
                },
                None => m,
            })
            &&& forall|l: (i64, i64)| #[trigger]
                holds(t, l) ==> (l.0 != price && holds(s, l)) || (qty != 0 && l == (price, qty))
            &&& forall|l: (i64, i64), i: int|
                #![trigger holds(s, l), t[i]]
                l.0 != price && holds(s, l) && !holds(t, l) && 0 <= i < t.len() ==> (match side {
                    Side::Bid => t[i].0 > l.0,
                    Side::Ask => t[i].0 < l.0,
                })
            &&& qty != 0 && !holds(t, (price, qty)) ==> forall|i: int|
                0 <= i < t.len() ==> (match side {
                    Side::Bid => (#[trigger] t[i]).0 > price,
                    Side::Ask => t[i].0 < price,
                })
            &&& forall|i: int, j: int|
                #![trigger t[i], t[j]]
                0 <= i < j < t.len() ==> (match side {
                    Side::Bid => t[i].0 > t[j].0,
                    Side::Ask => t[i].0 < t[j].0,
                })
            &&& c.sync == b.sync && c.dropped == b.dropped && c.cap == b.cap
            &&& match side {
                Side::Bid => c.asks == b.asks,
                Side::Ask => c.bids == b.bids,
            }
        }),
{
    let c = b.set(side, price, qty);
    let s = b.levels(side);
    let w = book::with_level(side, s, price, qty);
    let t = book::capped(w, b.cap);
    lemma_level_set(side, s, price, qty);
    book::lemma_with_level_in_order(side, s, price, qty);
    assert forall|l: (i64, i64)| #[trigger] holds(t, l) implies holds(w, l) by {
        let i = choose|i: int| 0 <= i < t.len() && #[trigger] t[i] == l;
        assert(w[i] == l);
    }
    assert forall|l: (i64, i64), i: int|
        #![trigger holds(w, l), t[i]]
        holds(w, l) && !holds(t, l) && 0 <= i < t.len() implies book::better(
        side,
        t[i].0,
        l.0,
    ) by {
        let j = choose|j: int| 0 <= j < w.len() && #[trigger] w[j] == l;
        assert(t[i] == w[i]);
        if j < t.len() {
            assert(t[j] == l);
        }
        assert(book::better(side, w[i].0, w[j].0));
    }
    assert forall|l: (i64, i64), i: int|
        #![trigger holds(s, l), t[i]]
        l.0 != price && holds(s, l) && !holds(t, l) && 0 <= i < t.len() implies (match side {
        Side::Bid => t[i].0 > l.0,
        Side::Ask => t[i].0 < l.0,
    }) by {
        assert(holds(w, l));
    }
    if qty != 0 && !holds(t, (price, qty)) {
        assert(holds(w, (price, qty)));
    }
    assert(c.levels(side) == t);
}

/// The best bid is the highest of the bids, the best ask the lowest of the
/// asks, and only an empty side has none.
pub proof fn lemma_top_is_best(b: BookState)
    requires
        b.valid(),
    ensures
        book::top(b.bids) is None <==> b.bids.len() == 0,
        book::top(b.asks) is None <==> b.asks.len() == 0,
        book::top(b.bids) matches Some(l) ==> holds(b.bids, l) && forall|i: int|
            0 <= i < b.bids.len() ==> (#[trigger] b.bids[i]).0 < l.0 || b.bids[i] == l,
        book::top(b.asks) matches Some(l) ==> holds(b.asks, l) && forall|i: int|
            0 <= i < b.asks.len() ==> (#[trigger] b.asks[i]).0 > l.0 || b.asks[i] == l,
{
    if b.bids.len() > 0 {
        assert(b.bids[0] == book::top(b.bids)->0);
        assert(holds(b.bids, b.bids[0]));
    }
    if b.asks.len() > 0 {
        assert(b.asks[0] == book::top(b.asks)->0);
        assert(holds(b.asks, b.asks[0]));
    }
}

/// The event `ev` is of the given kind.
pub open spec fn is_kind(ev: Event, kind: EventKind) -> bool {
    event::kind_of(ev.kind) == Ok::<EventKind, u8>(kind)
}

/// What a book reports of an event is what happened: which reports are made
/// in which state, and what each of them leaves of the book.
pub proof fn lemma_report_tells(b: BookState, ev: Event)
    requires
        b.dropped < u64::MAX,
    ensures
        ({
            let (c, r) = b.step(ev);
            let live = b.sync == SyncState::Synced;
            let filling = b.sync == SyncState::Filling;
            let bid = (live && is_kind(ev, EventKind::BidSet)) || (filling && is_kind(
                ev,
                EventKind::SnapBid,
            ));
            let ask = (live && is_kind(ev, EventKind::AskSet)) || (filling && is_kind(
                ev,
                EventKind::SnapAsk,
            ));
            let dropped = (!live && (is_kind(ev, EventKind::BidSet) || is_kind(
                ev,
                EventKind::AskSet,
            ))) || (!filling && (is_kind(ev, EventKind::SnapBid) || is_kind(
                ev,
                EventKind::SnapAsk,
            ) || is_kind(ev, EventKind::SnapEnd)));
            &&& (r is Mutated <==> bid || ask)
            &&& bid ==> c == b.set(Side::Bid, ev.price, ev.qty)
            &&& ask ==> c == b.set(Side::Ask, ev.price, ev.qty)
            &&& (r is DroppedUnsynced <==> dropped)
            &&& c.dropped == b.dropped + (if dropped {
                1int
            } else {
                0
            })
            &&& dropped ==> c.bids == b.bids && c.asks == b.asks && c.sync == b.sync
            &&& (r is SnapshotStarted <==> is_kind(ev, EventKind::SnapBegin))
            &&& r is SnapshotStarted ==> c.bids.len() == 0 && c.asks.len() == 0 && c.sync
                == SyncState::Filling
            &&& (r is SnapshotComplete <==> filling && is_kind(ev, EventKind::SnapEnd))
            &&& r is SnapshotComplete ==> c.bids == b.bids && c.asks == b.asks && c.sync
                == SyncState::Synced
            &&& (r is Cleared <==> is_kind(ev, EventKind::Clear))
            &&& r is Cleared ==> c.bids.len() == 0 && c.asks.len() == 0 && c.sync
                == SyncState::Unsynced
            &&& (r is GapMarked <==> is_kind(ev, EventKind::Gap))
            &&& r is GapMarked ==> c.bids == b.bids && c.asks == b.asks && c.sync
                == SyncState::Unsynced
            &&& (r is ChecksumToVerify <==> is_kind(ev, EventKind::Checksum))
            &&& r is ChecksumToVerify || r is NotBook ==> c == b
            &&& c.cap == b.cap
        }),
{
}

/// A checksum that a book reports is the lower half of the event's `aux`.
pub proof fn lemma_checksum_is_low_half(b: BookState, ev: Event)
    ensures
        b.step(ev).1 matches Apply::SnapshotComplete { checksum } ==> checksum == ev.aux
            % 0x1_0000_0000,
        b.step(ev).1 matches Apply::ChecksumToVerify { crc } ==> crc == ev.aux % 0x1_0000_0000,
{
    let x: u64 = ev.aux;
    assert(x as u32 == x % 0x1_0000_0000) by (bit_vector);
}

/// A book reports a change of its top exactly where the best bid or the best
/// ask, price or quantity, is another one than before.
pub proof fn lemma_top_changed(b: BookState, ev: Event)
    ensures
        ({
            let (c, r) = b.step(ev);
            r matches Apply::Mutated { top_changed } ==> (top_changed <==> {
                ||| (b.bids.len() == 0) != (c.bids.len() == 0)
                ||| (b.asks.len() == 0) != (c.asks.len() == 0)
                ||| b.bids.len() > 0 && c.bids.len() > 0 && b.bids[0] != c.bids[0]
                ||| b.asks.len() > 0 && c.asks.len() > 0 && b.asks[0] != c.asks[0]
            })
        }),
{
}

/// A book starts empty, unsynced and with nothing dropped; no run of events
/// without a `SnapEnd` syncs it.
pub proof fn lemma_only_a_snapshot_syncs(cap: Option<usize>, evs: Seq<Event>)
    requires
        forall|i: int| 0 <= i < evs.len() ==> !is_kind(#[trigger] evs[i], EventKind::SnapEnd),
    ensures
        BookState::fresh(cap).bids.len() == 0,
        BookState::fresh(cap).asks.len() == 0,
        BookState::fresh(cap).dropped == 0,
        BookState::fresh(cap).cap == cap,
        BookState::fresh(cap).run(evs).sync != SyncState::Synced,
    decreases evs.len(),
{
    if evs.len() > 0 {
        lemma_only_a_snapshot_syncs(cap, evs.drop_last());
    }
}

/// The empty run leaves a book as it is, and a run applies its events one
/// behind the other.
pub proof fn lemma_run_is_stepwise(b: BookState, evs: Seq<Event>, ev: Event)
    ensures
        b.run(Seq::empty()) == b,
        b.run(evs.push(ev)) == b.run(evs).step(ev).0,
{
    assert(evs.push(ev).drop_last() =~= evs);
}

/// The bytes of a run of levels: sixteen for each level, its price and then
/// its quantity, little-endian.
pub proof fn lemma_level_bytes(s: Seq<(i64, i64)>, i: int)
    requires
        0 <= i < s.len(),
    ensures
        book::levels_bytes(s).len() == 16 * s.len(),
        spec_u64_from_le_bytes(book::levels_bytes(s).subrange(16 * i, 16 * i + 8)) == s[i].0 as u64,
        spec_u64_from_le_bytes(book::levels_bytes(s).subrange(16 * i + 8, 16 * i + 16))
            == s[i].1 as u64,
    decreases s.len(),
{
    lemma_auto_spec_u64_to_from_le_bytes();
    let t = s.drop_last();
    let b = book::levels_bytes(s);
    if t.len() == 0 {
        assert(book::levels_bytes(t).len() == 0);
    } else {
        lemma_level_bytes(t, 0);
    }
    let n = 16 * t.len() as int;
    assert(book::levels_bytes(t).len() == n);
    if i == t.len() {
        assert(b.subrange(n, n + 8) =~= spec_u64_to_le_bytes(s[i].0 as u64));
        assert(b.subrange(n + 8, n + 16) =~= spec_u64_to_le_bytes(s[i].1 as u64));
    } else {
        lemma_level_bytes(t, i);
        assert(b.subrange(16 * i, 16 * i + 8) =~= book::levels_bytes(t).subrange(
            16 * i,
            16 * i + 8,
        ));
        assert(b.subrange(16 * i + 8, 16 * i + 16) =~= book::levels_bytes(t).subrange(
            16 * i + 8,
            16 * i + 16,
        ));
    }
}

/// How long the bytes of a run of levels are.
proof fn lemma_level_bytes_len(s: Seq<(i64, i64)>)
    ensures
        book::levels_bytes(s).len() == 16 * s.len(),
{
    if s.len() > 0 {
        lemma_level_bytes(s, 0);
    }
}

/// The bytes of a run of levels determine the levels.
pub proof fn lemma_level_bytes_injective(s: Seq<(i64, i64)>, t: Seq<(i64, i64)>)
    requires
        book::levels_bytes(s) == book::levels_bytes(t),
    ensures
        s == t,
{
    lemma_level_bytes_len(s);
    lemma_level_bytes_len(t);
    assert forall|i: int| 0 <= i < s.len() implies #[trigger] s[i] == t[i] by {
        lemma_level_bytes(s, i);
        lemma_level_bytes(t, i);
        let (p, q) = s[i];
        let (x, y) = t[i];
        assert(p as u64 == x as u64 ==> p == x) by (bit_vector);
        assert(q as u64 == y as u64 ==> q == y) by (bit_vector);
    }
    assert(s =~= t);
}

/// The canonical bytes of a book: the marker `A`, sixteen bytes for each ask,
/// the marker `B`, sixteen for each bid, and 1 or 0 for synced or not. The
/// digest is FNV-1a over these bytes.
pub proof fn lemma_digest_covers_state(b: BookState)
    ensures
        b.digest() == book::fnv(
            0xcbf2_9ce4_8422_2325,
            book::state_bytes(b.asks, b.bids, b.sync == SyncState::Synced),
        ),
        ({
            let s = book::state_bytes(b.asks, b.bids, b.sync == SyncState::Synced);
            let n = 16 * b.asks.len() as int;
            let m = 16 * b.bids.len() as int;
            &&& s.len() == n + m + 3
            &&& s[0] == 0x41
            &&& s.subrange(1, 1 + n) == book::levels_bytes(b.asks)
            &&& s[1 + n] == 0x42
            &&& s.subrange(2 + n, 2 + n + m) == book::levels_bytes(b.bids)
            &&& s[2 + n + m] == (if b.sync == SyncState::Synced {
                1u8
            } else {
                0u8
            })
        }),
{
    lemma_level_bytes_len(b.asks);
    lemma_level_bytes_len(b.bids);
    let synced = b.sync == SyncState::Synced;
    let s = book::state_bytes(b.asks, b.bids, synced);
    let n = 16 * b.asks.len() as int;
    let m = 16 * b.bids.len() as int;
    assert(s.subrange(1, 1 + n) =~= book::levels_bytes(b.asks));
    assert(s.subrange(2 + n, 2 + n + m) =~= book::levels_bytes(b.bids));
    assert(s =~= seq![0x41u8] + book::levels_bytes(b.asks) + seq![0x42u8] + book::levels_bytes(
        b.bids,
    ) + seq![
        if synced {
            1u8
        } else {
            0u8
        },
    ]);
}

/// The quantity `q` has the marker `B` as its most significant byte.
pub open spec fn ends_like_marker(q: i64) -> bool {
    0x4200_0000_0000_0000 <= q < 0x4300_0000_0000_0000
}

/// A book with fewer asks has another string than a book with more, unless a
/// bid's quantity mimics the marker between the sides.
proof fn lemma_marker_parts(
    asks: Seq<(i64, i64)>,
    bids: Seq<(i64, i64)>,
    synced: bool,
    asks2: Seq<(i64, i64)>,
    bids2: Seq<(i64, i64)>,
    synced2: bool,
)
    requires
        book::state_bytes(asks, bids, synced) == book::state_bytes(asks2, bids2, synced2),
        forall|i: int| 0 <= i < bids.len() ==> !ends_like_marker((#[trigger] bids[i]).1),
    ensures
        asks.len() >= asks2.len(),
{
    let a = book::state_bytes(asks, bids, synced);
    lemma_level_bytes_len(asks);
    lemma_level_bytes_len(bids);
    lemma_level_bytes_len(asks2);
    lemma_level_bytes_len(bids2);
    if asks.len() < asks2.len() {
        let k = asks2.len() - asks.len();
        assert(a.len() == 16 * asks.len() + 16 * bids.len() + 3);
        assert(a.len() == 16 * asks2.len() + 16 * bids2.len() + 3);
        assert(k <= bids.len());
        assert(a[1 + 16 * asks2.len() as int] == 0x42);
        let q = bids[k - 1].1;
        lemma_level_bytes(bids, k - 1);
        lemma_auto_spec_u64_to_from_le_bytes();
        let w = book::levels_bytes(bids);
        assert(w[16 * k - 1] == 0x42);
        let c = w.subrange(16 * (k - 1) + 8, 16 * (k - 1) + 16);
        assert(c[7] == 0x42);
        assert(spec_u64_to_le_bytes(spec_u64_from_le_bytes(c)) == c);
        spec_u64_to_le_bytes_to_open(q as u64);
        assert(spec_u64_to_le_bytes_open(q as u64)[7] == ((q as u64 >> 56) & 0xff) as u8);
        assert(((q as u64 >> 56) & 0xff) as u8 == 0x42u8 ==> 0x4200_0000_0000_0000 <= q
            < 0x4300_0000_0000_0000) by (bit_vector);
        assert(!ends_like_marker(bids[k - 1].1));
    }
}

/// The canonical bytes determine the book: two books with the same bytes
/// have the same asks, the same bids and the same sync flag. Books with
/// different numbers of asks are told apart by the marker between the sides,
/// which no bid's quantity may mimic.
pub proof fn lemma_state_bytes_injective(
    asks: Seq<(i64, i64)>,
    bids: Seq<(i64, i64)>,
    synced: bool,
    asks2: Seq<(i64, i64)>,
    bids2: Seq<(i64, i64)>,
    synced2: bool,
)
    requires
        book::state_bytes(asks, bids, synced) == book::state_bytes(asks2, bids2, synced2),
        asks.len() == asks2.len() || {
            &&& forall|i: int| 0 <= i < bids.len() ==> !ends_like_marker((#[trigger] bids[i]).1)
            &&& forall|i: int| 0 <= i < bids2.len() ==> !ends_like_marker((#[trigger] bids2[i]).1)
        },
    ensures
        asks == asks2,
        bids == bids2,
        synced == synced2,
{
    let a = book::state_bytes(asks, bids, synced);
    lemma_level_bytes_len(asks);
    lemma_level_bytes_len(bids);
    lemma_level_bytes_len(asks2);
    lemma_level_bytes_len(bids2);
    if asks.len() != asks2.len() {
        lemma_marker_parts(asks, bids, synced, asks2, bids2, synced2);
        lemma_marker_parts(asks2, bids2, synced2, asks, bids, synced);
    }
    let n = 16 * asks.len() as int;
    let m = 16 * bids.len() as int;
    assert(a.len() == n + m + 3);
    assert(a.len() == n + 16 * bids2.len() + 3);
    assert(a.subrange(1, 1 + n) =~= book::levels_bytes(asks));
    assert(a.subrange(1, 1 + n) =~= book::levels_bytes(asks2));
    assert(a.subrange(2 + n, 2 + n + m) =~= book::levels_bytes(bids));
    assert(a.subrange(2 + n, 2 + n + m) =~= book::levels_bytes(bids2));
    assert(a[2 + n + m] == (if synced {
        1u8
    } else {
        0u8
    }));
    lemma_level_bytes_injective(asks, asks2);
    lemma_level_bytes_injective(bids, bids2);
}

/// FNV-1a: nothing leaves the hash as it is, and each byte is folded in by an
/// exclusive or and a product with the prime, modulo 2^64.
pub proof fn lemma_fnv_folds(h: u64, b: Seq<u8>, c: u8)
    ensures
        book::fnv(h, Seq::empty()) == h,
        book::fnv(h, b.push(c)) == ((book::fnv(h, b) ^ c as u64) * 0x100_0000_01b3)
            % 0x1_0000_0000_0000_0000,
{
    assert(b.push(c).drop_last() =~= b);
}

/// One byte changed is another hash: FNV-1a tells apart any two strings that
/// differ in their last byte, and any two hashes that a byte is folded into.
pub proof fn lemma_fnv_last_byte(h: u64, k: u64, b: Seq<u8>, c: u8, d: u8)
    ensures
        book::fnv(h, b.push(c)) == book::fnv(h, b.push(d)) ==> c == d,
        book::fnv(h, seq![c]) == book::fnv(k, seq![c]) ==> h == k,
{
    let x = book::fnv(h, b);
    lemma_fnv_folds(h, b, c);
    lemma_fnv_folds(h, b, d);
    lemma_fold_injective(x ^ c as u64, x ^ d as u64);
    assert(x ^ c as u64 == x ^ d as u64 ==> c == d) by (bit_vector);
    let none = Seq::<u8>::empty();
    lemma_fnv_folds(h, none, c);
    lemma_fnv_folds(k, none, c);
    assert(none.push(c) =~= seq![c]);
    lemma_fold_injective(h ^ c as u64, k ^ c as u64);
    assert(h ^ c as u64 == k ^ c as u64 ==> h == k) by (bit_vector);
}

/// The prime is odd, so a product with it modulo 2^64 can be undone.
proof fn lemma_fold_injective(x: u64, y: u64)
    ensures
        (x * 0x100_0000_01b3) % 0x1_0000_0000_0000_0000 == (y * 0x100_0000_01b3)
            % 0x1_0000_0000_0000_0000 ==> x == y,
{
    if (x * 0x100_0000_01b3) % 0x1_0000_0000_0000_0000 == (y * 0x100_0000_01b3)
        % 0x1_0000_0000_0000_0000 {
        let m: int = 0x1_0000_0000_0000_0000;
        let d: int = x - y;
        let j: int = (x * 0x100_0000_01b3) / m - (y * 0x100_0000_01b3) / m;
        assert(d * 0x100_0000_01b3 == j * m);
        // The inverse of the prime: their product is 1 modulo 2^64.
        let inv: int = 0xce96_5057_aff6_957b;
        let q: int = (inv * 0x100_0000_01b3) / m;
        assert(inv * 0x100_0000_01b3 == q * m + 1);
        assert(d == m * (j * inv - q * d)) by (nonlinear_arith)
            requires
                d * 0x100_0000_01b3 == j * m,
                inv * 0x100_0000_01b3 == q * m + 1,
        ;
        let t: int = j * inv - q * d;
        assert(t == 0) by (nonlinear_arith)
            requires
                d == m * t,
                -m < d < m,
                m > 0,
        ;
    }
}

} // verus!
