//! L2 book: the common contract for price-level book representations.
//!
//! Two implementations exist: [`crate::btree::BTreeBook`] and
//! [`crate::ladder::LadderBook`]. Both apply the same normalized [`Event`]
//! stream to the model of this module, so they hold identical state, and
//! [`L2Book::state_digest`] of equal states is equal.
use crate::event;
use crate::event::{Event, EventKind, Side};
use vstd::bytes::*;
use vstd::prelude::*;

verus! {

/// Result of applying one event to a book.
#[derive(Debug, Clone, Copy, PartialEq, Eq, Structural)]
pub enum Apply {
    /// A level was set/removed. `top_changed` is true when best bid/ask
    /// (price or size) changed: it feeds the top-of-book latency histogram.
    Mutated {
        /// Best bid or ask changed.
        top_changed: bool,
    },
    /// Book-affecting event arrived while unsynced; dropped (counted).
    DroppedUnsynced,
    /// Snapshot started (book cleared, filling).
    SnapshotStarted,
    /// Snapshot complete; book is synced. Carries the venue checksum from
    /// SnapEnd aux (0 if the venue provides none).
    SnapshotComplete {
        /// Venue checksum (e.g. Kraken CRC32), 0 if absent.
        checksum: u32,
    },
    /// A venue Checksum event: verify the book now against `crc`.
    ChecksumToVerify {
        /// Expected CRC32 from the venue.
        crc: u32,
    },
    /// Book cleared and marked unsynced.
    Cleared,
    /// A gap marker: book is now unsynced until the next snapshot.
    GapMarked,
    /// Event does not affect the book (trade, heartbeat).
    NotBook,
}

/// Book sync/snapshot state machine shared by implementations.
#[derive(Debug, Clone, Copy, PartialEq, Eq, Structural)]
pub enum SyncState {
    /// No valid book (start, after Clear/Gap).
    Unsynced,
    /// Between SnapBegin and SnapEnd.
    Filling,
    /// Live book.
    Synced,
}

/// On `side`, the price `a` is strictly better than the price `b`.
pub open spec fn better(side: Side, a: i64, b: i64) -> bool {
    match side {
        Side::Bid => a > b,
        Side::Ask => a < b,
    }
}

/// The levels of one side in book order: best price first, no price twice.
pub open spec fn in_order(side: Side, s: Seq<(i64, i64)>) -> bool {
    forall|i: int, j: int|
        0 <= i < j < s.len() ==> better(side, (#[trigger] s[i]).0, (#[trigger] s[j]).0)
}

/// How many levels of `s` have a better price than `price`.
pub open spec fn rank(side: Side, s: Seq<(i64, i64)>, price: i64) -> int
    decreases s.len(),
{
    if s.len() == 0 || !better(side, s[0].0, price) {
        0
    } else {
        1 + rank(side, s.drop_first(), price)
    }
}

/// `s` has a level at `price`.
pub open spec fn has_level(side: Side, s: Seq<(i64, i64)>, price: i64) -> bool {
    let k = rank(side, s, price);
    k < s.len() && s[k].0 == price
}

/// `s` with the level at `price` set to `qty`, or removed where `qty` is 0.
pub open spec fn with_level(side: Side, s: Seq<(i64, i64)>, price: i64, qty: i64) -> Seq<
    (i64, i64),
> {
    let k = rank(side, s, price);
    if has_level(side, s, price) {
        if qty == 0 {
            s.remove(k)
        } else {
            s.update(k, (price, qty))
        }
    } else if qty == 0 {
        s
    } else {
        s.insert(k, (price, qty))
    }
}

/// The best levels of `s` that a book of the given depth keeps.
pub open spec fn capped(s: Seq<(i64, i64)>, cap: Option<usize>) -> Seq<(i64, i64)> {
    match cap {
        Some(n) => if s.len() > n {
            s.take(n as int)
        } else {
            s
        },
        None => s,
    }
}

/// The best level of a side.
pub open spec fn top(s: Seq<(i64, i64)>) -> Option<(i64, i64)> {
    if s.len() == 0 {
        None
    } else {
        Some(s[0])
    }
}

/// The state of one book.
pub struct BookState {
    /// Bid levels, best (highest) first.
    pub bids: Seq<(i64, i64)>,
    /// Ask levels, best (lowest) first.
    pub asks: Seq<(i64, i64)>,
    /// Where the snapshot life cycle stands.
    pub sync: SyncState,
    /// Book events that were dropped.
    pub dropped: u64,
    /// Levels kept per side.
    pub cap: Option<usize>,
}

impl BookState {
    /// An empty book of the given depth that has seen nothing.
    pub open spec fn fresh(cap: Option<usize>) -> BookState {
        BookState {
            bids: Seq::empty(),
            asks: Seq::empty(),
            sync: SyncState::Unsynced,
            dropped: 0,
            cap,
        }
    }

    /// The levels of one side.
    pub open spec fn levels(self, side: Side) -> Seq<(i64, i64)> {
        match side {
            Side::Bid => self.bids,
            Side::Ask => self.asks,
        }
    }

    /// The book with both sides emptied.
    pub open spec fn emptied(self) -> BookState {
        BookState { bids: Seq::empty(), asks: Seq::empty(), ..self }
    }

    /// The book with one level set (or removed) and cut to its depth.
    pub open spec fn set(self, side: Side, price: i64, qty: i64) -> BookState {
        let s = capped(with_level(side, self.levels(side), price, qty), self.cap);
        match side {
            Side::Bid => BookState { bids: s, ..self },
            Side::Ask => BookState { asks: s, ..self },
        }
    }

    /// The book with one more dropped event on its count.
    pub open spec fn drop_one(self) -> BookState {
        BookState { dropped: (self.dropped + 1) as u64, ..self }
    }

    /// What one event does to the book, and what it reports.
    pub open spec fn step(self, ev: Event) -> (BookState, Apply) {
        match event::kind_of(ev.kind) {
            Err(_) => (self, Apply::NotBook),
            Ok(EventKind::BidSet) | Ok(EventKind::AskSet) => {
                let side = if ev.kind == EventKind::BidSet.code_spec() {
                    Side::Bid
                } else {
                    Side::Ask
                };
                if self.sync != SyncState::Synced {
                    (self.drop_one(), Apply::DroppedUnsynced)
                } else {
                    let next = self.set(side, ev.price, ev.qty);
                    (
                        next,
                        Apply::Mutated {
                            top_changed: top(self.levels(side)) != top(next.levels(side)),
                        },
                    )
                }
            },
            Ok(EventKind::SnapBegin) => (
                BookState { sync: SyncState::Filling, ..self.emptied() },
                Apply::SnapshotStarted,
            ),
            Ok(EventKind::SnapBid) | Ok(EventKind::SnapAsk) => {
                let side = if ev.kind == EventKind::SnapBid.code_spec() {
                    Side::Bid
                } else {
                    Side::Ask
                };
                if self.sync != SyncState::Filling {
                    (self.drop_one(), Apply::DroppedUnsynced)
                } else {
                    let next = self.set(side, ev.price, ev.qty);
                    (
                        next,
                        Apply::Mutated {
                            top_changed: top(self.levels(side)) != top(next.levels(side)),
                        },
                    )
                }
            },
            Ok(EventKind::SnapEnd) => {
                if self.sync != SyncState::Filling {
                    (self.drop_one(), Apply::DroppedUnsynced)
                } else {
                    (
                        BookState { sync: SyncState::Synced, ..self },
                        Apply::SnapshotComplete { checksum: ev.aux as u32 },
                    )
                }
            },
            Ok(EventKind::Checksum) => (self, Apply::ChecksumToVerify { crc: ev.aux as u32 }),
            Ok(EventKind::Clear) => (
                BookState { sync: SyncState::Unsynced, ..self.emptied() },
                Apply::Cleared,
            ),
            Ok(EventKind::Gap) => (
                BookState { sync: SyncState::Unsynced, ..self },
                Apply::GapMarked,
            ),
            Ok(EventKind::Trade) | Ok(EventKind::Heartbeat) => (self, Apply::NotBook),
        }
    }

    /// What a run of events leaves of the book.
    pub open spec fn run(self, evs: Seq<Event>) -> BookState
        decreases evs.len(),
    {
        if evs.len() == 0 {
            self
        } else {
            self.run(evs.drop_last()).step(evs.last()).0
        }
    }

    /// Both sides are in book order and within the depth.
    pub open spec fn valid(self) -> bool {
        &&& in_order(Side::Bid, self.bids)
        &&& in_order(Side::Ask, self.asks)
        &&& self.cap matches Some(n) ==> self.bids.len() <= n && self.asks.len() <= n
    }

    /// The canonical digest of the whole state.
    pub open spec fn digest(self) -> u64 {
        digest_of(self.asks, self.bids, self.sync == SyncState::Synced)
    }
}

/// The canonical digest: both sides in book order, asks first, each under its
/// marker, and the sync flag, through FNV-1a.
pub open spec fn digest_of(asks: Seq<(i64, i64)>, bids: Seq<(i64, i64)>, synced: bool) -> u64 {
    let flag = if synced {
        1u8
    } else {
        0u8
    };
    fnv(
        FNV_BASIS,
        seq![0x41u8] + levels_bytes(asks) + seq![0x42u8] + levels_bytes(bids) + seq![flag],
    )
}

/// The canonical bytes of a book: the marker `A`, the asks, the marker `B`,
/// the bids and the sync flag.
pub open spec fn state_bytes(asks: Seq<(i64, i64)>, bids: Seq<(i64, i64)>, synced: bool) -> Seq<
    u8,
> {
    seq![0x41u8].add(levels_bytes(asks)).add(seq![0x42u8]).add(levels_bytes(bids)).add(
        seq![
            if synced {
                1u8
            } else {
                0u8
            },
        ],
    )
}

/// FNV-1a 64 offset basis.
pub const FNV_BASIS: u64 = 0xcbf2_9ce4_8422_2325;

/// FNV-1a 64 prime.
pub const FNV_PRIME: u64 = 0x0000_0100_0000_01b3;

/// FNV-1a 64 over `b`, starting from the hash `h`.
pub open spec fn fnv(h: u64, b: Seq<u8>) -> u64
    decreases b.len(),
{
    if b.len() == 0 {
        h
    } else {
        (fnv(h, b.drop_last()) ^ (b.last() as u64)).wrapping_mul(FNV_PRIME)
    }
}

pub proof fn lemma_fnv_concat(h: u64, a: Seq<u8>, b: Seq<u8>)
    ensures
        fnv(h, a + b) == fnv(fnv(h, a), b),
    decreases b.len(),
{
    if b.len() == 0 {
        assert(a + b =~= a);
    } else {
        lemma_fnv_concat(h, a, b.drop_last());
        assert((a + b).drop_last() =~= a + b.drop_last());
    }
}

/// The bytes of the levels in order: price, then quantity, little-endian.
pub open spec fn levels_bytes(s: Seq<(i64, i64)>) -> Seq<u8>
    decreases s.len(),
{
    if s.len() == 0 {
        Seq::empty()
    } else {
        levels_bytes(s.drop_last()) + spec_u64_to_le_bytes(s.last().0 as u64)
            + spec_u64_to_le_bytes(s.last().1 as u64)
    }
}

/// FNV-1a 64 building block for [`L2Book::state_digest`] implementations.
#[derive(Debug, Clone, Copy)]
pub struct Fnv(pub u64);

impl Default for Fnv {
    fn default() -> (r: Self)
        ensures
            r.0 == FNV_BASIS,
    {
        Fnv(FNV_BASIS)
    }
}

impl Fnv {
    /// Fold `bytes` into the hash.
    pub fn write(&mut self, bytes: &[u8])
        ensures
            final(self).0 == fnv(old(self).0, bytes@),
    {
        let mut i: usize = 0;
        let ghost h0: u64 = self.0;
        while i < bytes.len()
            invariant
                i <= bytes.len(),
                self.0 == fnv(h0, bytes@.take(i as int)),
            decreases bytes.len() - i,
        {
            let b: u8 = bytes[i];
            self.0 = (self.0 ^ (b as u64)).wrapping_mul(FNV_PRIME);
            assert(bytes@.take(i + 1).drop_last() =~= bytes@.take(i as int));
            i += 1;
        }
        assert(bytes@.take(i as int) =~= bytes@);
    }

    /// Fold the little-endian bytes of `v` into the hash.
    pub fn write_i64(&mut self, v: i64)
        ensures
            final(self).0 == fnv(old(self).0, spec_u64_to_le_bytes(v as u64)),
    {
        let b: Vec<u8> = u64_to_le_bytes(v as u64);
        self.write(b.as_slice());
    }

    /// Fold levels, given best last, into the hash, best first.
    fn write_levels(&mut self, best_last: &[(i64, i64)])
        ensures
            final(self).0 == fnv(old(self).0, levels_bytes(best_last@.reverse())),
    {
        let ghost h0: u64 = self.0;
        let ghost s: Seq<(i64, i64)> = best_last@.reverse();
        let mut i: usize = best_last.len();
        while i > 0
            invariant
                i <= best_last.len(),
                s == best_last@.reverse(),
                self.0 == fnv(h0, levels_bytes(s.take(s.len() - i))),
            decreases i,
        {
            i -= 1;
            let l: (i64, i64) = best_last[i];
            self.write_i64(l.0);
            self.write_i64(l.1);
            proof {
                let t = s.take(s.len() - i);
                assert(t.drop_last() =~= s.take(s.len() - i - 1));
                assert(t.last() == l);
                let a = levels_bytes(t.drop_last());
                let p = spec_u64_to_le_bytes(l.0 as u64);
                let q = spec_u64_to_le_bytes(l.1 as u64);
                lemma_fnv_concat(h0, a, p);
                lemma_fnv_concat(h0, a + p, q);
            }
        }
        assert(s.take(s.len() as int) =~= s);
    }
}

/// Compute the canonical digest from the levels of both sides, given best
/// last: asks ascending then bids descending, with side markers and the sync
/// flag folded in.
pub fn digest_from_levels(asks: &[(i64, i64)], bids: &[(i64, i64)], synced: bool) -> (r: u64)
    ensures
        r == digest_of(asks@.reverse(), bids@.reverse(), synced),
        r == fnv(FNV_BASIS, state_bytes(asks@.reverse(), bids@.reverse(), synced)),
{
    let mut h: Fnv = Fnv::default();
    h.write(&[0x41u8]);
    h.write_levels(asks);
    h.write(&[0x42u8]);
    h.write_levels(bids);
    let flag: u8 = if synced {
        1
    } else {
        0
    };
    h.write(&[flag]);
    proof {
        let a = seq![0x41u8];
        let b = levels_bytes(asks@.reverse());
        let c = seq![0x42u8];
        let d = levels_bytes(bids@.reverse());
        let e = seq![flag];
        lemma_fnv_concat(FNV_BASIS, a, b);
        lemma_fnv_concat(FNV_BASIS, a + b, c);
        lemma_fnv_concat(FNV_BASIS, a + b + c, d);
        lemma_fnv_concat(FNV_BASIS, a + b + c + d, e);
        assert([0x41u8]@ =~= a);
        assert([0x42u8]@ =~= c);
        assert([flag]@ =~= e);
    }
    h.0
}

/// A price has the rank `k` if the `k` best levels are the better ones.
pub proof fn lemma_rank_is(side: Side, s: Seq<(i64, i64)>, price: i64, k: int)
    requires
        0 <= k <= s.len(),
        forall|i: int| 0 <= i < k ==> better(side, (#[trigger] s[i]).0, price),
        k < s.len() ==> !better(side, s[k].0, price),
    ensures
        rank(side, s, price) == k,
    decreases s.len(),
{
    if k > 0 {
        let t = s.drop_first();
        assert forall|i: int| 0 <= i < k - 1 implies better(side, (#[trigger] t[i]).0, price) by {
            assert(t[i] == s[i + 1]);
        }
        assert(better(side, s[0].0, price));
        lemma_rank_is(side, t, price, k - 1);
    }
}

/// The levels before a price's rank are better, those from it on are not.
pub proof fn lemma_rank(side: Side, s: Seq<(i64, i64)>, price: i64)
    requires
        in_order(side, s),
    ensures
        0 <= rank(side, s, price) <= s.len(),
        forall|i: int|
            0 <= i < rank(side, s, price) ==> better(side, (#[trigger] s[i]).0, price),
        forall|i: int|
            rank(side, s, price) <= i < s.len() ==> !better(side, (#[trigger] s[i]).0, price),
    decreases s.len(),
{
    if s.len() > 0 && better(side, s[0].0, price) {
        let t = s.drop_first();
        assert(in_order(side, t)) by {
            assert forall|i: int, j: int| 0 <= i < j < t.len() implies better(
                side,
                (#[trigger] t[i]).0,
                (#[trigger] t[j]).0,
            ) by {
                assert(t[i] == s[i + 1] && t[j] == s[j + 1]);
            }
        }
        lemma_rank(side, t, price);
        let k = rank(side, s, price);
        assert forall|i: int| 0 <= i < k implies better(side, (#[trigger] s[i]).0, price) by {
            if i > 0 {
                assert(s[i] == t[i - 1]);
            }
        }
        assert forall|i: int| k <= i < s.len() implies !better(
            side,
            (#[trigger] s[i]).0,
            price,
        ) by {
            assert(s[i] == t[i - 1]);
        }
    }
}

/// The quantity at `price`, if the side has that level.
pub open spec fn qty_at(side: Side, s: Seq<(i64, i64)>, price: i64) -> Option<i64> {
    if has_level(side, s, price) {
        Some(s[rank(side, s, price)].1)
    } else {
        None
    }
}

/// The quantity at a price is the one that a level at that price holds.
pub proof fn lemma_qty_at(side: Side, s: Seq<(i64, i64)>, i: int)
    requires
        in_order(side, s),
        0 <= i < s.len(),
    ensures
        qty_at(side, s, s[i].0) == Some(s[i].1),
{
    lemma_rank_is(side, s, s[i].0, i);
}

/// Setting a level keeps a side in book order.
pub proof fn lemma_with_level_in_order(side: Side, s: Seq<(i64, i64)>, price: i64, qty: i64)
    requires
        in_order(side, s),
    ensures
        in_order(side, with_level(side, s, price, qty)),
        with_level(side, s, price, qty).len() <= s.len() + 1,
{
    lemma_rank(side, s, price);
}

/// Setting a level sets it (or removes it, where the quantity is 0) and
/// leaves every other level of the side as it was.
pub proof fn lemma_set_then_get(
    side: Side,
    s: Seq<(i64, i64)>,
    price: i64,
    qty: i64,
    other: i64,
)
    requires
        in_order(side, s),
    ensures
        qty_at(side, with_level(side, s, price, qty), other) == (if other != price {
            qty_at(side, s, other)
        } else if qty == 0 {
            None
        } else {
            Some(qty)
        }),
{
    let t = with_level(side, s, price, qty);
    let k = rank(side, s, price);
    lemma_rank(side, s, price);
    lemma_with_level_in_order(side, s, price, qty);
    lemma_rank(side, t, other);
    lemma_rank(side, s, other);
    if other == price {
        if qty != 0 {
            assert(t[k] == (price, qty));
            lemma_qty_at(side, t, k);
        } else if qty_at(side, t, price) is Some {
            let i = rank(side, t, price);
            if has_level(side, s, price) {
                let j = if i < k {
                    i
                } else {
                    i + 1
                };
                assert(t[i] == s[j]);
            }
        }
    } else {
        if has_level(side, s, other) {
            let i = rank(side, s, other);
            let j = if has_level(side, s, price) && qty == 0 && i > k {
                i - 1
            } else if !has_level(side, s, price) && qty != 0 && i >= k {
                i + 1
            } else {
                i
            };
            assert(t[j] == s[i]);
            lemma_qty_at(side, t, j);
        } else if has_level(side, t, other) {
            let j = rank(side, t, other);
            let i = if has_level(side, s, price) && qty == 0 && j >= k {
                j + 1
            } else if !has_level(side, s, price) && qty != 0 && j > k {
                j - 1
            } else {
                j
            };
            assert(t[j] == s[i]);
            lemma_qty_at(side, s, i);
        }
    }
}

/// Whatever the events, both sides of a book stay in book order, no price
/// occurs twice, and neither side grows beyond the depth of the book.
pub proof fn lemma_step_valid(b: BookState, ev: Event)
    requires
        b.valid(),
    ensures
        b.step(ev).0.valid(),
        b.step(ev).0.cap == b.cap,
{
    lemma_with_level_in_order(Side::Bid, b.bids, ev.price, ev.qty);
    lemma_with_level_in_order(Side::Ask, b.asks, ev.price, ev.qty);
}

/// A book that starts empty is valid after every run of events.
pub proof fn lemma_run_valid(cap: Option<usize>, evs: Seq<Event>)
    ensures
        BookState::fresh(cap).run(evs).valid(),
        BookState::fresh(cap).run(evs).cap == cap,
    decreases evs.len(),
{
    if evs.len() > 0 {
        lemma_run_valid(cap, evs.drop_last());
        lemma_step_valid(BookState::fresh(cap).run(evs.drop_last()), evs.last());
    }
}

/// A run of events can be cut anywhere.
pub proof fn lemma_run_concat(b: BookState, xs: Seq<Event>, ys: Seq<Event>)
    ensures
        b.run(xs + ys) == b.run(xs).run(ys),
    decreases ys.len(),
{
    if ys.len() == 0 {
        assert(xs + ys =~= xs);
    } else {
        assert((xs + ys).drop_last() =~= xs + ys.drop_last());
        lemma_run_concat(b, xs, ys.drop_last());
    }
}

/// Trades, heartbeats and events of unknown kinds leave a book untouched.
pub proof fn lemma_not_book_untouched(b: BookState, ev: Event)
    requires
        event::kind_of(ev.kind) is Err || event::kind_of(ev.kind) == Ok::<EventKind, u8>(
            EventKind::Trade,
        ) || event::kind_of(ev.kind) == Ok::<EventKind, u8>(EventKind::Heartbeat),
    ensures
        b.step(ev) == (b, Apply::NotBook),
{
}

/// Two books in one state, whatever represents them, stay in one state and
/// report the same on every event, and their digests are equal.
pub proof fn lemma_representations_agree<A: L2Book, B: L2Book>(a: A, b: B, evs: Seq<Event>)
    requires
        a.state() == b.state(),
    ensures
        a.state().run(evs) == b.state().run(evs),
        a.state().run(evs).digest() == b.state().run(evs).digest(),
        forall|ev: Event| #[trigger]
            a.state().run(evs).step(ev) == b.state().run(evs).step(ev),
{
}

/// Levels are only ever changed while the book is synced or being filled:
/// an unsynced book drops every level event and counts it.
pub proof fn lemma_unsynced_drops(b: BookState, ev: Event)
    requires
        b.sync == SyncState::Unsynced,
        ev.side_spec() is Some,
    ensures
        b.step(ev) == (b.drop_one(), Apply::DroppedUnsynced),
{
}

/// Shared level primitives: what an implementation supplies so that every
/// one of them interprets the normalized stream identically.
pub trait LevelOps: Sized {
    /// The representation is sound.
    spec fn ops_wf(&self) -> bool;

    /// The book that this value stands for.
    spec fn book(&self) -> BookState;

    /// Set/replace/delete (qty 0) a level. Returns true if the side's best
    /// level (price or qty) changed.
    fn set_level(&mut self, side: Side, price: i64, qty: i64) -> (top_changed: bool)
        requires
            old(self).ops_wf(),
        ensures
            final(self).ops_wf(),
            final(self).book() == old(self).book().set(side, price, qty),
            top_changed == (top(old(self).book().levels(side)) != top(
                final(self).book().levels(side),
            )),
    ;

    /// Empty both sides.
    fn clear_levels(&mut self)
        requires
            old(self).ops_wf(),
        ensures
            final(self).ops_wf(),
            final(self).book() == old(self).book().emptied(),
    ;
}

/// Drives the shared state machine; used by both implementations' `apply`.
pub fn apply_common<B: LevelOps>(b: &mut B, state: &mut SyncState, dropped: &mut u64, ev: &Event)
    -> (r: Apply)
    requires
        old(b).ops_wf(),
        *old(dropped) < u64::MAX,
    ensures
        final(b).ops_wf(),
        final(b).book().sync == old(b).book().sync,
        final(b).book().dropped == old(b).book().dropped,
        ({
            let from = BookState { sync: *old(state), dropped: *old(dropped), ..old(b).book() };
            let to = BookState {
                sync: *final(state),
                dropped: *final(dropped),
                ..final(b).book()
            };
            from.step(*ev) == (to, r)
        }),
{
    let kind: EventKind = match ev.kind() {
        Ok(k) => k,
        Err(_) => {
            return Apply::NotBook;
        },
    };
    match kind {
        EventKind::BidSet | EventKind::AskSet => {
            if *state != SyncState::Synced {
                *dropped = *dropped + 1;
                return Apply::DroppedUnsynced;
            }
            let side: Side = if kind == EventKind::BidSet {
                Side::Bid
            } else {
                Side::Ask
            };
            let top_changed: bool = b.set_level(side, ev.price, ev.qty);
            Apply::Mutated { top_changed }
        },
        EventKind::SnapBegin => {
            b.clear_levels();
            *state = SyncState::Filling;
            Apply::SnapshotStarted
        },
        EventKind::SnapBid | EventKind::SnapAsk => {
            if *state != SyncState::Filling {
                *dropped = *dropped + 1;
                return Apply::DroppedUnsynced;
            }
            let side: Side = if kind == EventKind::SnapBid {
                Side::Bid
            } else {
                Side::Ask
            };
            let top_changed: bool = b.set_level(side, ev.price, ev.qty);
            Apply::Mutated { top_changed }
        },
        EventKind::SnapEnd => {
            if *state != SyncState::Filling {
                *dropped = *dropped + 1;
                return Apply::DroppedUnsynced;
            }
            *state = SyncState::Synced;
            Apply::SnapshotComplete { checksum: ev.aux as u32 }
        },
        EventKind::Checksum => Apply::ChecksumToVerify { crc: ev.aux as u32 },
        EventKind::Clear => {
            b.clear_levels();
            *state = SyncState::Unsynced;
            Apply::Cleared
        },
        EventKind::Gap => {
            *state = SyncState::Unsynced;
            Apply::GapMarked
        },
        EventKind::Trade | EventKind::Heartbeat => Apply::NotBook,
    }
}

/// A single-instrument L2 price-level book.
pub trait L2Book: Default {
    /// The representation is sound.
    spec fn wf(&self) -> bool;

    /// The book that this value stands for.
    spec fn state(&self) -> BookState;

    /// Apply one normalized event. Events for other instruments must not be
    /// routed here (see [`crate::bookset::BookSet`]).
    fn apply(&mut self, ev: &Event) -> (r: Apply)
        requires
            old(self).wf(),
            old(self).state().dropped < u64::MAX,
        ensures
            final(self).wf(),
            (final(self).state(), r) == old(self).state().step(*ev),
    ;

    /// Best bid (highest price) as (price, qty).
    fn best_bid(&self) -> (r: Option<(i64, i64)>)
        requires
            self.wf(),
        ensures
            r == top(self.state().bids),
    ;

    /// Best ask (lowest price) as (price, qty).
    fn best_ask(&self) -> (r: Option<(i64, i64)>)
        requires
            self.wf(),
        ensures
            r == top(self.state().asks),
    ;

    /// Number of levels on a side.
    fn depth(&self, side: Side) -> (r: usize)
        requires
            self.wf(),
        ensures
            r == self.state().levels(side).len(),
    ;

    /// Copy the top `n` levels into `out` (cleared first): bids descending
    /// by price, asks ascending, the natural display/checksum order.
    fn top_n_into(&self, side: Side, n: usize, out: &mut Vec<(i64, i64)>)
        requires
            self.wf(),
        ensures
            final(out)@ == capped(self.state().levels(side), Some(n)),
            final(out)@.len() == (if n < self.state().levels(side).len() {
                n as nat
            } else {
                self.state().levels(side).len()
            }),
            forall|i: int|
                0 <= i < final(out)@.len() ==> #[trigger] final(out)@[i] == self.state().levels(
                    side,
                )[i],
    ;

    /// Drop all levels and mark unsynced.
    fn clear(&mut self)
        requires
            old(self).wf(),
        ensures
            final(self).wf(),
            final(self).state() == (BookState {
                sync: SyncState::Unsynced,
                ..old(self).state().emptied()
            }),
    ;

    /// True once a snapshot has completed and no gap/clear followed.
    fn is_synced(&self) -> (r: bool)
        requires
            self.wf(),
        ensures
            r == (self.state().sync == SyncState::Synced),
    ;

    /// Count of book events dropped while unsynced.
    fn dropped_unsynced(&self) -> (r: u64)
        requires
            self.wf(),
        ensures
            r == self.state().dropped,
    ;

    /// Deterministic digest of the full book state (FNV-1a over canonical
    /// level order plus sync flag).
    fn state_digest(&self) -> (r: u64)
        requires
            self.wf(),
        ensures
            r == self.state().digest(),
    ;
}

} // verus!
