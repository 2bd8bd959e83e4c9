//! [`LadderBook`]: the contiguous book representation. One sorted `Vec` per
//! side with the BEST level at the END:
//!
//! - bids stored ascending by price  -> best bid (highest) is `last()`
//! - asks stored descending by price -> best ask (lowest)  is `last()`
//!
//! Real L2 traffic clusters near the top of the book, so insert/remove
//! memmoves touch only the short tail, and best-of-book reads are O(1) with
//! no pointer chasing. The BTreeMap alternative is
//! [`crate::btree::BTreeBook`].
use crate::book;
use crate::book::{Apply, BookState, L2Book, LevelOps, SyncState};
use crate::event::{Event, Side};
use vstd::prelude::*;

verus! {

/// Contiguous sorted-vec L2 book.
#[derive(Debug, Clone)]
pub struct LadderBook {
    /// Ascending price; best bid at end.
    bids: Vec<(i64, i64)>,
    /// Descending price; best ask at end.
    asks: Vec<(i64, i64)>,
    state: SyncState,
    dropped: u64,
    max_depth: Option<usize>,
}

impl Default for LadderBook {
    fn default() -> (r: Self)
        ensures
            r.wf(),
            r.state() == BookState::fresh(None),
    {
        LadderBook::new()
    }
}

impl LadderBook {
    /// Unlimited-depth book.
    pub fn new() -> (r: Self)
        ensures
            r.wf(),
            r.state() == BookState::fresh(None),
    {
        let r = LadderBook {
            bids: Vec::new(),
            asks: Vec::new(),
            state: SyncState::Unsynced,
            dropped: 0,
            max_depth: None,
        };
        assert(r.bids@.reverse() =~= Seq::<(i64, i64)>::empty());
        assert(r.asks@.reverse() =~= Seq::<(i64, i64)>::empty());
        r
    }

    /// Book maintained at `n` levels per side (Kraken v2 depth semantics):
    /// after every mutation the worst levels beyond `n` are dropped.
    pub fn with_max_depth(n: usize) -> (r: Self)
        ensures
            r.wf(),
            r.state() == BookState::fresh(Some(n)),
    {
        let mut r = LadderBook::new();
        r.max_depth = Some(n);
        r
    }

    /// Binary-search a side for `price`. `Ok(idx)` = present, `Err(idx)` =
    /// where it would go.
    fn find(levels: &[(i64, i64)], side: Side, price: i64) -> (r: Result<usize, usize>)
        requires
            book::in_order(side, levels@.reverse()),
        ensures
            match r {
                Ok(i) => i < levels@.len() && levels@[i as int].0 == price,
                Err(i) => i <= levels@.len() && (forall|j: int|
                    0 <= j < i ==> book::better(side, price, (#[trigger] levels@[j]).0)) && (forall|
                    j: int,
                |
                    i <= j < levels@.len() ==> book::better(
                        side,
                        (#[trigger] levels@[j]).0,
                        price,
                    )),
            },
    {
        let mut lo: usize = 0;
        let mut hi: usize = levels.len();
        proof {
            lemma_ascends(side, levels@);
        }
        while lo < hi
            invariant
                lo <= hi <= levels@.len(),
                forall|i: int, j: int|
                    0 <= i < j < levels@.len() ==> book::better(
                        side,
                        (#[trigger] levels@[j]).0,
                        (#[trigger] levels@[i]).0,
                    ),
                forall|j: int| 0 <= j < lo ==> book::better(side, price, (#[trigger] levels@[j]).0),
                forall|j: int|
                    hi <= j < levels@.len() ==> book::better(
                        side,
                        (#[trigger] levels@[j]).0,
                        price,
                    ),
            decreases hi - lo,
        {
            let mid: usize = lo + (hi - lo) / 2;
            let p: i64 = levels[mid].0;
            if p == price {
                return Ok(mid);
            }
            let worse: bool = match side {
                Side::Bid => p < price,
                Side::Ask => p > price,
            };
            if worse {
                lo = mid + 1;
            } else {
                hi = mid;
            }
        }
        Err(lo)
    }

    /// Keep only the best `n` levels of a side: the worst ones live at the
    /// front.
    fn truncate(v: &mut Vec<(i64, i64)>, cap: Option<usize>)
        ensures
            final(v)@.reverse() == book::capped(old(v)@.reverse(), cap),
    {
        match cap {
            Some(n) => {
                if v.len() > n {
                    let cut: usize = v.len() - n;
                    let best: Vec<(i64, i64)> = v.split_off(cut);
                    assert(best@.reverse() =~= old(v)@.reverse().take(n as int));
                    *v = best;
                }
            },
            None => {},
        }
    }

    /// Set/replace/delete (qty 0) a level of one side.
    fn set_side(
        v: &mut Vec<(i64, i64)>,
        side: Side,
        price: i64,
        qty: i64,
        cap: Option<usize>,
    ) -> (top_changed: bool)
        requires
            book::in_order(side, old(v)@.reverse()),
        ensures
            book::in_order(side, final(v)@.reverse()),
            final(v)@.reverse() == book::capped(
                book::with_level(side, old(v)@.reverse(), price, qty),
                cap,
            ),
            top_changed == (book::top(old(v)@.reverse()) != book::top(final(v)@.reverse())),
    {
        let ghost s: Seq<(i64, i64)> = v@.reverse();
        let ghost n: int = v@.len() as int;
        let before: Option<(i64, i64)> = last_level(v);
        proof {
            book::lemma_with_level_in_order(side, s, price, qty);
        }
        match LadderBook::find(v.as_slice(), side, price) {
            Ok(idx) => {
                proof {
                    let k = n - 1 - idx;
                    assert(s[k] == v@[idx as int]);
                    assert forall|i: int| 0 <= i < k implies book::better(
                        side,
                        (#[trigger] s[i]).0,
                        price,
                    ) by {
                        assert(book::better(side, s[i].0, s[k].0));
                    }
                    book::lemma_rank_is(side, s, price, k);
                }
                if qty == 0 {
                    v.remove(idx);
                    assert(v@.reverse() =~= s.remove(n - 1 - idx));
                } else {
                    v[idx] = (price, qty);
                    assert(v@.reverse() =~= s.update(n - 1 - idx, (price, qty)));
                }
            },
            Err(idx) => {
                proof {
                    let k = n - idx;
                    assert forall|i: int| 0 <= i < k implies book::better(
                        side,
                        (#[trigger] s[i]).0,
                        price,
                    ) by {
                        assert(s[i] == v@[n - 1 - i]);
                    }
                    if k < n {
                        assert(s[k] == v@[idx - 1]);
                    }
                    book::lemma_rank_is(side, s, price, k);
                }
                if qty != 0 {
                    v.insert(idx, (price, qty));
                    assert(v@.reverse() =~= s.insert(n - idx, (price, qty)));
                }
            },
        }
        LadderBook::truncate(v, cap);
        let after: Option<(i64, i64)> = last_level(v);
        levels_differ(before, after)
    }
}

/// The best level of a side that is stored best last.
fn last_level(v: &Vec<(i64, i64)>) -> (r: Option<(i64, i64)>)
    ensures
        r == book::top(v@.reverse()),
{
    if v.len() == 0 {
        None
    } else {
        assert(v@.reverse()[0] == v@[v@.len() - 1]);
        Some(v[v.len() - 1])
    }
}

/// Two best levels differ in price or quantity, or in being there.
pub fn levels_differ(a: Option<(i64, i64)>, b: Option<(i64, i64)>) -> (r: bool)
    ensures
        r == (a != b),
{
    match (a, b) {
        (Some(x), Some(y)) => x.0 != y.0 || x.1 != y.1,
        (None, None) => false,
        _ => true,
    }
}

proof fn lemma_ascends(side: Side, v: Seq<(i64, i64)>)
    requires
        book::in_order(side, v.reverse()),
    ensures
        forall|i: int, j: int|
            0 <= i < j < v.len() ==> book::better(side, (#[trigger] v[j]).0, (#[trigger] v[i]).0),
{
    let s = v.reverse();
    assert forall|i: int, j: int| 0 <= i < j < v.len() implies book::better(
        side,
        (#[trigger] v[j]).0,
        (#[trigger] v[i]).0,
    ) by {
        assert(s[v.len() - 1 - j] == v[j] && s[v.len() - 1 - i] == v[i]);
    }
}

impl LevelOps for LadderBook {
    closed spec fn ops_wf(&self) -> bool {
        book::in_order(Side::Bid, self.bids@.reverse()) && book::in_order(
            Side::Ask,
            self.asks@.reverse(),
        )
    }

    closed spec fn book(&self) -> BookState {
        BookState {
            bids: self.bids@.reverse(),
            asks: self.asks@.reverse(),
            sync: self.state,
            dropped: self.dropped,
            cap: self.max_depth,
        }
    }

    fn set_level(&mut self, side: Side, price: i64, qty: i64) -> (top_changed: bool) {
        match side {
            Side::Bid => LadderBook::set_side(&mut self.bids, side, price, qty, self.max_depth),
            Side::Ask => LadderBook::set_side(&mut self.asks, side, price, qty, self.max_depth),
        }
    }

    fn clear_levels(&mut self) {
        self.bids.clear();
        self.asks.clear();
        assert(self.bids@.reverse() =~= Seq::<(i64, i64)>::empty());
        assert(self.asks@.reverse() =~= Seq::<(i64, i64)>::empty());
    }
}

impl L2Book for LadderBook {
    closed spec fn wf(&self) -> bool {
        self.ops_wf()
    }

    closed spec fn state(&self) -> BookState {
        self.book()
    }

    fn apply(&mut self, ev: &Event) -> (r: Apply) {
        let mut state: SyncState = self.state;
        let mut dropped: u64 = self.dropped;
        let r = book::apply_common(self, &mut state, &mut dropped, ev);
        self.state = state;
        self.dropped = dropped;
        r
    }

    fn best_bid(&self) -> (r: Option<(i64, i64)>) {
        last_level(&self.bids)
    }

    fn best_ask(&self) -> (r: Option<(i64, i64)>) {
        last_level(&self.asks)
    }

    fn depth(&self, side: Side) -> (r: usize) {
        match side {
            Side::Bid => self.bids.len(),
            Side::Ask => self.asks.len(),
        }
    }

    fn top_n_into(&self, side: Side, n: usize, out: &mut Vec<(i64, i64)>) {
        match side {
            Side::Bid => copy_best(self.bids.as_slice(), n, out),
            Side::Ask => copy_best(self.asks.as_slice(), n, out),
        }
    }

    fn clear(&mut self) {
        self.clear_levels();
        self.state = SyncState::Unsynced;
    }

    fn is_synced(&self) -> (r: bool) {
        self.state == SyncState::Synced
    }

    fn dropped_unsynced(&self) -> (r: u64) {
        self.dropped
    }

    fn state_digest(&self) -> (r: u64) {
        book::digest_from_levels(
            self.asks.as_slice(),
            self.bids.as_slice(),
            self.state == SyncState::Synced,
        )
    }
}

/// Copy the last `n` levels of `v`, last first.
pub fn copy_best(v: &[(i64, i64)], n: usize, out: &mut Vec<(i64, i64)>)
    ensures
        final(out)@ == book::capped(v@.reverse(), Some(n)),
        final(out)@.len() == (if n < v@.len() {
            n as nat
        } else {
            v@.len()
        }),
        forall|i: int|
            0 <= i < final(out)@.len() ==> #[trigger] final(out)@[i] == v@[v@.len() - 1 - i],
{
    out.clear();
    let k: usize = if n < v.len() {
        n
    } else {
        v.len()
    };
    let mut i: usize = 0;
    while i < k
        invariant
            i <= k <= v.len(),
            out@ =~= v@.reverse().take(i as int),
        decreases k - i,
    {
        out.push(v[v.len() - 1 - i]);
        i += 1;
    }
    assert(v@.reverse().take(v.len() as int) =~= v@.reverse());
}

} // verus!
