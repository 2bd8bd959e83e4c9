//! [`BTreeBook`]: the ordered-map book representation. One `BTreeMap` per
//! side. Simple and algorithmically clean: the baseline for the contiguous
//! ladder of [`crate::ladder::LadderBook`].
use crate::book;
use crate::book::{Apply, BookState, L2Book, LevelOps, SyncState};
use crate::event::{Event, Side};
use crate::ladder;
use std::collections::BTreeMap;
use vstd::prelude::*;

verus! {

broadcast use {vstd::std_specs::btree::group_btree_axioms, vstd::laws_cmp::group_laws_cmp};

/// BTreeMap-backed L2 book.
#[derive(Debug, Clone)]
pub struct BTreeBook {
    bids: BTreeMap<i64, i64>,
    asks: BTreeMap<i64, i64>,
    state: SyncState,
    dropped: u64,
    max_depth: Option<usize>,
}

/// `s` holds the levels of `m`, each once, in book order.
pub open spec fn lists(side: Side, s: Seq<(i64, i64)>, m: Map<i64, i64>) -> bool {
    &&& book::in_order(side, s)
    &&& forall|i: int|
        0 <= i < s.len() ==> m.contains_key((#[trigger] s[i]).0) && m[s[i].0] == s[i].1
    &&& forall|k: i64| #[trigger] m.contains_key(k) ==> exists|i: int|
        0 <= i < s.len() && (#[trigger] s[i]).0 == k
}

/// The levels of `m` in book order.
pub open spec fn level_seq(side: Side, m: Map<i64, i64>) -> Seq<(i64, i64)> {
    choose|s: Seq<(i64, i64)>| lists(side, s, m)
}

/// Only one sequence lists the levels of a map.
proof fn lemma_lists_unique(side: Side, a: Seq<(i64, i64)>, b: Seq<(i64, i64)>, m: Map<i64, i64>)
    requires
        lists(side, a, m),
        lists(side, b, m),
    ensures
        a == b,
    decreases a.len(),
{
    if a.len() == 0 {
        if b.len() > 0 {
            assert(m.contains_key(b[0].0));
        }
        assert(a =~= b);
    } else {
        let k = a[0].0;
        assert(m.contains_key(k));
        let j = choose|j: int| 0 <= j < b.len() && (#[trigger] b[j]).0 == k;
        assert(m.contains_key(b[0].0));
        let i = choose|i: int| 0 <= i < a.len() && (#[trigger] a[i]).0 == b[0].0;
        if j > 0 {
            assert(book::better(side, b[0].0, b[j].0));
            if i > 0 {
                assert(book::better(side, a[0].0, a[i].0));
            }
            assert(false);
        }
        let a2 = a.drop_first();
        let b2 = b.drop_first();
        let m2 = m.remove(k);
        lemma_lists_rest(side, a, m);
        lemma_lists_rest(side, b, m);
        lemma_lists_unique(side, a2, b2, m2);
        assert(a =~= seq![a[0]] + a2);
        assert(b =~= seq![b[0]] + b2);
    }
}

proof fn lemma_lists_rest(side: Side, a: Seq<(i64, i64)>, m: Map<i64, i64>)
    requires
        lists(side, a, m),
        a.len() > 0,
    ensures
        lists(side, a.drop_first(), m.remove(a[0].0)),
{
    let a2 = a.drop_first();
    let m2 = m.remove(a[0].0);
    assert forall|i: int, j: int| 0 <= i < j < a2.len() implies book::better(
        side,
        (#[trigger] a2[i]).0,
        (#[trigger] a2[j]).0,
    ) by {
        assert(a2[i] == a[i + 1] && a2[j] == a[j + 1]);
    }
    assert forall|i: int| 0 <= i < a2.len() implies m2.contains_key((#[trigger] a2[i]).0)
        && m2[a2[i].0] == a2[i].1 by {
        assert(a2[i] == a[i + 1]);
        assert(book::better(side, a[0].0, a[i + 1].0));
    }
    assert forall|k: i64| #[trigger] m2.contains_key(k) implies exists|i: int|
        0 <= i < a2.len() && (#[trigger] a2[i]).0 == k by {
        assert(m.contains_key(k));
        let i = choose|i: int| 0 <= i < a.len() && (#[trigger] a[i]).0 == k;
        assert(a2[i - 1] == a[i]);
    }
}

proof fn lemma_lists_len(side: Side, a: Seq<(i64, i64)>, m: Map<i64, i64>)
    requires
        lists(side, a, m),
    ensures
        m.dom().finite(),
        m.len() == a.len(),
    decreases a.len(),
{
    if a.len() == 0 {
        assert forall|k: i64| !m.contains_key(k) by {}
        assert(m.dom() =~= Set::<i64>::empty());
    } else {
        lemma_lists_rest(side, a, m);
        lemma_lists_len(side, a.drop_first(), m.remove(a[0].0));
        assert(m.contains_key(a[0].0));
        assert(m.dom() =~= m.remove(a[0].0).dom().insert(a[0].0));
    }
}

/// Listing the levels of a map is deterministic.
proof fn lemma_level_seq(side: Side, s: Seq<(i64, i64)>, m: Map<i64, i64>)
    requires
        lists(side, s, m),
    ensures
        level_seq(side, m) == s,
{
    lemma_lists_unique(side, level_seq(side, m), s, m);
}

/// Setting or removing a key of the map sets or removes the level.
proof fn lemma_lists_set(side: Side, s: Seq<(i64, i64)>, m: Map<i64, i64>, price: i64, qty: i64)
    requires
        lists(side, s, m),
    ensures
        lists(
            side,
            book::with_level(side, s, price, qty),
            if qty == 0 {
                m.remove(price)
            } else {
                m.insert(price, qty)
            },
        ),
{
    let t = book::with_level(side, s, price, qty);
    let m2 = if qty == 0 {
        m.remove(price)
    } else {
        m.insert(price, qty)
    };
    let k = book::rank(side, s, price);
    book::lemma_rank(side, s, price);
    book::lemma_with_level_in_order(side, s, price, qty);
    if m.contains_key(price) {
        let i = choose|i: int| 0 <= i < s.len() && (#[trigger] s[i]).0 == price;
        assert(i == k) by {
            if i > k {
                assert(book::better(side, s[k].0, s[i].0));
            }
        }
    }
    assert(book::has_level(side, s, price) == m.contains_key(price));
    assert forall|i: int| 0 <= i < t.len() implies m2.contains_key((#[trigger] t[i]).0)
        && m2[t[i].0] == t[i].1 by {
        if qty == 0 {
            if book::has_level(side, s, price) {
                let j = if i < k {
                    i
                } else {
                    i + 1
                };
                assert(t[i] == s[j]);
                assert(s[j].0 != price);
            } else {
                assert(t[i] == s[i]);
            }
        } else if book::has_level(side, s, price) {
            if i != k {
                assert(t[i] == s[i]);
                assert(s[i].0 != price);
            }
        } else {
            if i < k {
                assert(t[i] == s[i]);
            } else if i > k {
                assert(t[i] == s[i - 1]);
            }
        }
    }
    assert forall|q: i64| #[trigger] m2.contains_key(q) implies exists|i: int|
        0 <= i < t.len() && (#[trigger] t[i]).0 == q by {
        if q == price {
            assert(t[k].0 == q);
        } else {
            assert(m.contains_key(q));
            let i = choose|i: int| 0 <= i < s.len() && (#[trigger] s[i]).0 == q;
            let j = if book::has_level(side, s, price) && qty == 0 && i > k {
                i - 1
            } else if !book::has_level(side, s, price) && qty != 0 && i >= k {
                i + 1
            } else {
                i
            };
            assert(t[j] == s[i]);
        }
    }
}

/// Removing the worst level drops the last one of the list.
proof fn lemma_lists_drop_worst(side: Side, s: Seq<(i64, i64)>, m: Map<i64, i64>)
    requires
        lists(side, s, m),
        s.len() > 0,
    ensures
        lists(side, s.drop_last(), m.remove(s.last().0)),
{
    let n = s.len() - 1;
    book::lemma_rank_is(side, s, s[n].0, n);
    lemma_lists_set(side, s, m, s[n].0, 0);
    assert(s.remove(n) =~= s.drop_last());
}

/// `BTreeMap::first_key_value`: the pair with the smallest key.
#[verifier::external_body]
fn first_level(m: &BTreeMap<i64, i64>) -> (r: Option<(i64, i64)>)
    ensures
        match r {
            None => m@.dom() == Set::<i64>::empty(),
            Some(l) => m@.contains_key(l.0) && m@[l.0] == l.1 && forall|k: i64| #[trigger]
                m@.contains_key(k) ==> l.0 <= k,
        },
{
    m.first_key_value().map(|(p, q)| (*p, *q))
}

/// `BTreeMap::last_key_value`: the pair with the largest key.
#[verifier::external_body]
fn last_level(m: &BTreeMap<i64, i64>) -> (r: Option<(i64, i64)>)
    ensures
        match r {
            None => m@.dom() == Set::<i64>::empty(),
            Some(l) => m@.contains_key(l.0) && m@[l.0] == l.1 && forall|k: i64| #[trigger]
                m@.contains_key(k) ==> k <= l.0,
        },
{
    m.last_key_value().map(|(p, q)| (*p, *q))
}

/// `BTreeMap::pop_first`: removes the pair with the smallest key.
#[verifier::external_body]
fn pop_first_level(m: &mut BTreeMap<i64, i64>)
    requires
        old(m)@.len() > 0,
    ensures
        exists|p: i64|
            old(m)@.contains_key(p) && (forall|k: i64| #[trigger]
                old(m)@.contains_key(k) ==> p <= k) && final(m)@ == #[trigger] old(m)@.remove(p),
{
    m.pop_first();
}

/// `BTreeMap::pop_last`: removes the pair with the largest key.
#[verifier::external_body]
fn pop_last_level(m: &mut BTreeMap<i64, i64>)
    requires
        old(m)@.len() > 0,
    ensures
        exists|p: i64|
            old(m)@.contains_key(p) && (forall|k: i64| #[trigger]
                old(m)@.contains_key(k) ==> k <= p) && final(m)@ == #[trigger] old(m)@.remove(p),
{
    m.pop_last();
}

/// How many levels a map holds.
fn level_count(m: &BTreeMap<i64, i64>) -> (r: usize)
    ensures
        r == m@.len(),
{
    assert(vstd::std_specs::btree::key_obeys_cmp_spec::<i64>());
    m.len()
}

/// The best level of a side.
fn best(m: &BTreeMap<i64, i64>, side: Side) -> (r: Option<(i64, i64)>)
    requires
        lists(side, level_seq(side, m@), m@),
    ensures
        r == book::top(level_seq(side, m@)),
{
    let r: Option<(i64, i64)> = match side {
        Side::Bid => last_level(m),
        Side::Ask => first_level(m),
    };
    proof {
        let s = level_seq(side, m@);
        match r {
            None => {
                if s.len() > 0 {
                    assert(m@.contains_key(s[0].0));
                }
            },
            Some(l) => {
                let i = choose|i: int| 0 <= i < s.len() && (#[trigger] s[i]).0 == l.0;
                assert(m@.contains_key(s[0].0));
                if i > 0 {
                    assert(book::better(side, s[0].0, s[i].0));
                }
            },
        }
    }
    r
}

/// The pairs of a map by ascending key.
fn ascending(m: &BTreeMap<i64, i64>) -> (r: Vec<(i64, i64)>)
    ensures
        lists(Side::Ask, r@, m@),
{
    let mut up: Vec<(i64, i64)> = Vec::new();
    let it = m.iter();
    let ghost all: Seq<(&i64, &i64)> = vstd::std_specs::iter::IteratorSpec::remaining(&it);
    proof {
        assert(vstd::std_specs::btree::key_obeys_cmp_spec::<i64>());
        let keys = all.map_values(|kv: (&i64, &i64)| *kv.0);
        assert(vstd::std_specs::btree::increasing_seq(keys));
        vstd::std_specs::btree::axiom_increasing_seq_meaning(keys);
        assert forall|i: int, j: int| 0 <= i < j < all.len() implies *(#[trigger] all[i]).0 < *(
        #[trigger] all[j]).0 by {
            assert(keys[i] == *all[i].0 && keys[j] == *all[j].0);
            assert(vstd::std_specs::cmp::OrdSpec::cmp_spec(&keys[i], &keys[j]) is Less);
        }
        assert forall|i: int| 0 <= i < all.len() implies m@.contains_key(*(#[trigger] all[i]).0)
            && m@[*all[i].0] == *all[i].1 by {}
        assert forall|k: i64| #[trigger] m@.contains_key(k) implies exists|i: int|
            0 <= i < all.len() && *(#[trigger] all[i]).0 == k by {
            assert(all.contains((&k, &m@[k])));
        }
    }
    for e in iter: it
        invariant
            iter.seq() == all,
            up@.len() == iter.index(),
            forall|i: int| 0 <= i < up@.len() ==> up@[i] == (*all[i].0, *all[i].1),
    {
        up.push((*e.0, *e.1));
    }
    assert forall|k: i64| #[trigger] m@.contains_key(k) implies exists|i: int|
        0 <= i < up@.len() && (#[trigger] up@[i]).0 == k by {
        let i = choose|i: int| 0 <= i < all.len() && *(#[trigger] all[i]).0 == k;
        assert(up@[i].0 == k);
    }
    up
}

/// The levels of a side, best last.
fn best_last(m: &BTreeMap<i64, i64>, side: Side) -> (r: Vec<(i64, i64)>)
    ensures
        r@.reverse() == level_seq(side, m@),
{
    let up: Vec<(i64, i64)> = ascending(m);
    match side {
        Side::Bid => {
            proof {
                lemma_lists_reverse(up@, m@);
                lemma_level_seq(side, up@.reverse(), m@);
            }
            up
        },
        Side::Ask => {
            let mut down: Vec<(i64, i64)> = Vec::new();
            let mut i: usize = up.len();
            while i > 0
                invariant
                    i <= up@.len(),
                    down@ =~= up@.subrange(i as int, up@.len() as int).reverse(),
                decreases i,
            {
                i -= 1;
                down.push(up[i]);
            }
            proof {
                assert(down@.reverse() =~= up@);
                lemma_level_seq(side, up@, m@);
            }
            down
        },
    }
}

proof fn lemma_lists_reverse(a: Seq<(i64, i64)>, m: Map<i64, i64>)
    requires
        lists(Side::Ask, a, m),
    ensures
        lists(Side::Bid, a.reverse(), m),
{
    let r = a.reverse();
    assert forall|i: int, j: int| 0 <= i < j < r.len() implies book::better(
        Side::Bid,
        (#[trigger] r[i]).0,
        (#[trigger] r[j]).0,
    ) by {
        assert(r[i] == a[a.len() - 1 - i] && r[j] == a[a.len() - 1 - j]);
    }
    assert forall|k: i64| #[trigger] m.contains_key(k) implies exists|i: int|
        0 <= i < r.len() && (#[trigger] r[i]).0 == k by {
        let i = choose|i: int| 0 <= i < a.len() && (#[trigger] a[i]).0 == k;
        assert(r[a.len() - 1 - i] == a[i]);
    }
}

/// Drop the worst levels of a side until `cap` of them are left.
fn truncate(m: &mut BTreeMap<i64, i64>, side: Side, cap: Option<usize>)
    requires
        lists(side, level_seq(side, old(m)@), old(m)@),
    ensures
        lists(side, level_seq(side, final(m)@), final(m)@),
        level_seq(side, final(m)@) == book::capped(level_seq(side, old(m)@), cap),
{
    let ghost s: Seq<(i64, i64)> = level_seq(side, m@);
    match cap {
        Some(n) => {
            proof {
                lemma_lists_len(side, s, m@);
                assert(s.take(s.len() as int) =~= s);
            }
            while level_count(m) > n
                invariant
                    lists(side, s.take(m@.len() as int), m@),
                    m@.len() <= s.len(),
                    m@.len() < s.len() ==> m@.len() >= n,
                decreases m@.len(),
            {
                let ghost m0: Map<i64, i64> = m@;
                let ghost t: Seq<(i64, i64)> = s.take(m0.len() as int);
                match side {
                    Side::Bid => pop_first_level(m),
                    Side::Ask => pop_last_level(m),
                }
                proof {
                    let p = choose|p: i64|
                        m0.contains_key(p) && (forall|k: i64| #[trigger]
                            m0.contains_key(k) ==> p == k || book::better(side, k, p)) && m@
                            == #[trigger] m0.remove(p);
                    let i = choose|i: int| 0 <= i < t.len() && (#[trigger] t[i]).0 == p;
                    let w = t[t.len() - 1];
                    assert(m0.contains_key(w.0));
                    if i < t.len() - 1 {
                        assert(book::better(side, t[i].0, w.0));
                    }
                    lemma_lists_drop_worst(side, t, m0);
                    lemma_lists_len(side, t.drop_last(), m@);
                    assert(t.drop_last() =~= s.take(m@.len() as int));
                }
            }
            proof {
                lemma_level_seq(side, s.take(m@.len() as int), m@);
                assert(s.take(s.len() as int) =~= s);
            }
        },
        None => {},
    }
}

/// Set/replace/delete (qty 0) a level of one side.
fn set_side(
    m: &mut BTreeMap<i64, i64>,
    side: Side,
    price: i64,
    qty: i64,
    cap: Option<usize>,
) -> (top_changed: bool)
    requires
        lists(side, level_seq(side, old(m)@), old(m)@),
    ensures
        lists(side, level_seq(side, final(m)@), final(m)@),
        level_seq(side, final(m)@) == book::capped(
            book::with_level(side, level_seq(side, old(m)@), price, qty),
            cap,
        ),
        top_changed == (book::top(level_seq(side, old(m)@)) != book::top(
            level_seq(side, final(m)@),
        )),
{
    let before: Option<(i64, i64)> = best(m, side);
    proof {
        let s = level_seq(side, m@);
        lemma_lists_set(side, s, m@, price, qty);
        let m2 = if qty == 0 {
            m@.remove(price)
        } else {
            m@.insert(price, qty)
        };
        lemma_level_seq(side, book::with_level(side, s, price, qty), m2);
    }
    if qty == 0 {
        m.remove(&price);
    } else {
        m.insert(price, qty);
    }
    truncate(m, side, cap);
    let after: Option<(i64, i64)> = best(m, side);
    ladder::levels_differ(before, after)
}

proof fn lemma_lists_empty(side: Side)
    ensures
        lists(side, Seq::<(i64, i64)>::empty(), Map::<i64, i64>::empty()),
        level_seq(side, Map::<i64, i64>::empty()) == Seq::<(i64, i64)>::empty(),
{
    lemma_level_seq(side, Seq::<(i64, i64)>::empty(), Map::<i64, i64>::empty());
}

impl Default for BTreeBook {
    fn default() -> (r: Self)
        ensures
            r.wf(),
            r.state() == BookState::fresh(None),
    {
        BTreeBook::new()
    }
}

impl BTreeBook {
    /// Unlimited-depth book.
    pub fn new() -> (r: Self)
        ensures
            r.wf(),
            r.state() == BookState::fresh(None),
    {
        proof {
            lemma_lists_empty(Side::Bid);
            lemma_lists_empty(Side::Ask);
        }
        BTreeBook {
            bids: BTreeMap::new(),
            asks: BTreeMap::new(),
            state: SyncState::Unsynced,
            dropped: 0,
            max_depth: None,
        }
    }

    /// Book maintained at `n` levels per side: after every mutation the
    /// worst levels beyond `n` are dropped (Kraken v2 depth semantics).
    pub fn with_max_depth(n: usize) -> (r: Self)
        ensures
            r.wf(),
            r.state() == BookState::fresh(Some(n)),
    {
        let mut r = BTreeBook::new();
        r.max_depth = Some(n);
        r
    }
}

impl LevelOps for BTreeBook {
    closed spec fn ops_wf(&self) -> bool {
        lists(Side::Bid, level_seq(Side::Bid, self.bids@), self.bids@) && lists(
            Side::Ask,
            level_seq(Side::Ask, self.asks@),
            self.asks@,
        )
    }

    closed spec fn book(&self) -> BookState {
        BookState {
            bids: level_seq(Side::Bid, self.bids@),
            asks: level_seq(Side::Ask, self.asks@),
            sync: self.state,
            dropped: self.dropped,
            cap: self.max_depth,
        }
    }

    fn set_level(&mut self, side: Side, price: i64, qty: i64) -> (top_changed: bool) {
        match side {
            Side::Bid => set_side(&mut self.bids, side, price, qty, self.max_depth),
            Side::Ask => set_side(&mut self.asks, side, price, qty, self.max_depth),
        }
    }

    fn clear_levels(&mut self) {
        proof {
            lemma_lists_empty(Side::Bid);
            lemma_lists_empty(Side::Ask);
        }
        self.bids.clear();
        self.asks.clear();
    }
}

impl L2Book for BTreeBook {
    closed spec fn wf(&self) -> bool {
        self.ops_wf()
    }

    closed spec fn state(&self) -> BookState {
        self.book()
    }

    fn apply(&mut self, ev: &Event) -> (r: Apply) {
        let mut state: SyncState = self.state;
        let mut dropped: u64 = self.dropped;
        let r = book::apply_common(self, &mut state, &mut dropped, ev);
        self.state = state;
        self.dropped = dropped;
        r
    }

    fn best_bid(&self) -> (r: Option<(i64, i64)>) {
        best(&self.bids, Side::Bid)
    }

    fn best_ask(&self) -> (r: Option<(i64, i64)>) {
        best(&self.asks, Side::Ask)
    }

    fn depth(&self, side: Side) -> (r: usize) {
            proof {
            lemma_lists_len(Side::Bid, level_seq(Side::Bid, self.bids@), self.bids@);
            lemma_lists_len(Side::Ask, level_seq(Side::Ask, self.asks@), self.asks@);
        }
        match side {
            Side::Bid => level_count(&self.bids),
            Side::Ask => level_count(&self.asks),
        }
    }

    fn top_n_into(&self, side: Side, n: usize, out: &mut Vec<(i64, i64)>) {
        let v: Vec<(i64, i64)> = match side {
            Side::Bid => best_last(&self.bids, side),
            Side::Ask => best_last(&self.asks, side),
        };
        ladder::copy_best(v.as_slice(), n, out)
    }

    fn clear(&mut self) {
        self.clear_levels();
        self.state = SyncState::Unsynced;
    }

    fn is_synced(&self) -> (r: bool) {
        self.state == SyncState::Synced
    }

    fn dropped_unsynced(&self) -> (r: u64) {
        self.dropped
    }

    fn state_digest(&self) -> (r: u64) {
        let asks: Vec<(i64, i64)> = best_last(&self.asks, Side::Ask);
        let bids: Vec<(i64, i64)> = best_last(&self.bids, Side::Bid);
        book::digest_from_levels(
            asks.as_slice(),
            bids.as_slice(),
            self.state == SyncState::Synced,
        )
    }
}

} // verus!
