//! [`BookSet`]: routes a multi-instrument event stream to per-instrument
//! books.
use crate::book;
use crate::book::{Apply, BookState, Fnv, L2Book};
use crate::event::Event;
use crate::order;
use std::collections::HashMap;
use vstd::bytes::*;
use vstd::prelude::*;

verus! {

broadcast use vstd::std_specs::hash::group_hash_axioms;

/// Routes events to per-instrument books, creating them on first sight.
#[verifier::reject_recursive_types(B)]
pub struct BookSet<B: L2Book, F: Fn(Option<usize>) -> B> {
    books: HashMap<u32, B>,
    /// Per-side depth cap applied to newly created books (venue depth
    /// semantics, e.g. Kraken v2 book@depth=100). `None` = unlimited.
    default_max_depth: Option<usize>,
    make: F,
}

/// `make` builds a fresh book of the depth that it is given.
pub open spec fn makes_books<B: L2Book, F: Fn(Option<usize>) -> B>(make: F) -> bool {
    &&& forall|d: Option<usize>| #[trigger] call_requires(make, (d,))
    &&& forall|d: Option<usize>, b: B| #[trigger]
        call_ensures(make, (d,), b) ==> b.wf() && b.state() == BookState::fresh(d)
}

/// What one event does to the books of a set, and what it reports.
pub open spec fn set_step(m: Map<u32, BookState>, cap: Option<usize>, ev: Event) -> (
    Map<u32, BookState>,
    Apply,
) {
    let b = if m.contains_key(ev.instrument) {
        m[ev.instrument]
    } else {
        BookState::fresh(cap)
    };
    (m.insert(ev.instrument, b.step(ev).0), b.step(ev).1)
}

/// `s` lists the ids of `d`, ascending, each once.
pub open spec fn lists_ids(s: Seq<u32>, d: Set<u32>) -> bool {
    &&& forall|i: int, j: int| 0 <= i < j < s.len() ==> (#[trigger] s[i]) < (#[trigger] s[j])
    &&& forall|i: int| 0 <= i < s.len() ==> d.contains(#[trigger] s[i])
    &&& forall|k: u32| #[trigger] d.contains(k) ==> s.contains(k)
}

/// Only one sequence lists the ids of a set.
pub proof fn lemma_lists_ids_unique(a: Seq<u32>, b: Seq<u32>, d: Set<u32>)
    requires
        lists_ids(a, d),
        lists_ids(b, d),
    ensures
        a == b,
    decreases a.len(),
{
    if a.len() == 0 {
        if b.len() > 0 {
            assert(d.contains(b[0]));
        }
        assert(a =~= b);
    } else {
        assert(d.contains(a[0]));
        assert(b.contains(a[0]));
        let j = choose|j: int| 0 <= j < b.len() && b[j] == a[0];
        assert(d.contains(b[0]));
        assert(a.contains(b[0]));
        let i = choose|i: int| 0 <= i < a.len() && a[i] == b[0];
        assert(j == 0) by {
            if j > 0 {
                assert(b[0] < b[j]);
                if i > 0 {
                    assert(a[0] < a[i]);
                }
            }
        }
        lemma_lists_ids_rest(a, d);
        lemma_lists_ids_rest(b, d);
        lemma_lists_ids_unique(a.drop_first(), b.drop_first(), d.remove(a[0]));
        assert(a =~= seq![a[0]] + a.drop_first());
        assert(b =~= seq![b[0]] + b.drop_first());
    }
}

proof fn lemma_lists_ids_rest(a: Seq<u32>, d: Set<u32>)
    requires
        lists_ids(a, d),
        a.len() > 0,
    ensures
        lists_ids(a.drop_first(), d.remove(a[0])),
{
    let a2 = a.drop_first();
    assert forall|i: int, j: int| 0 <= i < j < a2.len() implies (#[trigger] a2[i]) < (
    #[trigger] a2[j]) by {
        assert(a2[i] == a[i + 1] && a2[j] == a[j + 1]);
    }
    assert forall|i: int| 0 <= i < a2.len() implies d.remove(a[0]).contains(#[trigger] a2[i]) by {
        assert(a2[i] == a[i + 1]);
        assert(a[0] < a[i + 1]);
    }
    assert forall|k: u32| #[trigger] d.remove(a[0]).contains(k) implies a2.contains(k) by {
        assert(a.contains(k));
        let i = choose|i: int| 0 <= i < a.len() && a[i] == k;
        assert(a2[i - 1] == k);
    }
}

/// The bytes of each book of `ids`: its id and its digest, little-endian.
pub open spec fn set_bytes(ids: Seq<u32>, m: Map<u32, BookState>) -> Seq<u8>
    decreases ids.len(),
{
    if ids.len() == 0 {
        Seq::empty()
    } else {
        set_bytes(ids.drop_last(), m) + spec_u32_to_le_bytes(ids.last()) + spec_u64_to_le_bytes(
            m[ids.last()].digest(),
        )
    }
}

/// The digest of a set of books: FNV-1a over their digests, by ascending id.
pub open spec fn set_digest(m: Map<u32, BookState>) -> u64 {
    let ids = choose|ids: Seq<u32>| lists_ids(ids, m.dom());
    book::fnv(book::FNV_BASIS, set_bytes(ids, m))
}

/// What a run of events leaves of the books of a set.
pub open spec fn set_run(m: Map<u32, BookState>, cap: Option<usize>, evs: Seq<Event>) -> Map<
    u32,
    BookState,
>
    decreases evs.len(),
{
    if evs.len() == 0 {
        m
    } else {
        set_step(set_run(m, cap, evs.drop_last()), cap, evs.last()).0
    }
}

/// The events of one instrument, in their order.
pub open spec fn events_of(evs: Seq<Event>, id: u32) -> Seq<Event>
    decreases evs.len(),
{
    if evs.len() == 0 {
        Seq::empty()
    } else if evs.last().instrument == id {
        events_of(evs.drop_last(), id).push(evs.last())
    } else {
        events_of(evs.drop_last(), id)
    }
}

/// Each book of a set goes through the events of its own instrument, and no
/// others: a set has the books that it had and those of the instruments that
/// the events name.
pub proof fn lemma_set_run(m: Map<u32, BookState>, cap: Option<usize>, evs: Seq<Event>, id: u32)
    ensures
        set_run(m, cap, evs).contains_key(id) <==> m.contains_key(id) || events_of(evs, id).len()
            > 0,
        set_run(m, cap, evs).contains_key(id) ==> set_run(m, cap, evs)[id] == (if m.contains_key(
            id,
        ) {
            m[id]
        } else {
            BookState::fresh(cap)
        }).run(events_of(evs, id)),
    decreases evs.len(),
{
    if evs.len() > 0 {
        lemma_set_run(m, cap, evs.drop_last(), id);
        let own = events_of(evs, id);
        if evs.last().instrument == id {
            assert(own.drop_last() =~= events_of(evs.drop_last(), id));
            if !set_run(m, cap, evs.drop_last()).contains_key(id) {
                assert(own.drop_last() =~= Seq::<Event>::empty());
            }
        }
    }
}

/// How the events of different instruments interleave makes no difference:
/// two streams with the same events in the same order for each instrument
/// leave the same books, and the same combined digest.
pub proof fn lemma_interleaving(
    m: Map<u32, BookState>,
    cap: Option<usize>,
    xs: Seq<Event>,
    ys: Seq<Event>,
)
    requires
        forall|id: u32| #[trigger] events_of(xs, id) == events_of(ys, id),
    ensures
        set_run(m, cap, xs) == set_run(m, cap, ys),
        set_digest(set_run(m, cap, xs)) == set_digest(set_run(m, cap, ys)),
{
    let (a, b) = (set_run(m, cap, xs), set_run(m, cap, ys));
    assert forall|id: u32|
        #[trigger] a.contains_key(id) == b.contains_key(id) && (a.contains_key(id) ==> a[id] == b[id]) by {
        lemma_set_run(m, cap, xs, id);
        lemma_set_run(m, cap, ys, id);
        assert(events_of(xs, id) == events_of(ys, id));
    }
    assert(a.dom() =~= b.dom());
    assert(a =~= b);
}

impl<B: L2Book, F: Fn(Option<usize>) -> B> BookSet<B, F> {
    /// The state of each book that was made.
    pub closed spec fn states(&self) -> Map<u32, BookState> {
        self.books@.map_values(|b: B| b.state())
    }

    /// The books themselves.
    pub closed spec fn all(&self) -> Map<u32, B> {
        self.books@
    }

    /// The depth of new books.
    pub closed spec fn cap(&self) -> Option<usize> {
        self.default_max_depth
    }

    /// Every book is sound, and so is the way in which books are made.
    pub closed spec fn wf(&self) -> bool {
        &&& makes_books::<B, F>(self.make)
        &&& forall|k: u32| #[trigger] self.books@.contains_key(k) ==> self.books@[k].wf()
    }

    /// Every book can still count a dropped event.
    pub open spec fn can_count(&self) -> bool {
        forall|k: u32| #[trigger]
            self.states().contains_key(k) ==> self.states()[k].dropped < u64::MAX
    }

    /// New set; `make` builds a book given the optional depth cap.
    pub fn new(default_max_depth: Option<usize>, make: F) -> (r: Self)
        requires
            makes_books::<B, F>(make),
        ensures
            r.wf(),
            r.states() == Map::<u32, BookState>::empty(),
            r.cap() == default_max_depth,
    {
        let r = BookSet { books: HashMap::new(), default_max_depth, make };
        assert(r.states() =~= Map::<u32, BookState>::empty());
        r
    }

    /// Apply an event to its instrument's book.
    pub fn apply(&mut self, ev: &Event) -> (r: Apply)
        requires
            old(self).wf(),
            old(self).can_count(),
        ensures
            final(self).wf(),
            final(self).cap() == old(self).cap(),
            (final(self).states(), r) == set_step(old(self).states(), old(self).cap(), *ev),
    {
        let id: u32 = ev.instrument;
        assert(self.states().contains_key(id) == self.books@.contains_key(id));
        let mut b: B = match self.books.remove(&id) {
            Some(b) => b,
            None => (self.make)(self.default_max_depth),
        };
        let r = b.apply(ev);
        self.books.insert(id, b);
        assert(self.states() =~= old(self).states().insert(id, b.state()));
        r
    }

    /// The book for an instrument, if any events have been seen.
    pub fn get(&self, instrument: u32) -> (r: Option<&B>)
        requires
            self.wf(),
        ensures
            match r {
                Some(b) => self.all().contains_key(instrument) && *b == self.all()[instrument]
                    && b.wf() && b.state() == self.states()[instrument],
                None => !self.states().contains_key(instrument),
            },
    {
        self.books.get(&instrument)
    }

    /// Number of instruments seen.
    pub fn len(&self) -> (r: usize)
        ensures
            r == self.states().len(),
    {
        assert(self.states().dom() =~= self.books@.dom());
        self.books.len()
    }

    /// True if no instruments seen.
    pub fn is_empty(&self) -> (r: bool)
        ensures
            r == (self.states().dom() == Set::<u32>::empty()),
    {
        assert(self.states().dom() =~= self.books@.dom());
        self.books.is_empty()
    }

    /// The (instrument, book) pairs, in no particular order.
    pub fn iter(&self) -> (r: Vec<(u32, &B)>)
        ensures
            forall|i: int|
                0 <= i < r@.len() ==> self.all().contains_key((#[trigger] r@[i]).0) && *r@[i].1
                    == self.all()[r@[i].0],
            forall|k: u32| #[trigger]
                self.all().contains_key(k) ==> exists|i: int|
                    0 <= i < r@.len() && (#[trigger] r@[i]).0 == k,
            forall|i: int, j: int|
                0 <= i < j < r@.len() ==> (#[trigger] r@[i]).0 != (#[trigger] r@[j]).0,
    {
        let mut out: Vec<(u32, &B)> = Vec::new();
        let it = self.books.iter();
        let ghost all: Seq<(&u32, &B)> = vstd::std_specs::iter::IteratorSpec::remaining(&it);
        for e in iter: it
            invariant
                iter.seq() == all,
                out@.len() == iter.index(),
                forall|i: int| 0 <= i < out@.len() ==> out@[i] == (*all[i].0, all[i].1),
        {
            out.push((*e.0, e.1));
        }
        proof {
            assert forall|k: u32| #[trigger] self.all().contains_key(k) implies exists|i: int|
                0 <= i < out@.len() && (#[trigger] out@[i]).0 == k by {
                assert(all.contains((&k, &self.books@[k])));
                let i = choose|i: int| 0 <= i < all.len() && all[i] == (&k, &self.books@[k]);
                assert(out@[i].0 == k);
            }
            assert forall|i: int, j: int| 0 <= i < j < out@.len() implies (#[trigger] out@[i]).0
                != (#[trigger] out@[j]).0 by {
                assert(self.books@[*all[i].0] == *all[i].1);
                assert(self.books@[*all[j].0] == *all[j].1);
                assert(all[i] != all[j]);
            }
        }
        out
    }

    /// The instruments seen, ascending.
    fn ids(&self) -> (r: Vec<u64>)
        ensures
            lists_ids(r@.map_values(|x: u64| x as u32), self.states().dom()),
            forall|i: int| 0 <= i < r@.len() ==> #[trigger] r@[i] <= u32::MAX,
    {
        let pairs: Vec<(u32, &B)> = self.iter();
        let mut ids: Vec<u64> = Vec::new();
        let mut i: usize = 0;
        while i < pairs.len()
            invariant
                i <= pairs.len(),
                ids@.len() == i,
                forall|k: int| 0 <= k < i ==> #[trigger] ids@[k] == pairs@[k].0 as u64,
            decreases pairs.len() - i,
        {
            ids.push(pairs[i].0 as u64);
            i += 1;
        }
        let ghost raw: Seq<u64> = ids@;
        order::sort_numbers(&mut ids);
        proof {
            let d = self.states().dom();
            assert(d =~= self.books@.dom());
            assert(raw.no_duplicates()) by {
                assert forall|i: int, j: int|
                    0 <= i < raw.len() && 0 <= j < raw.len() && i != j implies raw[i] != raw[j] by {
                    if i < j {
                        assert(pairs@[i].0 != pairs@[j].0);
                    } else {
                        assert(pairs@[j].0 != pairs@[i].0);
                    }
                }
            }
            raw.lemma_multiset_has_no_duplicates();
            ids@.lemma_multiset_has_no_duplicates_conv();
            broadcast use vstd::seq_lib::group_to_multiset_ensures;

            let s = ids@.map_values(|x: u64| x as u32);
            assert forall|x: u64| ids@.contains(x) == raw.contains(x) by {
                assert(ids@.to_multiset().count(x) == raw.to_multiset().count(x));
            }
            assert forall|i: int| 0 <= i < ids@.len() implies #[trigger] ids@[i] <= u32::MAX by {
                assert(ids@.contains(ids@[i]));
                assert(raw.contains(ids@[i]));
                let k = choose|k: int| 0 <= k < raw.len() && raw[k] == ids@[i];
                assert(raw[k] == pairs@[k].0 as u64);
            }
            assert forall|i: int, j: int| 0 <= i < j < s.len() implies (#[trigger] s[i]) < (
            #[trigger] s[j]) by {
                assert(ids@[i] <= ids@[j] && ids@[i] != ids@[j]);
            }
            assert forall|i: int| 0 <= i < s.len() implies d.contains(#[trigger] s[i]) by {
                assert(ids@.contains(ids@[i]));
                assert(raw.contains(ids@[i]));
                let k = choose|k: int| 0 <= k < raw.len() && raw[k] == ids@[i];
                assert(raw[k] == pairs@[k].0 as u64);
                assert(self.all().contains_key(pairs@[k].0));
            }
            assert forall|k: u32| #[trigger] d.contains(k) implies s.contains(k) by {
                assert(self.all().contains_key(k));
                let i = choose|i: int| 0 <= i < pairs@.len() && (#[trigger] pairs@[i]).0 == k;
                assert(raw[i] == k as u64);
                assert(raw.contains(k as u64));
                assert(ids@.contains(k as u64));
                let j = choose|j: int| 0 <= j < ids@.len() && ids@[j] == k as u64;
                assert(s[j] == k);
            }
        }
        ids
    }

    /// Deterministic digest across all books: fold per-instrument digests
    /// in ascending instrument order.
    pub fn combined_digest(&self) -> (r: u64)
        requires
            self.wf(),
        ensures
            r == set_digest(self.states()),
    {
        let ids: Vec<u64> = self.ids();
        let ghost s: Seq<u32> = ids@.map_values(|x: u64| x as u32);
        let ghost m: Map<u32, BookState> = self.states();
        let mut h: Fnv = Fnv::default();
        let mut i: usize = 0;
        assert(set_bytes(s.take(0), m) =~= Seq::<u8>::empty());
        while i < ids.len()
            invariant
                i <= ids.len(),
                s == ids@.map_values(|x: u64| x as u32),
                m == self.states(),
                self.wf(),
                lists_ids(s, m.dom()),
                forall|i: int| 0 <= i < ids@.len() ==> #[trigger] ids@[i] <= u32::MAX,
                h.0 == book::fnv(book::FNV_BASIS, set_bytes(s.take(i as int), m)),
            decreases ids.len() - i,
        {
            let id: u32 = ids[i] as u32;
            assert(s[i as int] == id);
            assert(m.dom().contains(id));
            match self.get(id) {
                Some(b) => {
                    let idb: Vec<u8> = u32_to_le_bytes(id);
                    h.write(idb.as_slice());
                    let db: Vec<u8> = u64_to_le_bytes(b.state_digest());
                    h.write(db.as_slice());
                    proof {
                        let t = s.take(i + 1);
                        assert(t.drop_last() =~= s.take(i as int));
                        let a = set_bytes(t.drop_last(), m);
                        book::lemma_fnv_concat(book::FNV_BASIS, a, idb@);
                        book::lemma_fnv_concat(book::FNV_BASIS, a + idb@, db@);
                    }
                },
                None => {},
            }
            i += 1;
        }
        proof {
            assert(s.take(i as int) =~= s);
            let c = choose|ids: Seq<u32>| lists_ids(ids, m.dom());
            lemma_lists_ids_unique(s, c, m.dom());
        }
        h.0
    }
}

} // verus!
