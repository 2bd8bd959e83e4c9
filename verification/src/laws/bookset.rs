//! Laws of sets of books.
use crate::book;
use crate::book::BookState;
use crate::bookset;
use crate::event::Event;
use vstd::bytes::*;
use vstd::prelude::*;

verus! {

/// An event goes to the book of its instrument alone, which is made where
/// there is none: that book takes the step that it would take on its own, and
/// every other book is as it was.
pub proof fn lemma_event_is_routed(
    m: Map<u32, BookState>,
    cap: Option<usize>,
    ev: Event,
    other: u32,
)
    ensures
        ({
            let (n, r) = bookset::set_step(m, cap, ev);
            let id = ev.instrument;
            &&& n.contains_key(id)
            &&& m.contains_key(id) ==> (n[id], r) == m[id].step(ev)
            &&& !m.contains_key(id) ==> (n[id], r) == BookState::fresh(cap).step(ev)
            &&& other != id ==> n.contains_key(other) == m.contains_key(other)
            &&& other != id && m.contains_key(other) ==> n[other] == m[other]
        }),
{
}

/// The bytes of a set: twelve for each book, its id and its digest,
/// little-endian, in the order of the ids.
pub proof fn lemma_set_bytes_layout(ids: Seq<u32>, m: Map<u32, BookState>, i: int)
    requires
        0 <= i < ids.len(),
    ensures
        bookset::set_bytes(ids, m).len() == 12 * ids.len(),
        spec_u32_from_le_bytes(bookset::set_bytes(ids, m).subrange(12 * i, 12 * i + 4)) == ids[i],
        spec_u64_from_le_bytes(bookset::set_bytes(ids, m).subrange(12 * i + 4, 12 * i + 12))
            == m[ids[i]].digest(),
    decreases ids.len(),
{
    lemma_auto_spec_u32_to_from_le_bytes();
    lemma_auto_spec_u64_to_from_le_bytes();
    let t = ids.drop_last();
    let b = bookset::set_bytes(ids, m);
    if t.len() == 0 {
        assert(bookset::set_bytes(t, m).len() == 0);
    } else {
        lemma_set_bytes_layout(t, m, 0);
    }
    let n = 12 * t.len() as int;
    if i == t.len() {
        assert(b.subrange(n, n + 4) =~= spec_u32_to_le_bytes(ids[i]));
        assert(b.subrange(n + 4, n + 12) =~= spec_u64_to_le_bytes(m[ids[i]].digest()));
    } else {
        lemma_set_bytes_layout(t, m, i);
        let c = bookset::set_bytes(t, m);
        assert(b.subrange(12 * i, 12 * i + 4) =~= c.subrange(12 * i, 12 * i + 4));
        assert(b.subrange(12 * i + 4, 12 * i + 12) =~= c.subrange(12 * i + 4, 12 * i + 12));
    }
}

/// The bytes of a set determine which books it has and the digest of each of
/// them.
pub proof fn lemma_set_bytes_injective(
    ids: Seq<u32>,
    m: Map<u32, BookState>,
    ids2: Seq<u32>,
    m2: Map<u32, BookState>,
)
    requires
        bookset::set_bytes(ids, m) == bookset::set_bytes(ids2, m2),
    ensures
        ids == ids2,
        forall|i: int|
            0 <= i < ids.len() ==> m[#[trigger] ids[i]].digest() == m2[ids[i]].digest(),
{
    assert(bookset::set_bytes(Seq::<u32>::empty(), m).len() == 0);
    if ids.len() > 0 {
        lemma_set_bytes_layout(ids, m, 0);
    }
    if ids2.len() > 0 {
        lemma_set_bytes_layout(ids2, m2, 0);
    }
    assert(ids.len() == ids2.len());
    assert forall|i: int| 0 <= i < ids.len() implies #[trigger] ids[i] == ids2[i]
        && m[ids[i]].digest() == m2[ids[i]].digest() by {
        lemma_set_bytes_layout(ids, m, i);
        lemma_set_bytes_layout(ids2, m2, i);
    }
    assert(ids =~= ids2);
}

/// The digest of a set covers all its books by ascending id: where `ids`
/// ascend and are those of the set, it is FNV-1a over their bytes.
pub proof fn lemma_set_digest_covers(ids: Seq<u32>, m: Map<u32, BookState>)
    requires
        forall|i: int, j: int| 0 <= i < j < ids.len() ==> #[trigger] ids[i] < #[trigger] ids[j],
        forall|k: u32| #[trigger] m.contains_key(k) <==> ids.contains(k),
    ensures
        bookset::set_digest(m) == book::fnv(
            0xcbf2_9ce4_8422_2325,
            bookset::set_bytes(ids, m),
        ),
{
    assert forall|i: int| 0 <= i < ids.len() implies m.dom().contains(#[trigger] ids[i]) by {
        assert(ids.contains(ids[i]));
        assert(m.contains_key(ids[i]));
    }
    assert forall|k: u32| #[trigger] m.dom().contains(k) implies ids.contains(k) by {
        assert(m.contains_key(k));
    }
    assert(bookset::lists_ids(ids, m.dom()));
    let c = choose|c: Seq<u32>| bookset::lists_ids(c, m.dom());
    bookset::lemma_lists_ids_unique(ids, c, m.dom());
}

/// The events of an instrument are those that name it, in their order.
pub proof fn lemma_events_of(a: Seq<Event>, b: Seq<Event>, e: Event, id: u32)
    ensures
        bookset::events_of(Seq::empty(), id).len() == 0,
        e.instrument == id ==> bookset::events_of(seq![e], id) == seq![e],
        e.instrument != id ==> bookset::events_of(seq![e], id).len() == 0,
        bookset::events_of(a + b, id) == bookset::events_of(a, id) + bookset::events_of(b, id),
    decreases b.len(),
{
    let none = Seq::<Event>::empty();
    assert(seq![e].drop_last() =~= none);
    assert(bookset::events_of(none, id) =~= none);
    assert(none.push(e) =~= seq![e]);
    if b.len() == 0 {
        assert(a + b =~= a);
        assert(bookset::events_of(a, id) + none =~= bookset::events_of(a, id));
    } else {
        lemma_events_of(a, b.drop_last(), e, id);
        assert((a + b).drop_last() =~= a + b.drop_last());
        assert(bookset::events_of(a + b, id) =~= bookset::events_of(a, id) + bookset::events_of(
            b,
            id,
        ));
    }
}

/// The empty run leaves the books as they are, and a run applies its events
/// one behind the other.
pub proof fn lemma_set_run_stepwise(
    m: Map<u32, BookState>,
    cap: Option<usize>,
    evs: Seq<Event>,
    ev: Event,
)
    ensures
        bookset::set_run(m, cap, Seq::empty()) == m,
        bookset::set_run(m, cap, evs.push(ev)) == bookset::set_step(
            bookset::set_run(m, cap, evs),
            cap,
            ev,
        ).0,
{
    assert(evs.push(ev).drop_last() =~= evs);
}

} // verus!
