//! What the stores of a producer come to for the loads of a consumer.
//!
//! A load gives what the memory holds after some of the producer's stores:
//! the [`cell`] of its slot, or the [`head_after`] them. How many of the
//! stores that are is the moment of the load, and the loads of one poll are
//! made one after the other.
use super::access::Access;
use super::words;
use super::{Producer, Recv};
use crate::event::Event;
use vstd::arithmetic::power2::*;
use vstd::prelude::*;

verus! {

/// The slot of the sequence `s` in a ring of `2^shift` slots.
pub open spec fn slot_of(s: u64, shift: u32) -> usize {
    (s as nat % pow2(shift as nat)) as usize
}

/// The accesses to the words of a slot, in their order.
pub open spec fn word_accesses(at: usize, w: Seq<u64>) -> Seq<Access> {
    Seq::new(w.len(), |k: int| Access::Word { at, k: k as usize, w: w[k] })
}

/// What is stored to publish an event with the sequence `s`: the odd version
/// of the slot, the words of the event, the even version, and the head behind
/// the event.
pub open spec fn publication(s: u64, shift: u32, ev: Event) -> Seq<Access> {
    let at = slot_of(s, shift);
    let done = super::expected(s, shift);
    seq![Access::Version { at, v: (done - 1) as u64 }] + word_accesses(at, words::words_of(ev))
        + seq![Access::Version { at, v: done }, Access::Head { n: (s + 1) as u64 }]
}

/// What is stored to publish the events `evs` from the sequence 0 on.
pub open spec fn publications(evs: Seq<Event>, shift: u32) -> Seq<Access>
    decreases evs.len(),
{
    if evs.len() == 0 {
        Seq::empty()
    } else {
        publications(evs.drop_last(), shift) + publication(
            (evs.len() - 1) as u64,
            shift,
            evs.last(),
        )
    }
}

/// What a slot holds.
pub struct Cell {
    pub version: u64,
    pub words: Seq<u64>,
}

/// What the slot `at` holds after the stores `log`. It was all zeros before.
pub open spec fn cell(log: Seq<Access>, at: usize) -> Cell
    decreases log.len(),
{
    if log.len() == 0 {
        Cell { version: 0, words: Seq::new(8, |k: int| 0u64) }
    } else {
        let c = cell(log.drop_last(), at);
        match log.last() {
            Access::Version { at: i, v } => if i == at {
                Cell { version: v, ..c }
            } else {
                c
            },
            Access::Word { at: i, k, w } => if i == at && k < 8 {
                Cell { words: c.words.update(k as int, w), ..c }
            } else {
                c
            },
            Access::Head { .. } => c,
        }
    }
}

/// What the head counter holds after the stores `log`. It was zero before.
pub open spec fn head_after(log: Seq<Access>) -> u64
    decreases log.len(),
{
    if log.len() == 0 {
        0
    } else {
        match log.last() {
            Access::Head { n } => n,
            _ => head_after(log.drop_last()),
        }
    }
}

/// The load `a` gives what the memory holds after the stores `log`.
pub open spec fn gives(log: Seq<Access>, a: Access) -> bool {
    match a {
        Access::Version { at, v } => cell(log, at).version == v,
        Access::Word { at, k, w } => cell(log, at).words[k as int] == w,
        Access::Head { n } => head_after(log) == n,
    }
}

/// The loads are made one after the other at the moments `when`: each gives
/// what the memory holds after so many of the stores `log`.
pub open spec fn loaded(loads: Seq<Access>, when: Seq<nat>, log: Seq<Access>) -> bool {
    &&& loads.len() == when.len()
    &&& forall|k: int| 0 <= k < when.len() ==> #[trigger] when[k] <= log.len()
    &&& forall|k: int|
        0 <= k < loads.len() ==> gives(log.take(when[k] as int), #[trigger] loads[k])
    &&& forall|i: int, j: int|
        0 <= i <= j < when.len() ==> #[trigger] when[i] <= #[trigger] when[j]
}

/// What a poll loads: the version of its slot; the words and the version once
/// more if that is the expected version; and the head if the slot was
/// overwritten, before the words were loaded or meanwhile.
pub open spec fn poll_loads(
    s: u64,
    shift: u32,
    v1: u64,
    w: Seq<u64>,
    v2: u64,
    head: u64,
) -> Seq<Access> {
    let at = slot_of(s, shift);
    let want = super::expected(s, shift);
    if v1 < want {
        seq![Access::Version { at, v: v1 }]
    } else if v1 == want && v2 == want {
        seq![Access::Version { at, v: v1 }] + word_accesses(at, w) + seq![
            Access::Version { at, v: v2 },
        ]
    } else if v1 == want {
        seq![Access::Version { at, v: v1 }] + word_accesses(at, w) + seq![
            Access::Version { at, v: v2 },
            Access::Head { n: head },
        ]
    } else {
        seq![Access::Version { at, v: v1 }, Access::Head { n: head }]
    }
}

/// One poll: the values that it loads, and the moments at which it does.
pub struct Poll {
    pub v1: u64,
    pub words: Seq<u64>,
    pub v2: u64,
    pub head: u64,
    pub when: Seq<nat>,
}

impl Poll {
    /// What it loads when it is made at the sequence `s`.
    pub open spec fn loads(self, s: u64, shift: u32) -> Seq<Access> {
        poll_loads(s, shift, self.v1, self.words, self.v2, self.head)
    }

    /// What comes of it, and where the consumer is afterwards.
    pub open spec fn outcome(self, s: u64, shift: u32) -> (Recv, u64) {
        super::settled(s, shift, self.v1, words::event_of(self.words), self.v2, self.head)
    }

    /// Its loads at the sequence `s` give what the stores `log` leave.
    pub open spec fn made(self, s: u64, shift: u32, log: Seq<Access>) -> bool {
        self.words.len() == 8 && loaded(self.loads(s, shift), self.when, log)
    }
}

/// A publication is eleven stores.
pub proof fn lemma_publication(s: u64, shift: u32, ev: Event)
    ensures
        publication(s, shift, ev).len() == 11,
        ({
            let p = publication(s, shift, ev);
            let at = slot_of(s, shift);
            &&& p[0] == (Access::Version { at, v: (super::expected(s, shift) - 1) as u64 })
            &&& forall|k: int|
                1 <= k <= 8 ==> #[trigger] p[k] == (Access::Word {
                    at,
                    k: (k - 1) as usize,
                    w: words::words_of(ev)[k - 1],
                })
            &&& p[9] == (Access::Version { at, v: super::expected(s, shift) })
            &&& p[10] == (Access::Head { n: (s + 1) as u64 })
        }),
{
}

/// A slot has eight words.
proof fn lemma_cell_words(log: Seq<Access>, at: usize)
    ensures
        cell(log, at).words.len() == 8,
    decreases log.len(),
{
    if log.len() > 0 {
        lemma_cell_words(log.drop_last(), at);
    }
}

/// What a slot holds in the middle of a publication: what it held if it is
/// another one, an odd version while the words are written, and the event
/// once they are.
proof fn lemma_midway(log: Seq<Access>, s: u64, shift: u32, ev: Event, j: int, at: usize)
    requires
        0 <= j <= 11,
    ensures
        ({
            let c = cell(log + publication(s, shift, ev).take(j), at);
            let done = super::expected(s, shift);
            if slot_of(s, shift) != at || j == 0 {
                c == cell(log, at)
            } else if j <= 9 {
                c.version == (done - 1) as u64 && forall|k: int|
                    0 <= k < j - 1 ==> #[trigger] c.words[k] == words::words_of(ev)[k]
            } else {
                c == (Cell { version: done, words: words::words_of(ev) })
            }
        }),
        head_after(log + publication(s, shift, ev).take(j)) == if j == 11 {
            (s + 1) as u64
        } else {
            head_after(log)
        },
    decreases j,
{
    let p = publication(s, shift, ev);
    lemma_publication(s, shift, ev);
    if j == 0 {
        assert(log + p.take(0) =~= log);
    } else {
        lemma_midway(log, s, shift, ev, j - 1, at);
        let l = log + p.take(j);
        let before = log + p.take(j - 1);
        assert(l.drop_last() =~= before);
        assert(l.last() == p[j - 1]);
        lemma_cell_words(before, at);
        lemma_cell_words(l, at);
        if j == 10 && slot_of(s, shift) == at {
            assert(cell(l, at).words =~= words::words_of(ev));
        }
    }
}

/// The first publications are those of the first events.
pub proof fn lemma_publications(evs: Seq<Event>, shift: u32, m: int)
    requires
        0 <= m <= evs.len(),
    ensures
        publications(evs, shift).len() == 11 * evs.len(),
        publications(evs, shift).take(11 * m) == publications(evs.take(m), shift),
    decreases evs.len(),
{
    let all = publications(evs, shift);
    if evs.len() == 0 {
        assert(evs.take(m) =~= evs);
        assert(all.take(0) =~= all);
    } else {
        let init = evs.drop_last();
        lemma_publication((evs.len() - 1) as u64, shift, evs.last());
        if m < evs.len() {
            lemma_publications(init, shift, m);
            assert(init.take(m) =~= evs.take(m));
            assert(all.take(11 * m) =~= publications(init, shift).take(11 * m));
        } else {
            lemma_publications(init, shift, init.len() as int);
            assert(evs.take(m) =~= evs);
            assert(all.take(11 * m) =~= all);
        }
    }
}

/// The moment `t` of the publications lies `j` stores behind the first `m`.
proof fn lemma_moment(evs: Seq<Event>, shift: u32, t: int, m: int, j: int)
    requires
        0 <= m,
        0 <= j < 11,
        t == 11 * m + j,
        t <= 11 * evs.len(),
    ensures
        m <= evs.len(),
        m == evs.len() ==> j == 0 && publications(evs, shift).take(t) == publications(evs, shift),
        m < evs.len() ==> publications(evs, shift).take(t) == publications(evs.take(m), shift)
            + publication(m as u64, shift, evs[m]).take(j),
{
    let all = publications(evs, shift);
    lemma_publications(evs, shift, m);
    if m == evs.len() {
        assert(all.take(t) =~= all);
    } else {
        let next = evs.take(m + 1);
        lemma_publications(evs, shift, m + 1);
        assert(next.drop_last() =~= evs.take(m));
        assert(next.last() == evs[m]);
        let p = publication(m as u64, shift, evs[m]);
        lemma_publication(m as u64, shift, evs[m]);
        lemma_publications(evs.take(m), shift, m);
        assert(publications(next, shift) == publications(evs.take(m), shift) + p);
        assert(all.take(t) =~= all.take(11 * (m + 1)).take(t));
        assert(all.take(t) =~= publications(evs.take(m), shift) + p.take(j));
    }
}

/// Sequences of one slot are a multiple of the capacity apart, and their
/// versions are ordered as they are.
proof fn lemma_versions(a: u64, b: u64, shift: u32)
    requires
        1 <= shift < 64,
        a < u64::MAX - 1,
        b < u64::MAX - 1,
        pow2(shift as nat) <= usize::MAX,
        slot_of(a, shift) == slot_of(b, shift),
    ensures
        2 <= super::expected(a, shift),
        a < b ==> super::expected(a, shift) + 2 <= super::expected(b, shift) && a + pow2(
            shift as nat,
        ) <= b,
{
    super::lemma_expected(a, shift);
    super::lemma_expected(b, shift);
    lemma_pow2_pos(shift as nat);
    let c = pow2(shift as nat) as int;
    let (x, y) = (a as int, b as int);
    vstd::arithmetic::div_mod::lemma_fundamental_div_mod(x, c);
    vstd::arithmetic::div_mod::lemma_fundamental_div_mod(y, c);
    vstd::arithmetic::div_mod::lemma_mod_bound(x, c);
    vstd::arithmetic::div_mod::lemma_mod_bound(y, c);
    let (p, q, m) = (x / c, y / c, x % c);
    assert(y % c == m);
    if a < b {
        assert(p < q && x + c <= y) by (nonlinear_arith)
            requires
                x == c * p + m,
                y == c * q + m,
                x < y,
                c > 0,
        ;
    }
}

/// The sequence that lies the capacity further is the next one in the slot.
proof fn lemma_next_round(s: u64, t: u64, shift: u32)
    requires
        1 <= shift < 64,
        t == s + pow2(shift as nat),
    ensures
        slot_of(t, shift) == slot_of(s, shift),
{
    lemma_pow2_pos(shift as nat);
    vstd::arithmetic::div_mod::lemma_mod_add_multiples_vanish(
        s as int,
        pow2(shift as nat) as int,
    );
}

/// What the slot of the sequence `s` holds after the publications of `evs`:
/// an earlier version up to that sequence, a later one from the next that
/// goes to the slot on, and the version and the words of the event in
/// between.
proof fn lemma_rounds(evs: Seq<Event>, shift: u32, s: u64)
    requires
        1 <= shift < 64,
        pow2(shift as nat) <= usize::MAX,
        evs.len() < u64::MAX,
        s < u64::MAX - 1,
    ensures
        ({
            let c = cell(publications(evs, shift), slot_of(s, shift));
            let want = super::expected(s, shift);
            &&& evs.len() <= s ==> c.version < want
            &&& s < evs.len() <= s + pow2(shift as nat) ==> c == (Cell {
                version: want,
                words: words::words_of(evs[s as int]),
            })
            &&& s + pow2(shift as nat) < evs.len() ==> c.version > want
        }),
        head_after(publications(evs, shift)) == evs.len(),
    decreases evs.len(),
{
    let at = slot_of(s, shift);
    lemma_versions(s, s, shift);
    lemma_pow2_pos(shift as nat);
    if evs.len() > 0 {
        let init = evs.drop_last();
        let l = (evs.len() - 1) as u64;
        lemma_rounds(init, shift, s);
        lemma_publication(l, shift, evs.last());
        let p = publication(l, shift, evs.last());
        assert(p.take(11) =~= p);
        lemma_midway(publications(init, shift), l, shift, evs.last(), 11, at);
        if slot_of(l, shift) == at {
            lemma_versions(l, s, shift);
            lemma_versions(s, l, shift);
        } else if l == s + pow2(shift as nat) {
            lemma_next_round(s, l, shift);
        }
    }
}

/// What the slot of the sequence `s` holds at the moment `t` of the
/// publications of `evs`: an earlier version until the event is complete
/// there, a later one from the next publication to the slot on, and the
/// version and the words of the event in between.
pub proof fn lemma_cell_at(evs: Seq<Event>, shift: u32, s: u64, t: int)
    requires
        1 <= shift < 64,
        pow2(shift as nat) <= usize::MAX,
        evs.len() < u64::MAX,
        s < u64::MAX - 1,
        0 <= t <= 11 * evs.len(),
    ensures
        ({
            let c = cell(publications(evs, shift).take(t), slot_of(s, shift));
            let want = super::expected(s, shift);
            &&& t < 11 * s + 10 ==> c.version < want
            &&& 11 * s + 10 <= t <= 11 * (s + pow2(shift as nat)) ==> s < evs.len() && c == (Cell {
                version: want,
                words: words::words_of(evs[s as int]),
            })
            &&& 11 * (s + pow2(shift as nat)) < t ==> c.version > want
        }),
        head_after(publications(evs, shift).take(t)) == t / 11,
{
    let (m, j) = (t / 11, t % 11);
    let at = slot_of(s, shift);
    let cap = pow2(shift as nat);
    lemma_pow2_pos(shift as nat);
    lemma_versions(s, s, shift);
    lemma_moment(evs, shift, t, m, j);
    if m == evs.len() {
        lemma_rounds(evs, shift, s);
    } else {
        let front = evs.take(m);
        lemma_rounds(front, shift, s);
        lemma_midway(publications(front, shift), m as u64, shift, evs[m], j, at);
        if slot_of(m as u64, shift) == at {
            lemma_versions(m as u64, s, shift);
            lemma_versions(s, m as u64, shift);
        } else if m == s + cap {
            lemma_next_round(s, m as u64, shift);
        }
    }
}

/// A poll is exact, however its loads and the stores of the producer `p`
/// interleave. A consumer that gets an event gets the very event of its
/// sequence; where one gets nothing, no more events than it has passed had
/// been published when it looked; and one that is lapped has loaded a head at
/// which its event is overwritten, or about to be, and goes on with the oldest
/// event that is left then.
pub proof fn lemma_poll(p: Producer, s: u64, poll: Poll)
    requires
        p.wf(),
        s <= p.count() < u64::MAX - 1,
        poll.made(s, p.shift(), p.stored()),
    ensures
        poll.when.len() > 0,
        ({
            let (r, next) = poll.outcome(s, p.shift());
            &&& s <= next <= p.count()
            &&& match r {
                Recv::Event(e) => next == s + 1 && e == p.events()[s as int],
                Recv::Empty => next == s && head_after(p.stored().take(poll.when[0] as int)) <= s,
                Recv::Lagged { lost } => {
                    &&& next == s + lost
                    &&& lost == super::lost_count(s as nat, p.cap(), poll.head as nat)
                    &&& s + p.cap() <= poll.head <= p.count()
                },
            }
        }),
        // nothing has been stored since
        poll.when[0] == p.stored().len() ==> ((poll.outcome(s, p.shift()).0 is Empty) <==> s
            == p.count()),
{
    let (log, shift, evs) = (p.stored(), p.shift(), p.events());
    p.lemma_stored();
    lemma_pow2_pos(shift as nat);
    let at = slot_of(s, shift);
    let want = super::expected(s, shift);
    let loads = poll.loads(s, shift);
    let when = poll.when;
    assert(loads[0] == (Access::Version { at, v: poll.v1 }));
    assert(when[0] <= log.len());
    assert(gives(log.take(when[0] as int), loads[0]));
    lemma_cell_at(evs, shift, s, when[0] as int);
    if poll.v1 == want {
        let w = poll.words;
        assert(loads[9] == (Access::Version { at, v: poll.v2 }));
        assert(when[9] <= log.len());
        assert(when[0] <= when[9]);
        assert(gives(log.take(when[9] as int), loads[9]));
        lemma_cell_at(evs, shift, s, when[9] as int);
        if poll.v2 == want {
            assert forall|k: int| 0 <= k < 8 implies w[k] == #[trigger] words::words_of(
                evs[s as int],
            )[k] by {
                assert(loads[k + 1] == (Access::Word { at, k: k as usize, w: w[k] }));
                assert(when[k + 1] <= log.len());
                assert(when[0] <= when[k + 1]);
                assert(when[k + 1] <= when[9]);
                assert(gives(log.take(when[k + 1] as int), loads[k + 1]));
                lemma_cell_at(evs, shift, s, when[k + 1] as int);
            }
            assert(w =~= words::words_of(evs[s as int]));
            words::lemma_words_roundtrip(evs[s as int]);
        } else {
            lemma_head(p, loads, when, 10, s);
        }
    } else if poll.v1 > want {
        lemma_head(p, loads, when, 1, s);
    }
}

/// The head that is loaded once a slot was seen to be overwritten.
proof fn lemma_head(p: Producer, loads: Seq<Access>, when: Seq<nat>, i: int, s: u64)
    requires
        p.wf(),
        s <= p.count() < u64::MAX - 1,
        loaded(loads, when, p.stored()),
        1 <= i < loads.len(),
        loads[i] is Head,
        11 * (s + p.cap()) < when[i - 1],
    ensures
        s + p.cap() <= loads[i]->n <= p.count(),
{
    p.lemma_stored();
    assert(gives(p.stored().take(when[i] as int), loads[i]));
    assert(when[i - 1] <= when[i]);
    assert(when[i] <= p.stored().len());
    lemma_cell_at(p.events(), p.shift(), s, when[i] as int);
}

/// What came out of the polls of one consumer that subscribed when `p0`
/// events had been published, and where it is afterwards.
pub open spec fn run(p0: u64, shift: u32, polls: Seq<Poll>) -> (Seq<Recv>, u64)
    decreases polls.len(),
{
    if polls.len() == 0 {
        (Seq::empty(), p0)
    } else {
        let (rs, s) = run(p0, shift, polls.drop_last());
        let (r, next) = polls.last().outcome(s, shift);
        (rs.push(r), next)
    }
}

/// The loads of every poll give what the stores `log` leave.
pub open spec fn all_made(p0: u64, shift: u32, polls: Seq<Poll>, log: Seq<Access>) -> bool
    decreases polls.len(),
{
    polls.len() > 0 ==> all_made(p0, shift, polls.drop_last(), log) && polls.last().made(
        run(p0, shift, polls.drop_last()).1,
        shift,
        log,
    )
}

/// The events among the results of polls, in their order.
pub open spec fn delivered(rs: Seq<Recv>) -> Seq<Event>
    decreases rs.len(),
{
    if rs.len() == 0 {
        Seq::empty()
    } else {
        match rs.last() {
            Recv::Event(e) => delivered(rs.drop_last()).push(e),
            _ => delivered(rs.drop_last()),
        }
    }
}

/// How many events the results of polls report as lost.
pub open spec fn lost(rs: Seq<Recv>) -> nat
    decreases rs.len(),
{
    if rs.len() == 0 {
        0
    } else {
        match rs.last() {
            Recv::Lagged { lost: n } => lost(rs.drop_last()) + n as nat,
            _ => lost(rs.drop_last()),
        }
    }
}

/// Which sequence each delivered event has by the results of polls: the
/// deliveries and the losses in front of it, counted from `p0`.
pub open spec fn places(rs: Seq<Recv>, p0: nat) -> Seq<nat>
    decreases rs.len(),
{
    if rs.len() == 0 {
        Seq::empty()
    } else {
        let init = rs.drop_last();
        match rs.last() {
            Recv::Event(_) => places(init, p0).push(p0 + delivered(init).len() + lost(init)),
            _ => places(init, p0),
        }
    }
}

/// A whole run of polls accounts for every event that the producer `p` has
/// published since the consumer subscribed, however their accesses
/// interleave. The deliveries and the losses add up to where the consumer is;
/// what it was delivered are events from behind its subscription, in the
/// order in which they were published, each of them once; and a last poll
/// that finds nothing after all that was stored finds it at the head. Other
/// consumers are no part of this: they store nothing.
pub proof fn lemma_run_accounts(p: Producer, p0: u64, polls: Seq<Poll>)
    requires
        p.wf(),
        p0 <= p.count() < u64::MAX - 1,
        all_made(p0, p.shift(), polls, p.stored()),
    ensures
        ({
            let (rs, next) = run(p0, p.shift(), polls);
            let at = places(rs, p0 as nat);
            &&& rs.len() == polls.len()
            &&& delivered(rs).len() + lost(rs) == next - p0
            &&& p0 <= next <= p.count()
            &&& at.len() == delivered(rs).len()
            &&& forall|i: int|
                0 <= i < at.len() ==> p0 <= #[trigger] at[i] < next && delivered(rs)[i]
                    == p.events()[at[i] as int]
            &&& forall|i: int, j: int|
                0 <= i < j < at.len() ==> (#[trigger] at[i]) < (#[trigger] at[j])
            &&& polls.len() > 0 && rs.last() is Empty && polls.last().when[0] == p.stored().len()
                ==> delivered(rs).len() + lost(rs) == p.count() - p0
        }),
    decreases polls.len(),
{
    if polls.len() > 0 {
        let shift = p.shift();
        let before = polls.drop_last();
        lemma_run_accounts(p, p0, before);
        let (rs0, s) = run(p0, shift, before);
        lemma_poll(p, s, polls.last());
        let (rs, next) = run(p0, shift, polls);
        assert(rs.drop_last() =~= rs0);
        let at0 = places(rs0, p0 as nat);
        let at = places(rs, p0 as nat);
        assert forall|i: int| 0 <= i < at.len() implies p0 <= #[trigger] at[i] < next && delivered(
            rs,
        )[i] == p.events()[at[i] as int] by {
            if i < at0.len() {
                assert(at[i] == at0[i]);
            }
        }
        assert forall|i: int, j: int| 0 <= i < j < at.len() implies (#[trigger] at[i]) < (
        #[trigger] at[j]) by {
            assert(at[i] == at0[i]);
            if j < at0.len() {
                assert(at[j] == at0[j]);
            }
        }
    }
}

/// A poll during which nothing is published finds what the producer `p` has
/// left: a consumer at the head gets nothing, one that is at most the
/// capacity behind gets the very event of its sequence, and one that is
/// further behind learns how many events were overwritten and goes on with
/// the oldest one left.
pub proof fn lemma_quiet_poll(p: Producer, s: u64, poll: Poll)
    requires
        p.wf(),
        s <= p.count() < u64::MAX - 1,
        poll.made(s, p.shift(), p.stored()),
        forall|k: int|
            0 <= k < poll.when.len() ==> #[trigger] poll.when[k] == p.stored().len(),
    ensures
        ({
            let (r, next) = poll.outcome(s, p.shift());
            &&& s == p.count() ==> r is Empty && next == s
            &&& s < p.count() <= s + p.cap() ==> r == Recv::Event(p.events()[s as int]) && next == s
                + 1
            &&& s + p.cap() < p.count() ==> next == p.count() - p.cap() && r == (Recv::Lagged {
                lost: (next - s) as u64,
            })
        }),
{
    let (log, shift) = (p.stored(), p.shift());
    p.lemma_stored();
    lemma_poll(p, s, poll);
    let loads = poll.loads(s, shift);
    let t = log.len() as int;
    lemma_cell_at(p.events(), shift, s, t);
    assert(loads[0] == (Access::Version { at: slot_of(s, shift), v: poll.v1 }));
    assert(gives(log.take(poll.when[0] as int), loads[0]));
    if poll.v1 == super::expected(s, shift) {
        assert(loads[9] == (Access::Version { at: slot_of(s, shift), v: poll.v2 }));
        assert(poll.when[9] == log.len());
        assert(gives(log.take(poll.when[9] as int), loads[9]));
    } else if poll.v1 > super::expected(s, shift) {
        assert(loads[1] == (Access::Head { n: poll.head }));
        assert(poll.when[1] == log.len());
        assert(gives(log.take(poll.when[1] as int), loads[1]));
    }
}

} // verus!
