//! Hand-rolled broadcast ring: one producer, any number of independent
//! consumers, each receiving EVERY event. Bounded memory: the producer
//! never blocks and never allocates; a consumer that falls more than
//! `capacity` behind is overrun - it finds out (with a loss count) and
//! jumps forward. Those are market-data semantics: a slow subscriber loses
//! ticks and knows it; it cannot stall the feed.
//!
//! Slots hold the 64-byte event as eight atomic words (relaxed loads and
//! stores - never a non-atomic data race) guarded by a per-slot version
//! counter using the seqlock protocol: the writer does `version += 1`
//! (odd = writing), `fence(Release)`, data stores, `version += 1` with
//! `Release`; the reader does `version.load(Acquire)`, data loads,
//! `fence(Acquire)`, `version.load(Relaxed)` and accepts only if both version
//! reads agree on the same even value. Global sequence `s` lands in slot
//! `s % capacity`; after it is published that slot's version is exactly
//! `2 * (s / capacity + 1)`, so a consumer can classify a slot as
//! not-yet-written / ready / overwritten from the version alone.
//!
//! A load of the shared memory gives what the producer has stored by then,
//! which rests on other threads; what is stored rests on the producer alone.
//! So each handle keeps a record of its accesses ([`access`]): the contract of
//! [`Producer::publish`] says which stores it makes, that of
//! [`Consumer::try_next`] which loads it makes and what comes of the values,
//! and [`trace`] what the stores come to for the loads.
pub mod access;
pub mod trace;
pub mod words;

use crate::event::Event;
use access::{Access, Memory, Seen, Written};
use crossbeam_utils::CachePadded;
use std::sync::atomic::Ordering;
use std::sync::Arc;
use vstd::arithmetic::power2::*;
use vstd::prelude::*;

verus! {

/// A value on cache lines of its own (`crossbeam_utils::CachePadded`).
#[verifier::external_type_specification]
#[verifier::external_body]
#[verifier::reject_recursive_types(T)]
pub struct ExCachePadded<T>(CachePadded<T>);

/// `crossbeam_utils::CachePadded::new`: pads a value. Nothing is said of what
/// is inside, which other threads may change.
pub assume_specification<T>[ CachePadded::<T>::new ](t: T) -> (r: CachePadded<T>);

/// `crossbeam_utils::CachePadded` dereferenced: the value inside.
pub assume_specification<T>[ <CachePadded<T> as std::ops::Deref>::deref ](
    p: &CachePadded<T>,
) -> (r: &T);

/// `std::sync::atomic::fence`: orders the memory accesses around it. It takes
/// every ordering but the relaxed one.
pub assume_specification[ std::sync::atomic::fence ](o: Ordering)
    requires
        !(o is Relaxed),
;

/// `std::sync::Arc::clone`: another handle on the same ring.
#[verifier::external_body]
fn share(r: &Arc<Ring>) -> (s: Arc<Ring>)
    ensures
        s == *r,
{
    Arc::clone(r)
}

/// What the producer stores in a slot, in this order.
#[derive(Debug, Clone, Copy, PartialEq, Eq)]
pub struct Stores {
    /// The version while the words are written.
    pub busy: u64,
    /// The words of the event.
    pub words: [u64; 8],
    /// The version once they are.
    pub done: u64,
}

/// Outcome of a consumer poll.
#[derive(Debug, Clone, Copy, PartialEq, Eq, Structural)]
pub enum Recv {
    /// One event, in order.
    Event(Event),
    /// Nothing new yet.
    Empty,
    /// Fell behind: `lost` events were overwritten; the cursor has jumped
    /// forward to the oldest still-available event.
    Lagged {
        /// Events irrecoverably missed.
        lost: u64,
    },
}

/// What a slot's version says to a consumer.
#[derive(Debug, Clone, Copy, PartialEq, Eq, Structural)]
pub enum Peek {
    /// Not yet written for the consumer's sequence, or in the middle of it.
    NotYet,
    /// It holds the consumer's sequence.
    Ready,
    /// It has been overwritten: the consumer was lapped.
    Lapped,
}

/// The slot version once the sequence `s` has been published in a ring of
/// `2^shift` slots.
pub open spec fn expected(s: u64, shift: u32) -> u64 {
    (((s >> (shift as u64)) + 1) as u64) << 1u64
}

/// The expected version is the even one of the round in which the sequence
/// goes to its slot.
pub proof fn lemma_expected(s: u64, shift: u32)
    requires
        1 <= shift < 64,
        s < u64::MAX - 1,
    ensures
        expected(s, shift) == 2 * (s as nat / pow2(shift as nat) + 1),
{
    let q: u64 = s >> (shift as u64);
    vstd::bits::lemma_u64_shr_is_div(s, shift as u64);
    assert(q < 0x7fff_ffff_ffff_ffff) by (bit_vector)
        requires
            q == s >> (shift as u64),
            1 <= shift < 64,
            s < 0xffff_ffff_ffff_fffe,
    ;
    let k: u64 = (q + 1) as u64;
    assert(k << 1u64 == 2 * k) by (bit_vector)
        requires
            k < 0x8000_0000_0000_0000,
    ;
}

/// The sequences that a consumer at `s` has provably lost when it was lapped
/// in a ring of `cap` slots and `head` events have been published.
pub open spec fn lost_count(s: nat, cap: nat, head: nat) -> nat {
    if head > cap && head - cap > s + 1 {
        (head - cap - s) as nat
    } else {
        1
    }
}

/// What a poll of a consumer at `s` comes to, and where the consumer is
/// afterwards, of what was read in a ring of `2^shift` slots: the slot's
/// version `v1` in front of the copy `copied` and `v2` behind it, and `head`
/// published events.
pub open spec fn settled(s: u64, shift: u32, v1: u64, copied: Event, v2: u64, head: u64) -> (
    Recv,
    u64,
) {
    let want = expected(s, shift);
    if v1 < want {
        (Recv::Empty, s)
    } else if v1 == want && v2 == want {
        (Recv::Event(copied), (s + 1) as u64)
    } else {
        let n = lost_count(s as nat, pow2(shift as nat), head as nat);
        (Recv::Lagged { lost: n as u64 }, (s + n) as u64)
    }
}

/// The slot version once the sequence `s` has been published.
fn version_of(s: u64, shift: u32) -> (r: u64)
    requires
        1 <= shift < 64,
    ensures
        r == expected(s, shift),
        s < u64::MAX - 1 ==> r >= 2,
{
    let q: u64 = s >> (shift as u64);
    assert(q < 0x8000_0000_0000_0000) by (bit_vector)
        requires
            q == s >> (shift as u64),
            1 <= shift < 64,
    ;
    let k: u64 = q + 1;
    assert(s < 0xffff_ffff_ffff_fffe ==> k << 1u64 >= 2) by (bit_vector)
        requires
            k == (s >> (shift as u64)) + 1,
            1 <= shift < 64,
    ;
    k << 1u64
}

/// What the producer stores for the event of the sequence `s`: the version of
/// the sequence, and in front of the words the odd one below it.
pub fn stores(s: u64, shift: u32, ev: &Event) -> (r: Stores)
    requires
        1 <= shift < 64,
        s < u64::MAX - 1,
    ensures
        r.done == expected(s, shift),
        r.busy == r.done - 1,
        r.words@ == words::words_of(*ev),
{
    let done: u64 = version_of(s, shift);
    Stores { busy: done - 1, words: words::to_words(ev), done }
}

/// What the version `v` of a slot says to a consumer at `s`.
pub fn classify(s: u64, shift: u32, v: u64) -> (r: Peek)
    requires
        1 <= shift < 64,
    ensures
        r == (if v < expected(s, shift) {
            Peek::NotYet
        } else if v == expected(s, shift) {
            Peek::Ready
        } else {
            Peek::Lapped
        }),
{
    let want: u64 = version_of(s, shift);
    if v < want {
        Peek::NotYet
    } else if v == want {
        Peek::Ready
    } else {
        Peek::Lapped
    }
}

/// The events that a lapped consumer at `s` has provably lost when `head`
/// events have been published. (More may be published meanwhile; this is what
/// can be proved lost right now.)
pub fn overrun(s: u64, cap: u64, head: u64) -> (r: u64)
    ensures
        r == lost_count(s as nat, cap as nat, head as nat),
        1 <= r,
        s < u64::MAX ==> s + r <= u64::MAX,
{
    let oldest: u64 = if head > cap {
        head - cap
    } else {
        0
    };
    if oldest > s && oldest - s > 1 {
        oldest - s
    } else {
        1
    }
}

/// What a poll of a consumer at `s` comes to, and where the consumer is
/// afterwards, of what it has read.
pub fn settle(s: u64, shift: u32, v1: u64, copied: Event, v2: u64, head: u64) -> (r: (Recv, u64))
    requires
        1 <= shift < 64,
        s < u64::MAX,
    ensures
        r == settled(s, shift, v1, copied, v2, head),
        match r.0 {
            Recv::Event(_) => r.1 == s + 1,
            Recv::Empty => r.1 == s,
            Recv::Lagged { lost } => lost >= 1 && r.1 == s + lost,
        },
{
    match classify(s, shift, v1) {
        Peek::NotYet => (Recv::Empty, s),
        Peek::Ready if classify(s, shift, v2) == Peek::Ready => (Recv::Event(copied), s + 1),
        _ => {
            // Lapped (or torn): jump to the oldest sequence that is still
            // safely available.
            proof {
                lemma_slots(shift);
            }
            let lost: u64 = overrun(s, 1u64 << (shift as u64), head);
            (Recv::Lagged { lost }, s + lost)
        },
    }
}

proof fn lemma_slots(shift: u32)
    requires
        shift < 64,
    ensures
        1u64 << (shift as u64) == pow2(shift as nat),
{
    lemma_pow2_strictly_increases(shift as nat, 64);
    lemma2_to64();
    lemma2_to64_rest();
    vstd::bits::lemma_u64_shl_is_mul(1, shift as u64);
}

/// The events between a consumer at `next` and the head.
pub open spec fn lag_count(head: nat, next: nat) -> nat {
    if head > next {
        (head - next) as nat
    } else {
        0
    }
}

/// How far a consumer at `next` is behind when `head` events have been
/// published.
pub fn lag_of(head: u64, next: u64) -> (r: u64)
    ensures
        r == lag_count(head as nat, next as nat),
{
    if head > next {
        head - next
    } else {
        0
    }
}

/// Shared state behind producer and consumer handles.
pub struct Ring {
    mem: Memory,
    mask: u64,
    shift: u32,
}

impl Ring {
    /// The number of slots.
    pub closed spec fn cap(&self) -> nat {
        self.mem.len()
    }

    /// The power of two that the number of slots is.
    pub closed spec fn shift(&self) -> u32 {
        self.shift
    }

    /// The number of slots is the power of two that mask and shift belong to.
    pub closed spec fn wf(&self) -> bool {
        &&& 1 <= self.shift < 64
        &&& self.mem.len() == pow2(self.shift as nat) <= usize::MAX
        &&& self.mask == self.mem.len() - 1
    }

    /// A ring has `2^shift` slots.
    pub proof fn lemma_cap(&self)
        requires
            self.wf(),
        ensures
            1 <= self.shift() < 64,
            self.cap() == pow2(self.shift() as nat) <= usize::MAX,
    {
    }

    /// The slot of the sequence `s`.
    fn slot_index(&self, s: u64) -> (r: usize)
        requires
            self.wf(),
        ensures
            r == trace::slot_of(s, self.shift()),
            r < self.cap(),
    {
        proof {
            let n = self.shift as nat;
            vstd::bits::lemma_u64_low_bits_mask_is_mod(s, n);
            assert(vstd::bits::low_bits_mask(n) == self.mask);
        }
        (s & self.mask) as usize
    }

    /// Load the words of a slot.
    fn read_words(&self, at: usize, seen: &mut Seen) -> (w: [u64; 8])
        requires
            at < self.cap(),
        ensures
            final(seen)@ == old(seen)@ + trace::word_accesses(at, w@),
    {
        let w: [u64; 8] = [
            self.mem.word(at, 0, seen),
            self.mem.word(at, 1, seen),
            self.mem.word(at, 2, seen),
            self.mem.word(at, 3, seen),
            self.mem.word(at, 4, seen),
            self.mem.word(at, 5, seen),
            self.mem.word(at, 6, seen),
            self.mem.word(at, 7, seen),
        ];
        assert(seen@ =~= old(seen)@ + trace::word_accesses(at, w@));
        w
    }

    /// Write a slot (seqlock write: odd version, fence, words, even version).
    fn write(&self, at: usize, st: &Stores, written: &mut Written)
        requires
            at < self.cap(),
        ensures
            final(written)@ == old(written)@.push(Access::Version { at, v: st.busy })
                + trace::word_accesses(at, st.words@).push(Access::Version { at, v: st.done }),
    {
        self.mem.announce(at, st.busy, written);
        let ghost start = written@;
        let mut i: usize = 0;
        assert(start + trace::word_accesses(at, st.words@).take(0) =~= start);
        while i < 8
            invariant
                i <= 8,
                at < self.cap(),
                written@ == start + trace::word_accesses(at, st.words@).take(i as int),
            decreases 8 - i,
        {
            self.mem.put(at, i, st.words[i], written);
            assert(written@ =~= start + trace::word_accesses(at, st.words@).take(i + 1));
            i += 1;
        }
        self.mem.complete(at, st.done, written);
        assert(written@ =~= old(written)@.push(Access::Version { at, v: st.busy })
            + trace::word_accesses(at, st.words@).push(Access::Version { at, v: st.done }));
    }
}

/// The smallest power of two from 2 on that is no less than `n`, and its
/// exponent.
fn round_up(n: usize) -> (r: (usize, u32))
    requires
        n <= pow2((usize::BITS - 1) as nat),
    ensures
        1 <= r.1 < usize::BITS,
        r.0 == pow2(r.1 as nat),
        r.0 >= n,
        r.0 == 2 || r.0 < 2 * n,
{
    let mut cap: usize = 2;
    let mut shift: u32 = 1;
    proof {
        lemma2_to64();
    }
    while cap < n
        invariant
            n <= pow2((usize::BITS - 1) as nat),
            1 <= shift < usize::BITS,
            cap == pow2(shift as nat),
            cap == 2 || cap < 2 * n,
        decreases usize::BITS - shift,
    {
        proof {
            if shift == usize::BITS - 1 {
                assert(false);
            }
            lemma_pow2_unfold((shift + 1) as nat);
            vstd::bits::lemma_usize_pow2_no_overflow((shift + 1) as nat);
        }
        cap = cap * 2;
        shift += 1;
    }
    (cap, shift)
}

/// Create a broadcast ring with `capacity` slots (rounded up to a power of
/// two, minimum 2). Returns the producer handle; consumers subscribe via
/// [`Producer::subscribe`] (or [`subscribe_ring`] on a shared ring).
pub fn ring(capacity: usize) -> (r: Producer)
    requires
        capacity <= pow2((usize::BITS - 1) as nat),
    ensures
        r.wf(),
        r.cap() == pow2(r.shift() as nat),
        r.cap() >= capacity,
        r.cap() == 2 || r.cap() < 2 * capacity,
        r.count() == 0,
        r.events() == Seq::<Event>::empty(),
        r.stored() == Seq::<Access>::empty(),
{
    let (cap, shift): (usize, u32) = round_up(capacity);
    let ring = Ring { mem: Memory::new(cap), mask: cap as u64 - 1, shift };
    Producer {
        ring: Arc::new(ring),
        next: 0,
        written: Written::new(),
        events: Ghost(Seq::empty()),
    }
}

/// The unique producer handle (not Clone: single-writer protocol).
pub struct Producer {
    ring: Arc<Ring>,
    /// The next sequence: what the ring's head counter, which nobody else
    /// writes, holds too.
    next: u64,
    /// The stores that it has made.
    written: Written,
    /// The events that it has published.
    events: Ghost<Seq<Event>>,
}

impl Producer {
    /// The number of slots.
    pub closed spec fn cap(&self) -> nat {
        self.ring.cap()
    }

    /// The power of two that the number of slots is.
    pub closed spec fn shift(&self) -> u32 {
        self.ring.shift()
    }

    /// The ring that it shares with its consumers.
    pub closed spec fn shared(&self) -> Ring {
        *self.ring
    }

    /// The number of events published.
    pub closed spec fn count(&self) -> u64 {
        self.next
    }

    /// The events published, in their order.
    pub closed spec fn events(&self) -> Seq<Event> {
        self.events@
    }

    /// The stores to the shared memory, in their order.
    pub closed spec fn stored(&self) -> Seq<Access> {
        self.written@
    }

    /// The ring is well-formed, and what was stored are the publications of
    /// the events.
    pub closed spec fn wf(&self) -> bool {
        &&& self.ring.wf()
        &&& self.events@.len() == self.next < u64::MAX
        &&& self.written@ == trace::publications(self.events@, self.ring.shift())
    }

    /// What a producer has stored are the publications of its events, one
    /// after the other.
    pub proof fn lemma_stored(&self)
        requires
            self.wf(),
        ensures
            1 <= self.shift() < 64,
            self.cap() == pow2(self.shift() as nat) <= usize::MAX,
            self.events().len() == self.count() < u64::MAX,
            self.stored() == trace::publications(self.events(), self.shift()),
            self.stored().len() == 11 * self.count(),
    {
        trace::lemma_publications(self.events(), self.shift(), 0);
    }

    /// Publish one event. Never blocks, never allocates; overwrites the
    /// oldest slot when full. Returns the event's global sequence.
    pub fn publish(&mut self, ev: &Event) -> (r: u64)
        requires
            old(self).wf(),
            old(self).count() < u64::MAX - 1,
        ensures
            final(self).wf(),
            final(self).cap() == old(self).cap(),
            final(self).shift() == old(self).shift(),
            final(self).shared() == old(self).shared(),
            r == old(self).count(),
            final(self).count() == old(self).count() + 1,
            final(self).events() == old(self).events().push(*ev),
            final(self).stored() == old(self).stored() + trace::publication(
                old(self).count(),
                old(self).shift(),
                *ev,
            ),
    {
        let s: u64 = self.next;
        let at: usize = self.ring.slot_index(s);
        let st: Stores = stores(s, self.ring.shift, ev);
        let ghost before = self.written@;
        self.ring.write(at, &st, &mut self.written);
        self.next = s + 1;
        // The new head comes AFTER the slot (consumers gate on versions, head
        // is only advisory for lag math).
        self.ring.mem.raise(s + 1, &mut self.written);
        self.events = Ghost(self.events@.push(*ev));
        proof {
            assert(self.written@ =~= before + trace::publication(s, self.ring.shift(), *ev));
            assert(self.events@.drop_last() =~= old(self).events());
        }
        s
    }

    /// Number of events published so far.
    pub fn published(&self) -> (r: u64)
        ensures
            r == self.count(),
    {
        self.next
    }

    /// New consumer starting at the CURRENT head (sees only future events).
    pub fn subscribe(&self) -> (r: Consumer)
        requires
            self.wf(),
        ensures
            r.wf(),
            r.cap() == self.cap(),
            r.shift() == self.shift(),
            r.shared() == self.shared(),
            r.next_seq() == self.count(),
            r.loads() == Seq::<Access>::empty(),
    {
        Consumer { ring: share(&self.ring), next: self.next, seen: Seen::new() }
    }

    /// Ring capacity (power of two).
    pub fn capacity(&self) -> (r: usize)
        ensures
            r == self.cap(),
    {
        self.ring.mem.count()
    }

    /// Shared ring for out-of-band subscription.
    pub fn ring_arc(&self) -> (r: Arc<Ring>)
        requires
            self.wf(),
        ensures
            r.wf(),
            *r == self.shared(),
            r.cap() == self.cap(),
            r.shift() == self.shift(),
    {
        share(&self.ring)
    }
}

/// Subscribe on a shared ring at the current head.
pub fn subscribe_ring(ring: &Arc<Ring>) -> (r: Consumer)
    requires
        ring.wf(),
    ensures
        r.wf(),
        r.cap() == ring.cap(),
        r.shift() == ring.shift(),
        r.shared() == **ring,
        r.loads() == seq![Access::Head { n: r.next_seq() }],
{
    let mut seen: Seen = Seen::new();
    let next: u64 = ring.mem.head(&mut seen);
    assert(seen@ =~= seq![Access::Head { n: next }]);
    Consumer { ring: share(ring), next, seen }
}

/// An independent consumer cursor. Cheap to create; does not affect the
/// producer or other consumers.
pub struct Consumer {
    ring: Arc<Ring>,
    next: u64,
    /// The loads that it has made.
    seen: Seen,
}

impl Consumer {
    /// The number of slots.
    pub closed spec fn cap(&self) -> nat {
        self.ring.cap()
    }

    /// The power of two that the number of slots is.
    pub closed spec fn shift(&self) -> u32 {
        self.ring.shift()
    }

    /// The ring that it shares with the producer.
    pub closed spec fn shared(&self) -> Ring {
        *self.ring
    }

    /// The next sequence this consumer expects.
    pub closed spec fn next_seq(&self) -> u64 {
        self.next
    }

    /// The loads from the shared memory, in their order.
    pub closed spec fn loads(&self) -> Seq<Access> {
        self.seen@
    }

    /// The ring is well-formed.
    pub closed spec fn wf(&self) -> bool {
        self.ring.wf()
    }

    /// The values `v1`, `w`, `v2` and `head`, as far as a poll of the consumer
    /// `before` loads them, are what it has loaded by now, and the rest of
    /// what has changed is what they come to: the result `r` and the cursor.
    pub open spec fn polled(
        &self,
        before: Consumer,
        v1: u64,
        w: Seq<u64>,
        v2: u64,
        head: u64,
        r: Recv,
    ) -> bool {
        &&& w.len() == 8
        &&& self.loads() == before.loads() + trace::poll_loads(
            before.next_seq(),
            before.shift(),
            v1,
            w,
            v2,
            head,
        )
        &&& (r, self.next_seq()) == settled(
            before.next_seq(),
            before.shift(),
            v1,
            words::event_of(w),
            v2,
            head,
        )
    }

    /// Poll for the next event (non-blocking). It loads the version of the
    /// slot of its sequence; where that is the expected one, the words of that
    /// slot and its version again; and the head counter where the slot was
    /// overwritten. What comes out, and where the cursor goes, is what
    /// [`settle`] makes of these values.
    pub fn try_next(&mut self) -> (r: Recv)
        requires
            old(self).wf(),
            old(self).next_seq() < u64::MAX,
        ensures
            final(self).wf(),
            final(self).cap() == old(self).cap(),
            final(self).shift() == old(self).shift(),
            final(self).shared() == old(self).shared(),
            match r {
                Recv::Event(_) => final(self).next_seq() == old(self).next_seq() + 1,
                Recv::Empty => final(self).next_seq() == old(self).next_seq(),
                Recv::Lagged { lost } => lost >= 1 && final(self).next_seq() == old(
                    self,
                ).next_seq() + lost,
            },
            exists|v1: u64, w: Seq<u64>, v2: u64, head: u64| #[trigger]
                final(self).polled(*old(self), v1, w, v2, head, r),
    {
        let s: u64 = self.next;
        let shift: u32 = self.ring.shift;
        let at: usize = self.ring.slot_index(s);
        let v1: u64 = self.ring.mem.version(at, &mut self.seen);
        let mut w: [u64; 8] = [0, 0, 0, 0, 0, 0, 0, 0];
        let mut v2: u64 = v1;
        let first: Peek = classify(s, shift, v1);
        if first == Peek::Ready {
            w = self.ring.read_words(at, &mut self.seen);
            v2 = self.ring.mem.version_again(at, &mut self.seen);
        }
        // The head matters only where the slot was overwritten, before the
        // copy or during it.
        let mut head: u64 = 0;
        if first == Peek::Lapped || v2 != v1 {
            head = self.ring.mem.head(&mut self.seen);
        }
        let (r, next): (Recv, u64) = settle(s, shift, v1, words::to_event(&w), v2, head);
        self.next = next;
        proof {
            assert(self.loads() =~= old(self).loads() + trace::poll_loads(
                s,
                shift,
                v1,
                w@,
                v2,
                head,
            ));
            assert(self.polled(*old(self), v1, w@, v2, head, r));
        }
        r
    }

    /// The next sequence this consumer expects.
    pub fn cursor(&self) -> (r: u64)
        ensures
            r == self.next_seq(),
    {
        self.next
    }

    /// How far behind the producer this consumer is right now: what [`lag_of`]
    /// makes of the head counter.
    pub fn lag(&self) -> (r: u64)
        ensures
            self.next_seq() + r <= u64::MAX,
    {
        let mut seen: Seen = Seen::new();
        lag_of(self.ring.mem.head(&mut seen), self.next)
    }
}

} // verus!
