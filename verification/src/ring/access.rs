//! The memory that a producer and its consumers share, and records of what
//! one of them has stored and loaded there.
//!
//! What a load gives rests on what the producer stores meanwhile, so nothing
//! is promised of it. But the producer alone stores, and what it stores rests
//! on nothing but its arguments: every function here that stores or loads a
//! word adds the access to the record of the handle that makes it, and
//! nothing else can. [`super::trace`] says what comes out of a load, given the
//! point of the producer's record at which it is made.
use crossbeam_utils::CachePadded;
use std::ops::Deref;
use std::sync::atomic::{AtomicU64, Ordering};
use vstd::prelude::*;

verus! {

/// A word of the shared memory and the value that is stored there, or loaded.
pub enum Access {
    /// The version of the slot `at`.
    Version { at: usize, v: u64 },
    /// The word `k` of the slot `at`.
    Word { at: usize, k: usize, w: u64 },
    /// The head counter.
    Head { n: u64 },
}

/// The stores of a producer, in their order.
pub struct Written {
    log: Ghost<Seq<Access>>,
}

impl Written {
    /// The stores.
    pub closed spec fn view(&self) -> Seq<Access> {
        self.log@
    }

    /// Nothing has been stored.
    pub(super) fn new() -> (r: Written)
        ensures
            r@ == Seq::<Access>::empty(),
    {
        Written { log: Ghost(Seq::empty()) }
    }
}

/// The loads of a consumer, in their order.
pub struct Seen {
    log: Ghost<Seq<Access>>,
}

impl Seen {
    /// The loads.
    pub closed spec fn view(&self) -> Seq<Access> {
        self.log@
    }

    /// Nothing has been loaded.
    pub(super) fn new() -> (r: Seen)
        ensures
            r@ == Seq::<Access>::empty(),
    {
        Seen { log: Ghost(Seq::empty()) }
    }
}

struct Slot {
    /// Seqlock version: odd while the producer is writing; after global
    /// sequence `s` is published here, equals `2 * (s / capacity + 1)`.
    version: AtomicU64,
    /// The words of the event.
    data: [AtomicU64; 8],
}

impl Slot {
    /// An unwritten slot: all its words are zero.
    fn new() -> Slot {
        Slot {
            version: AtomicU64::new(0),
            data: [
                AtomicU64::new(0),
                AtomicU64::new(0),
                AtomicU64::new(0),
                AtomicU64::new(0),
                AtomicU64::new(0),
                AtomicU64::new(0),
                AtomicU64::new(0),
                AtomicU64::new(0),
            ],
        }
    }
}

/// The slots of a ring and its head counter.
pub struct Memory {
    slots: Vec<CachePadded<Slot>>,
    /// Next sequence the producer will publish (== count published so far).
    head: CachePadded<AtomicU64>,
}

impl Memory {
    /// The number of slots.
    pub closed spec fn len(&self) -> nat {
        self.slots@.len()
    }

    /// `n` slots and a head counter, all of it zero.
    pub(super) fn new(n: usize) -> (r: Memory)
        ensures
            r.len() == n,
    {
        let mut slots: Vec<CachePadded<Slot>> = Vec::new();
        let mut i: usize = 0;
        while i < n
            invariant
                i <= n,
                slots@.len() == i,
            decreases n - i,
        {
            slots.push(CachePadded::new(Slot::new()));
            i += 1;
        }
        Memory { slots, head: CachePadded::new(AtomicU64::new(0)) }
    }

    /// The number of slots.
    pub(super) fn count(&self) -> (r: usize)
        ensures
            r == self.len(),
    {
        self.slots.len()
    }

    /// Store the version of a slot whose words are about to be written: it is
    /// seen before any of them.
    pub(super) fn announce(&self, at: usize, v: u64, log: &mut Written)
        requires
            at < self.len(),
        ensures
            final(log)@ == old(log)@.push(Access::Version { at, v }),
    {
        self.slots[at].deref().version.store(v, Ordering::Relaxed);
        std::sync::atomic::fence(Ordering::Release);
        log.log = Ghost(log.log@.push(Access::Version { at, v }));
    }

    /// Store one word of a slot.
    pub(super) fn put(&self, at: usize, k: usize, w: u64, log: &mut Written)
        requires
            at < self.len(),
            k < 8,
        ensures
            final(log)@ == old(log)@.push(Access::Word { at, k, w }),
    {
        self.slots[at].deref().data[k].store(w, Ordering::Relaxed);
        log.log = Ghost(log.log@.push(Access::Word { at, k, w }));
    }

    /// Store the version of a slot whose words have been written: it is seen
    /// after all of them.
    pub(super) fn complete(&self, at: usize, v: u64, log: &mut Written)
        requires
            at < self.len(),
        ensures
            final(log)@ == old(log)@.push(Access::Version { at, v }),
    {
        self.slots[at].deref().version.store(v, Ordering::Release);
        log.log = Ghost(log.log@.push(Access::Version { at, v }));
    }

    /// Store the head counter: it is seen after the slots in front of it.
    pub(super) fn raise(&self, n: u64, log: &mut Written)
        ensures
            final(log)@ == old(log)@.push(Access::Head { n }),
    {
        self.head.deref().store(n, Ordering::Release);
        log.log = Ghost(log.log@.push(Access::Head { n }));
    }

    /// Load the version of a slot, before any of its words.
    pub(super) fn version(&self, at: usize, log: &mut Seen) -> (v: u64)
        requires
            at < self.len(),
        ensures
            final(log)@ == old(log)@.push(Access::Version { at, v }),
    {
        let v: u64 = self.slots[at].deref().version.load(Ordering::Acquire);
        log.log = Ghost(log.log@.push(Access::Version { at, v }));
        v
    }

    /// Load one word of a slot.
    pub(super) fn word(&self, at: usize, k: usize, log: &mut Seen) -> (w: u64)
        requires
            at < self.len(),
            k < 8,
        ensures
            final(log)@ == old(log)@.push(Access::Word { at, k, w }),
    {
        let w: u64 = self.slots[at].deref().data[k].load(Ordering::Relaxed);
        log.log = Ghost(log.log@.push(Access::Word { at, k, w }));
        w
    }

    /// Load the version of a slot again, after all of its words.
    pub(super) fn version_again(&self, at: usize, log: &mut Seen) -> (v: u64)
        requires
            at < self.len(),
        ensures
            final(log)@ == old(log)@.push(Access::Version { at, v }),
    {
        std::sync::atomic::fence(Ordering::Acquire);
        let v: u64 = self.slots[at].deref().version.load(Ordering::Relaxed);
        log.log = Ghost(log.log@.push(Access::Version { at, v }));
        v
    }

    /// Load the head counter.
    pub(super) fn head(&self, log: &mut Seen) -> (n: u64)
        ensures
            final(log)@ == old(log)@.push(Access::Head { n }),
    {
        let n: u64 = self.head.deref().load(Ordering::Acquire);
        log.log = Ghost(log.log@.push(Access::Head { n }));
        n
    }
}

} // verus!
