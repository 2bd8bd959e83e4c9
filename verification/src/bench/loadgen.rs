//! Synthetic event load generation (deterministic, seeded) for bus and
//! store benchmarks where captured data would conflate producer cost with
//! the system under test.
use crate::event::{Event, EventKind};
use vstd::prelude::*;

verus! {

/// Deterministic event stream: SplitMix64-driven, book-shaped (clustered
/// prices, small quantities, mostly level sets with occasional trades).
#[derive(Debug, Clone)]
pub struct EventGen {
    state: u64,
    t_ns: u64,
    price: i64,
    seq: u64,
}

/// The state of a generator.
pub struct GenState {
    /// The random state.
    pub state: u64,
    /// The monotonic time of the last event.
    pub t_ns: u64,
    /// The price of the last event.
    pub price: i64,
    /// The sequence number of the last event.
    pub seq: u64,
}

/// Wall time of the monotonic clock's zero.
pub const WALL_BASE: u64 = 1_700_000_000_000_000_000;

/// The output of the random state `s`.
pub open spec fn mixed(s: u64) -> u64 {
    let a = (s ^ (s >> 30)).wrapping_mul(0xBF58_476D_1CE4_E5B9);
    let b = (a ^ (a >> 27)).wrapping_mul(0x94D0_49BB_1331_11EB);
    b ^ (b >> 31)
}

/// The random state after `s`.
pub open spec fn advanced(s: u64) -> u64 {
    s.wrapping_add(0x9E37_79B9_7F4A_7C15)
}

/// The kind of event that the random number `x` makes.
pub open spec fn kind_for(x: u64) -> EventKind {
    if x % 10 == 0 {
        EventKind::Trade
    } else if x % 10 <= 5 {
        EventKind::BidSet
    } else {
        EventKind::AskSet
    }
}

impl GenState {
    /// The state that a seed starts from.
    pub open spec fn seeded(seed: u64) -> GenState {
        GenState { state: seed, t_ns: 1_000_000_000, price: 6_358_964_000_000, seq: 1 }
    }

    /// The state after one more event.
    pub open spec fn next(self) -> GenState {
        let state = advanced(self.state);
        let x = mixed(state);
        GenState {
            state,
            t_ns: (self.t_ns + 50_000 + x % 400_000) as u64,
            price: (self.price + ((x >> 8) % 2001) - 1000) as i64,
            seq: (self.seq + 1) as u64,
        }
    }

    /// The event that leads to this state.
    pub open spec fn event(self) -> Event {
        let x = mixed(self.state);
        Event {
            recv_mono_ns: self.t_ns,
            recv_wall_ns: (self.t_ns + WALL_BASE) as u64,
            venue_ts_ns: (self.t_ns + WALL_BASE - 3_000_000) as u64,
            venue_seq: self.seq,
            price: self.price,
            qty: ((x >> 16) % 500_000_000) as i64,
            aux: self.seq,
            instrument: (x % 15 + 1) as u32,
            kind: kind_for(x).code_spec(),
            venue: (x % 3 + 1) as u8,
            flags: 0,
            rsvd: 0,
        }
    }

    /// The state after `n` more events.
    pub open spec fn after(self, n: nat) -> GenState
        decreases n,
    {
        if n == 0 {
            self
        } else {
            self.after((n - 1) as nat).next()
        }
    }

    /// There is room for `n` more events: no field runs out of its range.
    pub open spec fn room(self, n: nat) -> bool {
        &&& self.t_ns + n * 450_000 + WALL_BASE <= u64::MAX
        &&& i64::MIN + n * 1000 <= self.price <= i64::MAX - n * 1000
        &&& self.seq + n <= u64::MAX
    }
}

/// One event takes the room of one.
pub proof fn lemma_room(g: GenState, n: nat)
    requires
        n > 0,
        g.room(n),
    ensures
        g.next().room((n - 1) as nat),
        g.t_ns + 50_000 <= g.next().t_ns <= g.t_ns + 450_000,
        g.price - 1000 <= g.next().price <= g.price + 1000,
        g.next().seq == g.seq + 1,
{
    let x = mixed(advanced(g.state));
    assert(x % 400_000 < 400_000);
    assert((x >> 8) % 2001 < 2001);
    assert(n * 450_000 == (n - 1) * 450_000 + 450_000) by (nonlinear_arith);
    assert(n * 1000 == (n - 1) * 1000 + 1000) by (nonlinear_arith);
}

/// There is room on the way to `n` events.
pub proof fn lemma_room_after(g: GenState, n: nat, k: nat)
    requires
        k <= n,
        g.room(n),
    ensures
        g.after(k).room((n - k) as nat),
        g.after(k).t_ns >= g.t_ns + k * 50_000,
    decreases k,
{
    if k > 0 {
        lemma_room_after(g, n, (k - 1) as nat);
        lemma_room(g.after((k - 1) as nat), (n - (k - 1)) as nat);
    }
}

/// The receive stamps of a stream strictly increase, and every event of it is
/// valid: a known kind, an instrument from 1 to 15, a venue from 1 to 3.
pub proof fn lemma_stream_is_valid(g: GenState, i: nat, j: nat)
    requires
        0 < i < j,
        g.room(j),
    ensures
        g.after(i).event().recv_mono_ns < g.after(j).event().recv_mono_ns,
        g.after(i).event().venue_seq < g.after(j).event().venue_seq,
        crate::event::kind_of(g.after(i).event().kind) is Ok,
        1 <= g.after(i).event().instrument <= 15,
        1 <= g.after(i).event().venue <= 3,
    decreases j,
{
    let x = mixed(g.after(i).state);
    assert(x % 15 < 15);
    assert(x % 3 < 3);
    lemma_room_after(g, j, (j - 1) as nat);
    lemma_room(g.after((j - 1) as nat), 1);
    if i < j - 1 {
        assert(g.room((j - 1) as nat));
        lemma_stream_is_valid(g, i, (j - 1) as nat);
    }
}

impl View for EventGen {
    type V = GenState;

    closed spec fn view(&self) -> GenState {
        GenState { state: self.state, t_ns: self.t_ns, price: self.price, seq: self.seq }
    }
}

impl EventGen {
    /// Seeded generator; equal seeds produce identical streams.
    pub fn new(seed: u64) -> (r: EventGen)
        ensures
            r@ == GenState::seeded(seed),
    {
        EventGen { state: seed, t_ns: 1_000_000_000, price: 6_358_964_000_000, seq: 1 }
    }

    /// The next random number.
    fn next_u64(&mut self) -> (r: u64)
        ensures
            final(self)@ == (GenState { state: advanced(old(self)@.state), ..old(self)@ }),
            r == mixed(final(self)@.state),
    {
        self.state = self.state.wrapping_add(0x9E37_79B9_7F4A_7C15);
        let s: u64 = self.state;
        let a: u64 = (s ^ (s >> 30)).wrapping_mul(0xBF58_476D_1CE4_E5B9);
        let b: u64 = (a ^ (a >> 27)).wrapping_mul(0x94D0_49BB_1331_11EB);
        b ^ (b >> 31)
    }

    /// Next synthetic event.
    pub fn next_event(&mut self) -> (r: Event)
        requires
            old(self)@.room(1),
        ensures
            final(self)@ == old(self)@.next(),
            r == final(self)@.event(),
    {
        proof {
            lemma_room(self@, 1);
        }
        let x: u64 = self.next_u64();
        self.t_ns = self.t_ns + 50_000 + x % 400_000;
        let step: i64 = ((x >> 8) % 2001) as i64 - 1000;
        self.price = self.price + step;
        self.seq = self.seq + 1;
        let d: u64 = x % 10;
        let kind: EventKind = if d == 0 {
            EventKind::Trade
        } else if d <= 5 {
            EventKind::BidSet
        } else {
            EventKind::AskSet
        };
        let wall: u64 = self.t_ns + WALL_BASE;
        Event {
            recv_mono_ns: self.t_ns,
            recv_wall_ns: wall,
            venue_ts_ns: wall - 3_000_000,
            venue_seq: self.seq,
            price: self.price,
            qty: ((x >> 16) % 500_000_000) as i64,
            aux: self.seq,
            instrument: (x % 15) as u32 + 1,
            kind: kind.code(),
            venue: (x % 3) as u8 + 1,
            flags: 0,
            rsvd: 0,
        }
    }

    /// Fill a buffer with the next `n` events.
    pub fn fill(&mut self, n: usize, out: &mut Vec<Event>)
        requires
            old(self)@.room(n as nat),
        ensures
            final(self)@ == old(self)@.after(n as nat),
            final(out)@ == Seq::new(n as nat, |i: int| old(self)@.after((i + 1) as nat).event()),
    {
        out.clear();
        let ghost g = self@;
        let mut i: usize = 0;
        while i < n
            invariant
                i <= n,
                g.room(n as nat),
                self@ == g.after(i as nat),
                out@ == Seq::new(i as nat, |i: int| g.after((i + 1) as nat).event()),
            decreases n - i,
        {
            proof {
                lemma_room_after(g, n as nat, i as nat);
                assert(self@.room(1));
            }
            let e: Event = self.next_event();
            out.push(e);
            assert(out@ =~= Seq::new((i + 1) as nat, |i: int| g.after((i + 1) as nat).event()));
            i += 1;
        }
    }
}

} // verus!
