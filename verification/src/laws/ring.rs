//! Laws of the broadcast ring.
use crate::event::Event;
use crate::ring;
use crate::ring::{trace, words, Recv};
use vstd::arithmetic::power2::*;
use vstd::prelude::*;

verus! {

/// A lapped consumer jumps to the oldest event that is still there, and by
/// one event at least.
pub proof fn lemma_lost_count(s: nat, cap: nat, head: nat)
    ensures
        ({
            let n = ring::lost_count(s, cap, head);
            &&& n >= 1
            &&& head > cap + s ==> s + n == head - cap
            &&& head <= cap + s ==> n == 1
        }),
{
}

/// The lag of a consumer is what it takes to reach the head, and nothing
/// where it is there.
pub proof fn lemma_lag(head: nat, next: nat)
    ensures
        head >= next ==> next + ring::lag_count(head, next) == head,
        head < next ==> ring::lag_count(head, next) == 0,
{
}

/// What the versions of a slot say to a consumer: an older one that its event
/// has not come, the expected one before and after the copy that the copy is
/// its event, and anything else that it was lapped.
pub proof fn lemma_settled(s: u64, shift: u32, v1: u64, e: Event, v2: u64, head: u64)
    requires
        1 <= shift < 64,
        s < u64::MAX - 1,
    ensures
        ({
            let want = 2 * (s as nat / pow2(shift as nat) + 1);
            let (r, next) = ring::settled(s, shift, v1, e, v2, head);
            &&& (r is Empty <==> v1 < want)
            &&& (r is Event <==> v1 == want && v2 == want)
            &&& (r is Lagged <==> v1 > want || (v1 == want && v2 != want))
            &&& r is Empty ==> next == s
            &&& r matches Recv::Event(x) ==> x == e && next == s + 1
        }),
{
    ring::lemma_expected(s, shift);
}

/// Consecutive events go to consecutive slots, and an event shares its slot
/// exactly with those that are whole rounds away.
pub proof fn lemma_slots(s: u64, shift: u32)
    requires
        pow2(shift as nat) <= usize::MAX,
    ensures
        trace::slot_of(s, shift) < pow2(shift as nat),
        s + pow2(shift as nat) <= u64::MAX ==> trace::slot_of(
            (s + pow2(shift as nat)) as u64,
            shift,
        ) == trace::slot_of(s, shift),
        s < u64::MAX ==> trace::slot_of((s + 1) as u64, shift) == (if trace::slot_of(s, shift) + 1
            == pow2(shift as nat) {
            0int
        } else {
            trace::slot_of(s, shift) + 1
        }),
{
    let n = pow2(shift as nat) as int;
    lemma_pow2_pos(shift as nat);
    let q = s as int / n;
    let m = s as int % n;
    vstd::arithmetic::div_mod::lemma_fundamental_div_mod(s as int, n);
    vstd::arithmetic::div_mod::lemma_mod_bound(s as int, n);
    vstd::arithmetic::div_mod::lemma_mod_add_multiples_vanish(s as int, n);
    assert((n + s) % n == s as int % n);
    if m + 1 == n {
        assert(s + 1 == n * (q + 1)) by (nonlinear_arith)
            requires
                s == n * q + m,
                m + 1 == n,
        ;
        vstd::arithmetic::div_mod::lemma_mod_multiples_basic(q + 1, n);
        assert((q + 1) * n == n * (q + 1)) by (nonlinear_arith);
    } else {
        vstd::arithmetic::div_mod::lemma_fundamental_div_mod_converse(s as int + 1, n, q, m + 1);
    }
}

/// The words of an event give the event back.
pub proof fn lemma_words(e: Event)
    ensures
        words::words_of(e).len() == 8,
        words::event_of(words::words_of(e)) == e,
{
    words::lemma_words_roundtrip(e);
}

} // verus!
