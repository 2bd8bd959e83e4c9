//! How many messages a run sends, when each goes out, and which of them are
//! sampled.
use vstd::prelude::*;

verus! {

/// The quotient, rounded up.
pub open spec fn div_up(a: int, b: int) -> int {
    (a + b - 1) / b
}

/// Deterministic sampling stride so `total_msgs` messages yield at most
/// `cap` samples: every `stride`-th delivered message is kept.
pub open spec fn stride_of(total_msgs: u64, cap: u64) -> int {
    if cap == 0 {
        if total_msgs > 0 {
            total_msgs as int
        } else {
            1
        }
    } else if total_msgs == 0 {
        1
    } else {
        div_up(total_msgs as int, cap as int)
    }
}

/// Deterministic sampling stride so `total_msgs` messages yield at most
/// `cap` samples: every `stride`-th delivered message is kept.
pub fn sample_stride(total_msgs: u64, cap: u64) -> (r: u64)
    ensures
        r == stride_of(total_msgs, cap),
        r >= 1,
        cap > 0 ==> div_up(total_msgs as int, r as int) <= cap,
{
    if cap == 0 {
        return if total_msgs > 0 {
            total_msgs
        } else {
            1
        };
    }
    proof {
        lemma_stride(total_msgs as int, cap as int);
    }
    if total_msgs == 0 {
        return 1;
    }
    let q: u64 = total_msgs / cap;
    if total_msgs % cap == 0 {
        q
    } else {
        q + 1
    }
}

/// A stride keeps at most as many messages as the cap allows.
pub proof fn lemma_stride(total: int, cap: int)
    requires
        0 <= total,
        cap > 0,
    ensures
        div_up(total, cap) == total / cap + if total % cap == 0 {
            0int
        } else {
            1
        },
        total > 0 ==> div_up(total, cap) >= 1 && div_up(total, div_up(total, cap)) <= cap,
        total / cap <= total,
        total % cap > 0 ==> total / cap < total,
        div_up(0, 1) == 0,
{
    let (q, m) = (total / cap, total % cap);
    vstd::arithmetic::div_mod::lemma_fundamental_div_mod(total, cap);
    assert(0 <= m < cap && 0 <= q && total == cap * q + m && q <= total) by (nonlinear_arith)
        requires
            q == total / cap,
            m == total % cap,
            0 <= total,
            cap > 0,
            total == cap * (total / cap) + total % cap,
    ;
    assert(cap * q == q * cap && cap * (q + 1) == (q + 1) * cap && cap * (q + 1) == cap * q + cap)
        by (nonlinear_arith);
    assert(m > 0 ==> q < total) by (nonlinear_arith)
        requires
            0 <= m < cap,
            0 <= q,
            total == cap * q + m,
    ;
    if m == 0 {
        vstd::arithmetic::div_mod::lemma_fundamental_div_mod_converse(
            total + cap - 1,
            cap,
            q,
            cap - 1,
        );
    } else {
        vstd::arithmetic::div_mod::lemma_fundamental_div_mod_converse(
            total + cap - 1,
            cap,
            q + 1,
            m - 1,
        );
    }
    let s = div_up(total, cap);
    if total > 0 {
        assert(s >= 1) by {
            if m == 0 && q == 0 {
                assert(cap * q == 0) by (nonlinear_arith)
                    requires
                        q == 0,
                ;
            }
        }
        assert(total <= cap * s) by (nonlinear_arith)
            requires
                total == cap * q + m,
                s == q + (if m == 0 {
                    0int
                } else {
                    1
                }),
                0 <= m < cap,
        ;
        let up = div_up(total, s);
        vstd::arithmetic::div_mod::lemma_fundamental_div_mod(total + s - 1, s);
        let rem = (total + s - 1) % s;
        assert(up <= cap) by (nonlinear_arith)
            requires
                total <= cap * s,
                s >= 1,
                total + s - 1 == s * up + rem,
                0 <= rem,
        ;
    }
}

/// Nanoseconds after the start at which message `i` goes out at `rate` per
/// second: at most the last instant that there is.
pub open spec fn offset_of(i: u64, rate: u64) -> u64 {
    let off = (i * 1_000_000_000) / (rate as int);
    if off > u64::MAX {
        u64::MAX
    } else {
        off as u64
    }
}

/// Absolute pacing schedule: nanoseconds after start at which event `i`
/// must be sent to hold `rate` events/s.
pub fn send_deadline_ns(i: u64, rate: u64) -> (r: u64)
    requires
        rate > 0,
    ensures
        r == offset_of(i, rate),
{
    let off: u128 = (i as u128 * 1_000_000_000) / rate as u128;
    if off > u64::MAX as u128 {
        u64::MAX
    } else {
        off as u64
    }
}

/// When message `index` goes out: a rate of zero counts as one.
pub open spec fn pace_target(start_ns: u64, index: u64, rate: u64) -> u64 {
    let off = offset_of(
        index,
        if rate == 0 {
            1
        } else {
            rate
        },
    );
    if start_ns + off > u64::MAX {
        u64::MAX
    } else {
        (start_ns + off) as u64
    }
}

/// Absolute-schedule pacing: the mono-ns deadline for message `index` at
/// `rate` msg/s starting from `start_ns`.
pub fn pace_target_ns(start_ns: u64, index: u64, rate: u64) -> (r: u64)
    ensures
        r == pace_target(start_ns, index, rate),
{
    let off: u64 = send_deadline_ns(
        index,
        if rate == 0 {
            1
        } else {
            rate
        },
    );
    if off > u64::MAX - start_ns {
        u64::MAX
    } else {
        start_ns + off
    }
}

/// A later message never goes out earlier.
pub proof fn lemma_pace_is_monotone(start_ns: u64, i: u64, j: u64, rate: u64)
    requires
        i <= j,
    ensures
        start_ns <= pace_target(start_ns, i, rate) <= pace_target(start_ns, j, rate),
        pace_target(start_ns, 0, rate) == start_ns,
{
    let d: int = if rate == 0 {
        1
    } else {
        rate as int
    };
    vstd::arithmetic::div_mod::lemma_div_is_ordered(i * 1_000_000_000, j * 1_000_000_000, d);
    vstd::arithmetic::div_mod::lemma_div_pos_is_pos(i * 1_000_000_000, d);
    vstd::arithmetic::div_mod::lemma_div_basics(d);
}

} // verus!
