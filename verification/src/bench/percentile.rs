//! Exact percentiles from raw samples, nearest-rank method.
//!
//! `P(q) = sorted[ceil(q * n) - 1]` for `q` in (0, 1]. No interpolation:
//! every reported value is a sample that actually occurred. For small `n`
//! the high percentiles saturate at the max: with 100 samples there is no
//! p999, and this method reports the max instead of inventing one.
use crate::order;
use vstd::prelude::*;

verus! {

/// Summary of a raw sample set (units are whatever the samples were in;
/// by convention nanoseconds).
#[derive(Debug, Clone, Copy, PartialEq, Eq, Structural)]
pub struct Percentiles {
    /// Sample count.
    pub n: u64,
    /// Minimum.
    pub min: u64,
    /// Nearest-rank p50.
    pub p50: u64,
    /// Nearest-rank p90.
    pub p90: u64,
    /// Nearest-rank p99.
    pub p99: u64,
    /// Nearest-rank p99.9.
    pub p999: u64,
    /// Maximum.
    pub max: u64,
}

/// The place of the nearest rank of `mille` thousandths among `n` samples.
pub open spec fn rank_place(n: int, mille: int) -> int {
    (n * mille + 999) / 1000 - 1
}

/// The summary of ascending samples.
pub open spec fn summary(s: Seq<u64>) -> Percentiles {
    let n = s.len() as int;
    Percentiles {
        n: n as u64,
        min: s[0],
        p50: s[rank_place(n, 500)],
        p90: s[rank_place(n, 900)],
        p99: s[rank_place(n, 990)],
        p999: s[rank_place(n, 999)],
        max: s[n - 1],
    }
}

/// The place of a nearest rank is one of the samples'.
pub proof fn lemma_rank_place(n: int, mille: int)
    requires
        n > 0,
        0 < mille <= 1000,
    ensures
        0 <= rank_place(n, mille) < n,
{
    assert(1 <= n * mille <= n * 1000) by (nonlinear_arith)
        requires
            n > 0,
            0 < mille <= 1000,
    ;
}

/// A higher percentile is never lower.
pub proof fn lemma_percentiles_ordered(s: Seq<u64>)
    requires
        s.len() > 0,
        order::ascending(s),
    ensures
        summary(s).min <= summary(s).p50 <= summary(s).p90 <= summary(s).p99 <= summary(s).p999
            <= summary(s).max,
{
    let n = s.len() as int;
    lemma_rank_place(n, 500);
    lemma_rank_place(n, 900);
    lemma_rank_place(n, 990);
    lemma_rank_place(n, 999);
}

/// The sample at the nearest rank.
fn rank(s: &[u64], mille: u128) -> (r: u64)
    requires
        s@.len() > 0,
        0 < mille <= 1000,
    ensures
        r == s@[rank_place(s@.len() as int, mille as int)],
{
    let n: u128 = s.len() as u128;
    proof {
        lemma_rank_place(n as int, mille as int);
        assert(n * mille <= n * 1000) by (nonlinear_arith)
            requires
                mille <= 1000,
        ;
    }
    let at: u128 = (n * mille + 999) / 1000 - 1;
    s[at as usize]
}

impl Percentiles {
    /// Compute from unsorted samples. Returns `None` for an empty set: there
    /// is no honest summary of zero samples.
    pub fn from_samples(samples: &[u64]) -> (r: Option<Percentiles>)
        ensures
            match r {
                None => samples@.len() == 0,
                Some(p) => samples@.len() > 0 && exists|s: Seq<u64>| #[trigger]
                    order::sorted_form(s, samples@) && p == summary(s),
            },
    {
        if samples.len() == 0 {
            return None;
        }
        let s: Vec<u64> = sorted(samples);
        assert(order::sorted_form(s@, samples@));
        Some(Self::from_sorted(s.as_slice()))
    }

    /// Compute from already-sorted samples (ascending).
    pub fn from_sorted(s: &[u64]) -> (r: Percentiles)
        requires
            s@.len() > 0,
            order::ascending(s@),
        ensures
            r == summary(s@),
    {
        Percentiles {
            n: s.len() as u64,
            min: s[0],
            p50: rank(s, 500),
            p90: rank(s, 900),
            p99: rank(s, 990),
            p999: rank(s, 999),
            max: s[s.len() - 1],
        }
    }
}

/// The samples in ascending order.
pub fn sorted(samples: &[u64]) -> (r: Vec<u64>)
    ensures
        order::sorted_form(r@, samples@),
        r@.len() == samples@.len(),
{
    let mut v: Vec<u64> = vstd::slice::slice_to_vec(samples);
    order::sort_numbers(&mut v);
    proof {
        v@.to_multiset_ensures();
        samples@.to_multiset_ensures();
    }
    v
}

/// Nearest-rank median (lower median for even n), consistent with
/// [`Percentiles`]' p50.
pub fn median_ns(samples: &[u64]) -> (r: u64)
    requires
        samples@.len() > 0,
    ensures
        exists|s: Seq<u64>| #[trigger]
            order::sorted_form(s, samples@) && r == s[rank_place(
                s.len() as int,
                500,
            )],
{
    let s: Vec<u64> = sorted(samples);
    assert(order::sorted_form(s@, samples@));
    rank(s.as_slice(), 500)
}

} // verus!
