//! Whether the backends of a comparison agree: nothing about their speed is
//! worth quoting before they do.
use super::compare::{PitTop, ScanRow, SqlPit};
use vstd::prelude::*;

verus! {

/// Disagreements that are told in full.
pub const REPORTED_MAX: u64 = 5;

/// What the backends have agreed on so far.
#[derive(Debug, Clone, Copy, PartialEq, Eq, Structural)]
pub struct Parity {
    /// Every backend gives the same full-scan rows.
    pub full_scan_equal: bool,
    /// Every backend has given the same top of book for every query.
    pub pit_tops_equal: bool,
    /// Queries for which there was a complete snapshot.
    pub hits: u64,
    /// Queries for which a backend's own anchor was another one.
    pub divergences: u64,
    /// Disagreements told in full.
    pub reported: u64,
}

/// Two levels are the same.
fn same_level(a: Option<(i64, i64)>, b: Option<(i64, i64)>) -> (r: bool)
    ensures
        r == (a == b),
{
    match (a, b) {
        (Some(x), Some(y)) => x.0 == y.0 && x.1 == y.1,
        (None, None) => true,
        _ => false,
    }
}

/// Two instants are the same.
fn same_instant(a: Option<u64>, b: Option<u64>) -> (r: bool)
    ensures
        r == (a == b),
{
    match (a, b) {
        (Some(x), Some(y)) => x == y,
        (None, None) => true,
        _ => false,
    }
}

/// Two tops of book are the same.
pub fn same_top(a: &PitTop, b: &PitTop) -> (r: bool)
    ensures
        r == (*a == *b),
{
    same_instant(a.anchor_mono, b.anchor_mono) && same_level(a.best_bid, b.best_bid)
        && same_level(a.best_ask, b.best_ask)
}

/// Two lists of rows are the same.
pub fn same_rows(a: &[ScanRow], b: &[ScanRow]) -> (r: bool)
    ensures
        r == (a@ == b@),
{
    if a.len() != b.len() {
        return false;
    }
    let mut i: usize = 0;
    while i < a.len()
        invariant
            i <= a@.len(),
            a@.len() == b@.len(),
            forall|j: int| 0 <= j < i ==> a@[j] == b@[j],
        decreases a@.len() - i,
    {
        if a[i] != b[i] {
            return false;
        }
        i += 1;
    }
    assert(a@ =~= b@);
    true
}

impl Parity {
    /// Compare the full-scan rows of the backends. A disagreement is told.
    pub fn scanned(ours: &[ScanRow], one: &[ScanRow], other: &[ScanRow]) -> (r: Self)
        ensures
            r.full_scan_equal == (ours@ == one@ && ours@ == other@),
            r.pit_tops_equal,
            r.hits == 0,
            r.divergences == 0,
            r.reported == if r.full_scan_equal {
                0int
            } else {
                1
            },
    {
        let equal: bool = same_rows(ours, one) && same_rows(ours, other);
        Parity {
            full_scan_equal: equal,
            pit_tops_equal: true,
            hits: 0,
            divergences: 0,
            reported: if equal {
                0
            } else {
                1
            },
        }
    }

    /// Compare the backends' answers to one query. Returns whether they
    /// disagree and this is to be told.
    pub fn queried(&mut self, ours: &PitTop, one: &SqlPit, other: &SqlPit) -> (r: bool)
        requires
            old(self).hits < u64::MAX,
            old(self).divergences < u64::MAX,
        ensures
            final(self).full_scan_equal == old(self).full_scan_equal,
            final(self).pit_tops_equal == (old(self).pit_tops_equal && one.top == *ours
                && other.top == *ours),
            final(self).hits == old(self).hits + if ours.anchor_mono is Some {
                1int
            } else {
                0
            },
            final(self).divergences == old(self).divergences + if one.anchor_diverged
                || other.anchor_diverged {
                1int
            } else {
                0
            },
            r == (!(one.top == *ours && other.top == *ours) && old(self).reported
                < REPORTED_MAX),
            final(self).reported == old(self).reported + if r {
                1int
            } else {
                0
            },
    {
        if ours.anchor_mono.is_some() {
            self.hits = self.hits + 1;
        }
        if one.anchor_diverged || other.anchor_diverged {
            self.divergences = self.divergences + 1;
        }
        if same_top(&one.top, ours) && same_top(&other.top, ours) {
            return false;
        }
        self.pit_tops_equal = false;
        if self.reported < REPORTED_MAX {
            self.reported = self.reported + 1;
            true
        } else {
            false
        }
    }

    /// True if the backends have agreed on everything.
    pub fn ok(&self) -> (r: bool)
        ensures
            r == (self.full_scan_equal && self.pit_tops_equal),
    {
        self.full_scan_equal && self.pit_tops_equal
    }
}

} // verus!
