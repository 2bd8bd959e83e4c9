//! Sorting.
use vstd::prelude::*;

verus! {

/// `s` never descends.
pub open spec fn ascending(s: Seq<u64>) -> bool {
    forall|i: int, j: int| 0 <= i <= j < s.len() ==> s[i] <= s[j]
}

/// `s` is `t` with its items put in ascending order.
pub open spec fn sorted_form(s: Seq<u64>, t: Seq<u64>) -> bool {
    ascending(s) && s.to_multiset() == t.to_multiset()
}

/// A sequence has only one sorted form.
pub proof fn lemma_sorted_form_unique(a: Seq<u64>, b: Seq<u64>, t: Seq<u64>)
    requires
        sorted_form(a, t),
        sorted_form(b, t),
    ensures
        a == b,
{
    let leq = |x: u64, y: u64| x <= y;
    assert(vstd::relations::sorted_by(a, leq));
    assert(vstd::relations::sorted_by(b, leq));
    assert(vstd::relations::total_ordering(leq));
    vstd::seq_lib::lemma_sorted_unique(a, b, leq);
}

/// `slice::sort_unstable` on numbers: the same items, in ascending order.
#[verifier::external_body]
pub(crate) fn sort_numbers(v: &mut Vec<u64>)
    ensures
        sorted_form(final(v)@, old(v)@),
{
    v.sort_unstable();
}

} // verus!
