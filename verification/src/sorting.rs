//! Ascending order on sample values: what it means, that it is unique, and a
//! routine that establishes it.

use vstd::prelude::*;
use vstd::relations::{sorted_by, total_ordering};
use vstd::seq_lib::{lemma_sorted_unique, to_multiset_build, to_multiset_insert};

verus! {

/// No entry of `s` is larger than a later one.
pub open spec fn ascending(s: Seq<u32>) -> bool {
    forall|i: int, j: int| 0 <= i <= j < s.len() ==> s[i] <= s[j]
}

/// The order that samples are sorted by.
pub open spec fn at_most() -> spec_fn(u32, u32) -> bool {
    |a: u32, b: u32| a <= b
}

/// The entries of `s`, each as often as it occurs in `s`, in ascending order.
pub open spec fn sorted(s: Seq<u32>) -> Seq<u32> {
    s.sort_by(at_most())
}

/// `t` holds the entries of `s`, each as often as `s` does.
pub open spec fn rearranges(t: Seq<u32>, s: Seq<u32>) -> bool {
    t.to_multiset() == s.to_multiset()
}

proof fn lemma_at_most_is_total()
    ensures
        total_ordering(at_most()),
{
}

proof fn lemma_ascending_is_sorted_by(s: Seq<u32>)
    ensures
        ascending(s) <==> sorted_by(s, at_most()),
{
    if sorted_by(s, at_most()) {
        assert forall|i: int, j: int| 0 <= i <= j < s.len() implies s[i] <= s[j] by {
            if i < j {
                assert(at_most()(s[i], s[j]));
            }
        }
    }
    if ascending(s) {
        assert forall|i: int, j: int| 0 <= i < j < s.len() implies #[trigger] at_most()(
            s[i],
            s[j],
        ) by {}
    }
}

/// `sorted(s)` is in ascending order and rearranges `s`.
pub proof fn lemma_sorted_rearranges(s: Seq<u32>)
    ensures
        ascending(sorted(s)),
        rearranges(sorted(s), s),
        sorted(s).len() == s.len(),
{
    lemma_at_most_is_total();
    s.lemma_sort_by_ensures(at_most());
    lemma_ascending_is_sorted_by(sorted(s));
    sorted(s).to_multiset_ensures();
    s.to_multiset_ensures();
}

/// Only one ascending sequence rearranges `s`: any such sequence is
/// `sorted(s)`.
pub proof fn lemma_sorted_unique_arrangement(s: Seq<u32>, t: Seq<u32>)
    requires
        ascending(t),
        rearranges(t, s),
    ensures
        t == sorted(s),
{
    lemma_sorted_rearranges(s);
    lemma_at_most_is_total();
    lemma_ascending_is_sorted_by(t);
    lemma_ascending_is_sorted_by(sorted(s));
    lemma_sorted_unique(t, sorted(s), at_most());
}

/// Sorting does nothing to a sequence that is in ascending order already, so
/// sorting twice is sorting once.
pub proof fn lemma_sorted_idempotent(s: Seq<u32>)
    ensures
        ascending(s) ==> sorted(s) == s,
        sorted(sorted(s)) == sorted(s),
{
    if ascending(s) {
        lemma_sorted_unique_arrangement(s, s);
    }
    lemma_sorted_rearranges(s);
    lemma_sorted_unique_arrangement(sorted(s), sorted(s));
}

/// Sorting forgets the order of its input: two sequences with the same
/// entries, each as often in one as in the other, sort to the same sequence.
pub proof fn lemma_sorted_order_independent(s: Seq<u32>, t: Seq<u32>)
    requires
        rearranges(t, s),
    ensures
        sorted(t) == sorted(s),
{
    lemma_sorted_rearranges(t);
    lemma_sorted_unique_arrangement(s, sorted(t));
}

/// The entries of `values` in ascending order. Entries are inserted one by
/// one, each behind the entries that are not larger, so equal entries keep
/// their order.
pub fn sort_ascending(values: &[u32]) -> (out: Vec<u32>)
    ensures
        out@ == sorted(values@),
        ascending(out@),
        rearranges(out@, values@),
        out@.len() == values@.len(),
{
    let mut out: Vec<u32> = Vec::new();
    let mut taken: usize = 0;
    assert(out@ =~= values@.take(0));
    while taken < values.len()
        invariant
            taken <= values@.len(),
            out@.len() == taken,
            ascending(out@),
            rearranges(out@, values@.take(taken as int)),
        decreases values@.len() - taken,
    {
        let value: u32 = values[taken];
        let mut slot: usize = out.len();
        while slot > 0 && out[slot - 1] > value
            invariant
                slot <= out@.len(),
                forall|k: int| slot <= k < out@.len() ==> value < out@[k],
            decreases slot,
        {
            slot = slot - 1;
        }
        proof {
            let before = out@;
            let after = before.insert(slot as int, value);
            assert forall|i: int, j: int| 0 <= i <= j < after.len() implies after[i]
                <= after[j] by {
                if i < slot as int && j > slot as int {
                    assert(before[i] <= before[j - 1]);
                }
            }
            to_multiset_insert(before, slot as int, value);
            to_multiset_build(values@.take(taken as int), value);
            assert(values@.take(taken as int + 1) == values@.take(taken as int).push(value));
        }
        out.insert(slot, value);
        taken = taken + 1;
    }
    proof {
        assert(values@.take(taken as int) == values@);
        lemma_sorted_unique_arrangement(values@, out@);
    }
    out
}

} // verus!
