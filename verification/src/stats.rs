//! Summary statistics over the recorded hours of a history, and the rule that
//! calls the open hour abnormal.
//!
//! All figures are exact. The mean is the pair of a sum and a sample count;
//! the five quartiles are whole numbers of quarters.

use std::collections::VecDeque;
use vstd::prelude::*;

use crate::quantile::{
    get_percentile, lemma_percentile_ends, lemma_percentile_monotone, scaled_percentile,
};
use crate::sorting::{
    lemma_sorted_order_independent, lemma_sorted_rearranges, rearranges, sort_ascending, sorted,
};

verus! {

/// The quartiles are percentiles at ratios over this denominator, and are
/// expressed in units of one over it.
pub const QUARTERS: u32 = 4;

/// Counts up to this many are never abnormal under the standard threshold.
pub const ALERT_FLOOR: u32 = 8;

/// Factor on the upper quartile in the standard threshold.
pub const ALERT_MULTIPLIER: u32 = 2;

/// Margin added to the scaled upper quartile in the standard threshold.
pub const ALERT_MARGIN: u32 = 5;

/// The counts of the recorded hours of `history`, in the order of the hours.
/// Hours without data are left out.
pub open spec fn samples(history: Seq<Option<u32>>) -> Seq<u32> {
    history.filter(|hour: Option<u32>| hour is Some).map_values(|hour: Option<u32>| hour.unwrap())
}

/// The sum of the entries of `s`.
pub open spec fn total(s: Seq<u32>) -> int
    decreases s.len(),
{
    if s.len() == 0 {
        0
    } else {
        total(s.drop_last()) + s.last()
    }
}

/// What one more hour adds to the samples: its count if it has one, nothing
/// if it is a gap.
pub proof fn lemma_samples_push(history: Seq<Option<u32>>, hour: Option<u32>)
    ensures
        samples(history.push(hour)) == match hour {
            Some(count) => samples(history).push(count),
            None => samples(history),
        },
{
    reveal(Seq::filter);
    let longer = history.push(hour);
    assert(longer.drop_last() == history);
    assert(longer.last() == hour);
    assert(samples(longer) =~= match hour {
        Some(count) => samples(history).push(count),
        None => samples(history),
    });
}

/// A history without hours has no samples.
pub proof fn lemma_samples_of_nothing()
    ensures
        samples(Seq::empty()) == Seq::<u32>::empty(),
{
    reveal(Seq::filter);
    assert(samples(Seq::empty()) =~= Seq::<u32>::empty());
}

/// A history holds at most as many samples as hours, and none if every hour
/// is a gap.
pub proof fn lemma_samples_len(history: Seq<Option<u32>>)
    ensures
        samples(history).len() <= history.len(),
        (forall|i: int| 0 <= i < history.len() ==> history[i] is None) ==> samples(history).len()
            == 0,
    decreases history.len(),
{
    if history.len() > 0 {
        let shorter = history.drop_last();
        lemma_samples_len(shorter);
        lemma_samples_push(shorter, history.last());
        assert(shorter.push(history.last()) == history);
    } else {
        lemma_samples_of_nothing();
        assert(history == Seq::<Option<u32>>::empty());
    }
}

/// The sum of `n` samples is at most `n` times the largest count there is.
pub proof fn lemma_total_bound(s: Seq<u32>)
    ensures
        0 <= total(s) <= s.len() * u32::MAX,
    decreases s.len(),
{
    if s.len() > 0 {
        lemma_total_bound(s.drop_last());
        assert((s.len() - 1) * u32::MAX + u32::MAX == s.len() * u32::MAX) by (nonlinear_arith);
    }
}

/// Taking one entry out of a sequence lowers its sum by that entry.
pub proof fn lemma_total_remove(s: Seq<u32>, i: int)
    requires
        0 <= i < s.len(),
    ensures
        total(s) == total(s.remove(i)) + s[i],
    decreases s.len(),
{
    if i == s.len() - 1 {
        assert(s.remove(i) == s.drop_last());
    } else {
        lemma_total_remove(s.drop_last(), i);
        assert(s.remove(i).drop_last() == s.drop_last().remove(i));
        assert(s.remove(i).last() == s.last());
    }
}

/// The sum does not depend on the order of the entries.
pub proof fn lemma_total_rearranged(a: Seq<u32>, b: Seq<u32>)
    requires
        rearranges(a, b),
    ensures
        total(a) == total(b),
    decreases a.len(),
{
    broadcast use vstd::seq_lib::group_to_multiset_ensures;

    if a.len() == 0 {
        assert(b.to_multiset().len() == 0);
    } else {
        let x = a.last();
        let shorter = a.drop_last();
        assert(shorter.push(x) == a);
        assert(a.to_multiset().count(x) > 0);
        assert(b.contains(x));
        let i = choose|i: int| 0 <= i < b.len() && b[i] == x;
        let rest = b.remove(i);
        assert(shorter.to_multiset() =~= a.to_multiset().remove(x));
        assert(rest.to_multiset() =~= b.to_multiset().remove(x));
        lemma_total_rearranged(shorter, rest);
        lemma_total_remove(b, i);
    }
}

/// The rule that decides whether a count is abnormal: the count must exceed
/// `floor`, and must exceed `multiplier` times the upper quartile plus
/// `margin`.
#[derive(Clone, Copy, Debug, PartialEq, Eq, Structural)]
pub struct Threshold {
    pub floor: u32,
    pub multiplier: u32,
    pub margin: u32,
}

impl Threshold {
    /// The threshold of `Stat::is_abnormal`.
    pub open spec fn standard_policy() -> Threshold {
        Threshold { floor: ALERT_FLOOR, multiplier: ALERT_MULTIPLIER, margin: ALERT_MARGIN }
    }

    /// The threshold of `Stat::is_abnormal`: more than 8, and more than twice
    /// the upper quartile plus 5.
    pub fn standard() -> (policy: Threshold)
        ensures
            policy == Threshold::standard_policy(),
    {
        Threshold { floor: ALERT_FLOOR, multiplier: ALERT_MULTIPLIER, margin: ALERT_MARGIN }
    }
}

/// The statistics of a history together with the count of the open hour.
#[derive(Clone, Copy, Debug, PartialEq, Eq, Structural)]
pub struct Stat {
    /// Sum of the samples; the mean is `sum / n`.
    pub sum: u128,
    /// Largest sample, in quarters.
    pub max: u64,
    /// Upper quartile, in quarters.
    pub uq: u64,
    /// Median, in quarters.
    pub median: u64,
    /// Lower quartile, in quarters.
    pub lq: u64,
    /// Smallest sample, in quarters.
    pub min: u64,
    /// Number of samples.
    pub n: usize,
    /// Count of the hour that is still open.
    pub current: u32,
}

impl Stat {
    /// No hour of the history was recorded.
    pub open spec fn empty(self) -> bool {
        self.n == 0
    }

    /// `self` holds the statistics of the samples `drawn` beside the open
    /// count `current`: the number and the sum of the samples, and the
    /// percentiles of the sorted samples at 0, 1/4, 1/2, 3/4 and 1, each in
    /// quarters.
    pub open spec fn describes(self, drawn: Seq<u32>, current: u32) -> bool {
        let ordered = sorted(drawn);
        &&& self.n == drawn.len()
        &&& self.sum == total(drawn)
        &&& self.min == scaled_percentile(ordered, 0, QUARTERS as int)
        &&& self.lq == scaled_percentile(ordered, 1, QUARTERS as int)
        &&& self.median == scaled_percentile(ordered, 2, QUARTERS as int)
        &&& self.uq == scaled_percentile(ordered, 3, QUARTERS as int)
        &&& self.max == scaled_percentile(ordered, 4, QUARTERS as int)
        &&& self.current == current
    }

    /// `self` is the summary of `history` beside the open count `current`:
    /// the statistics of the counts of its recorded hours.
    pub open spec fn summarizes(self, history: Seq<Option<u32>>, current: u32) -> bool {
        self.describes(samples(history), current)
    }

    /// The open count is abnormal under `policy`. Without samples nothing is
    /// abnormal. The comparison with the upper quartile is made in quarters,
    /// where it is exact.
    pub open spec fn abnormal_under(self, policy: Threshold) -> bool {
        &&& !self.empty()
        &&& self.current > policy.floor
        &&& QUARTERS * self.current > self.uq * policy.multiplier + QUARTERS * policy.margin
    }

    /// The quartiles are in order, and where there are samples they run from
    /// the smallest sample to the largest.
    pub proof fn lemma_quartiles_ordered(self, drawn: Seq<u32>, current: u32)
        requires
            self.describes(drawn, current),
        ensures
            self.min <= self.lq <= self.median <= self.uq <= self.max,
            !self.empty() ==> self.min == QUARTERS * sorted(drawn).first(),
            !self.empty() ==> self.max == QUARTERS * sorted(drawn).last(),
    {
        let ordered = sorted(drawn);
        let den = QUARTERS as int;
        lemma_sorted_rearranges(drawn);
        lemma_percentile_monotone(ordered, 0, 1, den);
        lemma_percentile_monotone(ordered, 1, 2, den);
        lemma_percentile_monotone(ordered, 2, 3, den);
        lemma_percentile_monotone(ordered, 3, 4, den);
        if !self.empty() {
            lemma_percentile_ends(ordered, den);
        }
    }

    /// The statistics do not depend on the order of the samples: what
    /// describes some samples describes every rearrangement of them.
    pub proof fn lemma_describes_any_order(self, drawn: Seq<u32>, other: Seq<u32>, current: u32)
        requires
            self.describes(drawn, current),
            rearranges(other, drawn),
        ensures
            self.describes(other, current),
    {
        lemma_sorted_order_independent(drawn, other);
        lemma_total_rearranged(other, drawn);
        drawn.to_multiset_ensures();
        other.to_multiset_ensures();
    }

    /// Whether no hour of the history was recorded.
    pub fn is_empty(&self) -> (none: bool)
        ensures
            none == self.empty(),
    {
        self.n == 0
    }

    /// The statistics of the samples `drawn`, taken in any order, beside the
    /// open count `current`.
    pub fn of_samples(drawn: &[u32], current: u32) -> (stat: Stat)
        ensures
            stat.describes(drawn@, current),
    {
        let mut sum: u128 = 0;
        let mut i: usize = 0;
        assert(drawn@.take(0) =~= Seq::<u32>::empty());
        while i < drawn.len()
            invariant
                i <= drawn@.len(),
                sum == total(drawn@.take(i as int)),
            decreases drawn@.len() - i,
        {
            proof {
                let longer = drawn@.take(i as int + 1);
                assert(longer.drop_last() == drawn@.take(i as int));
                lemma_total_bound(longer);
                assert(longer.len() * u32::MAX <= u64::MAX * u32::MAX) by (nonlinear_arith)
                    requires
                        longer.len() <= u64::MAX,
                ;
            }
            sum = sum + drawn[i] as u128;
            i = i + 1;
        }
        assert(drawn@.take(i as int) == drawn@);
        let ordered = sort_ascending(drawn);
        Stat {
            sum,
            max: get_percentile(ordered.as_slice(), 4, QUARTERS),
            uq: get_percentile(ordered.as_slice(), 3, QUARTERS),
            median: get_percentile(ordered.as_slice(), 2, QUARTERS),
            lq: get_percentile(ordered.as_slice(), 1, QUARTERS),
            min: get_percentile(ordered.as_slice(), 0, QUARTERS),
            n: drawn.len(),
            current,
        }
    }

    /// The statistics of `history` beside the open count `current`.
    pub fn compute(history: &VecDeque<Option<u32>>, current: u32) -> (stat: Stat)
        ensures
            stat.summarizes(history@, current),
            stat.empty() <==> samples(history@).len() == 0,
    {
        let drawn = collect_samples(history);
        proof {
            lemma_samples_len(history@);
        }
        Stat::of_samples(drawn.as_slice(), current)
    }

    /// Whether the open count is abnormal under `policy`.
    pub fn is_abnormal_under(&self, policy: &Threshold) -> (abnormal: bool)
        ensures
            abnormal == self.abnormal_under(*policy),
    {
        if self.n == 0 || self.current <= policy.floor {
            return false;
        }
        let count: u128 = (QUARTERS as u128) * (self.current as u128);
        assert(self.uq * policy.multiplier <= 0xFFFF_FFFF_FFFF_FFFF * 0xFFFF_FFFF)
            by (nonlinear_arith)
            requires
                0 <= self.uq <= 0xFFFF_FFFF_FFFF_FFFF,
                0 <= policy.multiplier <= 0xFFFF_FFFF,
        ;
        let bound: u128 = (self.uq as u128) * (policy.multiplier as u128) + (QUARTERS as u128) * (
        policy.margin as u128);
        count > bound
    }

    /// Whether the open count is abnormal under the standard threshold: there
    /// are samples, the count is above 8, and it is above twice the upper
    /// quartile plus 5.
    pub fn is_abnormal(&self) -> (abnormal: bool)
        ensures
            abnormal == self.abnormal_under(Threshold::standard_policy()),
            abnormal == (self.n > 0 && self.current > 8 && 4 * self.current > 2 * self.uq + 20),
    {
        self.is_abnormal_under(&Threshold::standard())
    }
}

/// The counts of the recorded hours of `history`, oldest first.
pub fn collect_samples(history: &VecDeque<Option<u32>>) -> (drawn: Vec<u32>)
    ensures
        drawn@ == samples(history@),
{
    let mut drawn: Vec<u32> = Vec::new();
    let mut i: usize = 0;
    proof {
        lemma_samples_of_nothing();
        assert(history@.take(0) =~= Seq::<Option<u32>>::empty());
    }
    while i < history.len()
        invariant
            i <= history@.len(),
            drawn@ == samples(history@.take(i as int)),
        decreases history@.len() - i,
    {
        let hour: Option<u32> = history[i];
        proof {
            lemma_samples_push(history@.take(i as int), hour);
            assert(history@.take(i as int + 1) == history@.take(i as int).push(hour));
        }
        if let Some(count) = hour {
            drawn.push(count);
        }
        i = i + 1;
    }
    assert(history@.take(i as int) == history@);
    drawn
}

} // verus!
