//! The warm-up and the spread of repeated trials.

use vstd::prelude::*;

verus! {

/// How often the warm-up counts.
pub const WARMUP_ROUNDS: u32 = 1000;

/// The largest target of the warm-up.
pub const WARMUP_CAP: u64 = 4096;

/// What the warm-up counts to: the target itself, but at least 1 and at most
/// the cap.
pub open spec fn warmup_value(count_to: u64) -> u64 {
    if count_to < 1 {
        1
    } else if count_to > WARMUP_CAP {
        WARMUP_CAP
    } else {
        count_to
    }
}

/// Finds what the warm-up counts to.
pub fn warmup_target(count_to: u64) -> (r: u64)
    ensures
        r == warmup_value(count_to),
{
    if count_to < 1 {
        1
    } else if count_to > WARMUP_CAP {
        WARMUP_CAP
    } else {
        count_to
    }
}

/// The two ranks, from 0 on, in whose middle the median of `n` samples lies:
/// one and the same where `n` is odd.
pub open spec fn middle(n: int) -> (int, int) {
    if n % 2 == 1 {
        (n / 2, n / 2)
    } else {
        (n / 2 - 1, n / 2)
    }
}

/// The ranks in whose middle the median of `n` samples lies.
pub fn median_ranks(n: usize) -> (r: (usize, usize))
    requires
        n > 0,
    ensures
        (r.0 as int, r.1 as int) == middle(n as int),
{
    if n % 2 == 1 {
        (n / 2, n / 2)
    } else {
        (n / 2 - 1, n / 2)
    }
}

pub open spec fn at_most() -> spec_fn(u64, u64) -> bool {
    |a: u64, b: u64| a <= b
}

/// The samples from the least to the greatest.
pub open spec fn ascending(samples: Seq<u64>) -> Seq<u64> {
    samples.sort_by(at_most())
}

/// `<[u64]>::sort`: puts the elements in ascending order, and keeps them all.
#[verifier::external_body]
fn sort_u64(v: &mut Vec<u64>)
    ensures
        final(v)@.to_multiset() == old(v)@.to_multiset(),
        forall|i: int, j: int| 0 <= i < j < final(v)@.len() ==> final(v)@[i] <= final(v)@[j],
{
    v.sort()
}

/// The samples that a summary shows.
#[derive(Clone, Copy, PartialEq, Eq, Structural, Debug)]
pub struct Spread {
    pub min: u64,
    /// The sample below the middle.
    pub lower: u64,
    /// The sample above the middle; the one below it where the number of
    /// samples is odd.
    pub upper: u64,
    pub max: u64,
}

/// The spread of samples.
pub open spec fn spread_of(samples: Seq<u64>) -> Spread {
    let sorted = ascending(samples);
    Spread {
        min: sorted[0],
        lower: sorted[middle(samples.len() as int).0],
        upper: sorted[middle(samples.len() as int).1],
        max: sorted[samples.len() - 1],
    }
}

proof fn lemma_ascending(samples: Seq<u64>)
    ensures
        ascending(samples).to_multiset() == samples.to_multiset(),
        ascending(samples).len() == samples.len(),
        forall|i: int, j: int|
            0 <= i <= j < samples.len() ==> ascending(samples)[i] <= ascending(samples)[j],
{
    broadcast use vstd::seq_lib::group_to_multiset_ensures;

    samples.lemma_sort_by_ensures(at_most());
    assert(samples.len() == samples.to_multiset().len());
    assert(ascending(samples).len() == ascending(samples).to_multiset().len());
    assert forall|i: int, j: int| 0 <= i <= j < samples.len() implies ascending(samples)[i]
        <= ascending(samples)[j] by {
        if i < j {
            assert(at_most()(ascending(samples)[i], ascending(samples)[j]));
        }
    }
}

/// Finds the spread of the samples.
pub fn spread(samples: Vec<u64>) -> (r: Spread)
    requires
        samples@.len() > 0,
    ensures
        r == spread_of(samples@),
{
    let mut sorted = samples;
    sort_u64(&mut sorted);
    proof {
        lemma_ascending(samples@);
        vstd::seq_lib::lemma_sorted_unique(sorted@, ascending(samples@), at_most());
    }
    let n = sorted.len();
    let (low, high) = median_ranks(n);
    Spread { min: sorted[0], lower: sorted[low], upper: sorted[high], max: sorted[n - 1] }
}

/// The middle leaves as many ranks below it as above it, and takes one where
/// the number of samples is odd and two where it is even.
pub proof fn law_middle_is_in_the_middle(n: int)
    requires
        n > 0,
    ensures
        0 <= middle(n).0 <= middle(n).1 < n,
        middle(n).0 == n - 1 - middle(n).1,
        middle(n).1 - middle(n).0 == 1 - n % 2,
{
}

/// The least sample is at most the median, and that at most the greatest; no
/// sample lies outside, and the four that are shown are samples.
pub proof fn law_spread_is_ordered(samples: Seq<u64>)
    requires
        samples.len() > 0,
    ensures
        ({
            let s = spread_of(samples);
            &&& s.min <= s.lower <= s.upper <= s.max
            &&& samples.contains(s.min) && samples.contains(s.lower)
            &&& samples.contains(s.upper) && samples.contains(s.max)
            &&& forall|i: int| 0 <= i < samples.len() ==> s.min <= #[trigger] samples[i] <= s.max
        }),
{
    broadcast use vstd::seq_lib::group_to_multiset_ensures;

    lemma_ascending(samples);
    law_middle_is_in_the_middle(samples.len() as int);
    let sorted = ascending(samples);
    let s = spread_of(samples);
    assert(sorted.contains(s.min) && sorted.contains(s.lower) && sorted.contains(s.upper)
        && sorted.contains(s.max));
    assert forall|x: u64| sorted.contains(x) implies samples.contains(x) by {
        assert(sorted.to_multiset().count(x) > 0);
    }
    assert forall|i: int| 0 <= i < samples.len() implies s.min <= #[trigger] samples[i]
        <= s.max by {
        assert(samples.contains(samples[i]));
        assert(samples.to_multiset().count(samples[i]) > 0);
        assert(sorted.contains(samples[i]));
    }
}

/// The spread does not depend on the order of the trials.
pub proof fn law_spread_ignores_the_order(a: Seq<u64>, b: Seq<u64>)
    requires
        a.to_multiset() == b.to_multiset(),
    ensures
        spread_of(a) == spread_of(b),
{
    broadcast use vstd::seq_lib::group_to_multiset_ensures;

    a.lemma_sort_by_ensures(at_most());
    b.lemma_sort_by_ensures(at_most());
    vstd::seq_lib::lemma_sorted_unique(ascending(a), ascending(b), at_most());
    assert(a.len() == a.to_multiset().len());
    assert(b.len() == b.to_multiset().len());
}

/// Whichever way the samples are put in order, the spread shows the first of
/// them, the last, and the ones in the middle: of an odd number the one that
/// has as many before it as behind it, of an even number the two.
pub proof fn law_spread_is_read_off_the_sorted_samples(samples: Seq<u64>, sorted: Seq<u64>)
    requires
        samples.len() > 0,
        sorted.to_multiset() == samples.to_multiset(),
        forall|i: int, j: int| 0 <= i <= j < sorted.len() ==> sorted[i] <= sorted[j],
    ensures
        sorted.len() == samples.len(),
        spread_of(samples).min == sorted[0],
        spread_of(samples).lower == sorted[(samples.len() - 1) / 2],
        spread_of(samples).upper == sorted[samples.len() as int / 2],
        spread_of(samples).max == sorted[samples.len() - 1],
{
    broadcast use vstd::seq_lib::group_to_multiset_ensures;

    lemma_ascending(samples);
    assert(sorted.len() == sorted.to_multiset().len());
    assert(samples.len() == samples.to_multiset().len());
    vstd::seq_lib::lemma_sorted_unique(sorted, ascending(samples), at_most());
}

/// At least half of the samples are at most the lower one of the middle and
/// at least half are at least that, and so it is with the upper one.
pub proof fn law_middle_halves_the_samples(samples: Seq<u64>)
    requires
        samples.len() > 0,
    ensures
        ({
            let s = spread_of(samples);
            &&& 2 * samples.filter(|x: u64| x <= s.lower).len() >= samples.len()
            &&& 2 * samples.filter(|x: u64| x >= s.lower).len() >= samples.len()
            &&& 2 * samples.filter(|x: u64| x <= s.upper).len() >= samples.len()
            &&& 2 * samples.filter(|x: u64| x >= s.upper).len() >= samples.len()
            &&& samples.len() % 2 == 1 ==> s.lower == s.upper
        }),
{
    lemma_ascending(samples);
    let sorted = ascending(samples);
    let n = samples.len() as int;
    let s = spread_of(samples);
    law_spread_is_read_off_the_sorted_samples(samples, sorted);
    lemma_filter_of_a_permutation(samples, sorted, |x: u64| x <= s.lower);
    lemma_filter_of_a_permutation(samples, sorted, |x: u64| x >= s.lower);
    lemma_filter_of_a_permutation(samples, sorted, |x: u64| x <= s.upper);
    lemma_filter_of_a_permutation(samples, sorted, |x: u64| x >= s.upper);
    lemma_filter_holds_a_run(sorted, |x: u64| x <= s.lower, 0, (n - 1) / 2 + 1);
    lemma_filter_holds_a_run(sorted, |x: u64| x >= s.lower, (n - 1) / 2, n);
    lemma_filter_holds_a_run(sorted, |x: u64| x <= s.upper, 0, n / 2 + 1);
    lemma_filter_holds_a_run(sorted, |x: u64| x >= s.upper, n / 2, n);
}

/// As many samples meet a condition in any order.
proof fn lemma_filter_of_a_permutation(a: Seq<u64>, b: Seq<u64>, keep: spec_fn(u64) -> bool)
    requires
        a.to_multiset() == b.to_multiset(),
    ensures
        a.filter(keep).len() == b.filter(keep).len(),
{
    lemma_filter_multiset(a, keep);
    lemma_filter_multiset(b, keep);
    broadcast use vstd::seq_lib::group_to_multiset_ensures;

    assert(a.filter(keep).to_multiset().len() == a.filter(keep).len());
    assert(b.filter(keep).to_multiset().len() == b.filter(keep).len());
}

proof fn lemma_filter_multiset(a: Seq<u64>, keep: spec_fn(u64) -> bool)
    ensures
        a.filter(keep).to_multiset() == a.to_multiset().filter(keep),
    decreases a.len(),
{
    broadcast use {
        vstd::seq_lib::group_to_multiset_ensures,
        vstd::multiset::group_multiset_axioms,
    };

    reveal(Seq::filter);
    if a.len() == 0 {
        assert(a.filter(keep) =~= Seq::<u64>::empty());
        assert(a.filter(keep).to_multiset() =~= a.to_multiset().filter(keep));
    } else {
        lemma_filter_multiset(a.drop_last(), keep);
        assert(a =~= a.drop_last().push(a.last()));
        assert(a.filter(keep).to_multiset() =~= a.to_multiset().filter(keep));
    }
}

/// Samples in a row that all meet a condition are all kept.
proof fn lemma_filter_holds_a_run(a: Seq<u64>, keep: spec_fn(u64) -> bool, from: int, to: int)
    requires
        0 <= from <= to <= a.len(),
        forall|k: int| from <= k < to ==> keep(#[trigger] a[k]),
    ensures
        a.filter(keep).len() >= to - from,
    decreases a.len(),
{
    reveal(Seq::filter);
    if a.len() > 0 {
        let b = a.drop_last();
        if to == a.len() {
            if from < to {
                assert(keep(a[to - 1]));
                lemma_filter_holds_a_run(b, keep, from, to - 1);
            }
        } else {
            lemma_filter_holds_a_run(b, keep, from, to);
        }
    }
}

/// The warm-up counts to the target where that lies between 1 and 4096, to
/// 4096 where it is more, and to 1 where it is less.
pub proof fn law_warm_up_is_capped(count_to: u64)
    ensures
        1 <= count_to <= 4096 ==> warmup_value(count_to) == count_to,
        count_to > 4096 ==> warmup_value(count_to) == 4096,
        count_to < 1 ==> warmup_value(count_to) == 1,
{
}

} // verus!
