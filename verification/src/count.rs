//! The counting cores.

use std::hint::black_box;

use vstd::prelude::*;

verus! {

/// `std::hint::black_box`: an identity function. That it keeps the optimizer
/// from computing the count ahead of time is not stated.
pub assume_specification<T>[ std::hint::black_box::<T> ](dummy: T) -> (r: T)
    ensures
        r == dummy,
;

/// How many integers there are from `start` up to `end`, without `end`.
pub open spec fn range_len(start: int, end: int) -> int {
    if start < end {
        end - start
    } else {
        0
    }
}

/// What the processor offers.
#[derive(Clone, Copy, PartialEq, Eq, Structural, Debug)]
pub struct Features {
    pub avx2: bool,
    pub sse41: bool,
}

/// The counting cores, from the widest on.
#[derive(Clone, Copy, PartialEq, Eq, Structural, Debug)]
pub enum Tier {
    Avx2,
    Sse41,
    Scalar,
}

impl Features {
    /// The widest core that the processor offers.
    pub fn tier(&self) -> (r: Tier)
        ensures
            r == (if self.avx2 {
                Tier::Avx2
            } else if self.sse41 {
                Tier::Sse41
            } else {
                Tier::Scalar
            }),
    {
        if self.avx2 {
            Tier::Avx2
        } else if self.sse41 {
            Tier::Sse41
        } else {
            Tier::Scalar
        }
    }
}

/// Counts from `start` to `end`, one integer at a time.
pub fn count_range_scalar(start: u64, end: u64) -> (r: u64)
    ensures
        r == range_len(start as int, end as int),
{
    let mut n: u64 = black_box(start);
    let mut counted: u64 = 0;
    while n < end
        invariant
            start <= n,
            n <= end || n == start,
            counted == n - start,
        decreases end - n,
    {
        n = black_box(n + 1);
        counted = black_box(counted + 1);
    }
    counted
}

/// Counts from `start` to `end`, four integers at a time, and then what is
/// left one at a time.
pub fn count_range_avx2(start: u64, end: u64) -> (r: u64)
    requires
        start <= end,
    ensures
        r == end - start,
{
    let len: u64 = end - start;
    let full_iters: u64 = len / 4;
    let mut acc: [u64; 4] = [0, 0, 0, 0];
    let mut k: u64 = 0;
    while k < full_iters
        invariant
            k <= full_iters <= u64::MAX / 4,
            acc@ == seq![k, k, k, k],
        decreases full_iters - k,
    {
        acc = black_box([acc[0] + 1, acc[1] + 1, acc[2] + 1, acc[3] + 1]);
        k += 1;
        assert(acc@ =~= seq![k, k, k, k]);
    }
    let mut counted: u64 = acc[0] + acc[1] + acc[2] + acc[3];
    let left: u64 = len - full_iters * 4;
    let mut m: u64 = 0;
    while m < left
        invariant
            m <= left == len - 4 * full_iters,
            counted == 4 * full_iters + m,
        decreases left - m,
    {
        counted = black_box(counted + 1);
        m += 1;
    }
    counted
}

/// Counts from `start` to `end`, two integers at a time, and then what is
/// left one at a time.
pub fn count_range_sse41(start: u64, end: u64) -> (r: u64)
    requires
        start <= end,
    ensures
        r == end - start,
{
    let len: u64 = end - start;
    let full_iters: u64 = len / 2;
    let mut acc: [u64; 2] = [0, 0];
    let mut k: u64 = 0;
    while k < full_iters
        invariant
            k <= full_iters <= u64::MAX / 2,
            acc@ == seq![k, k],
        decreases full_iters - k,
    {
        acc = black_box([acc[0] + 1, acc[1] + 1]);
        k += 1;
        assert(acc@ =~= seq![k, k]);
    }
    let mut counted: u64 = acc[0] + acc[1];
    let left: u64 = len - full_iters * 2;
    let mut m: u64 = 0;
    while m < left
        invariant
            m <= left == len - 2 * full_iters,
            counted == 2 * full_iters + m,
        decreases left - m,
    {
        counted = black_box(counted + 1);
        m += 1;
    }
    counted
}

/// Counts from `start` to `end` with the widest core that the processor
/// offers.
pub fn count_range(start: u64, end: u64, features: Features) -> (r: u64)
    ensures
        r == range_len(start as int, end as int),
{
    if start >= end {
        return 0;
    }
    match features.tier() {
        Tier::Avx2 => count_range_avx2(start, end),
        Tier::Sse41 => count_range_sse41(start, end),
        Tier::Scalar => count_range_scalar(start, end),
    }
}

/// The count is the number of integers there are from `start` on that lie
/// below `end`.
pub proof fn law_count_is_the_number_of_integers(start: int, end: int)
    ensures
        vstd::set_lib::set_int_range(start, end).finite(),
        vstd::set_lib::set_int_range(start, end).len() == range_len(start, end),
{
    if start < end {
        vstd::set_lib::lemma_int_range(start, end);
    } else {
        assert(vstd::set_lib::set_int_range(start, end) =~= Set::<int>::empty());
    }
}

/// A range may be counted in pieces, and one integer counts one.
pub proof fn law_pieces_count_the_whole(start: int, between: int, end: int)
    requires
        start <= between <= end,
    ensures
        range_len(start, between) + range_len(between, end) == range_len(start, end),
        range_len(start, start + 1) == 1,
        range_len(end, start) == 0,
{
}

/// Whatever the processor offers, the count comes to the number of integers
/// there are from `start` on that lie below `end`.
pub proof fn law_every_core_counts_the_same(start: u64, end: u64, features: Features, r: u64)
    requires
        call_ensures(count_range, (start, end, features), r),
    ensures
        r == vstd::set_lib::set_int_range(start as int, end as int).len(),
{
    law_count_is_the_number_of_integers(start as int, end as int);
}

/// The widest core that the processor offers is taken.
pub proof fn law_widest_core_is_taken(features: Features, r: Tier)
    requires
        call_ensures(Features::tier, (&features,), r),
    ensures
        features.avx2 ==> r == Tier::Avx2,
        !features.avx2 && features.sse41 ==> r == Tier::Sse41,
        !features.avx2 && !features.sse41 ==> r == Tier::Scalar,
{
}

} // verus!
