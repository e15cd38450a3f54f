use fastcount::count::{
    count_range, count_range_avx2, count_range_scalar, count_range_sse41, Features, Tier,
};
use fastcount::pool::{tally, Counter, Job, Plan, WorkerPool};
use fastcount::stats::{median_ranks, spread, warmup_target, Spread, WARMUP_CAP, WARMUP_ROUNDS};

const SCALAR: Features = Features { avx2: false, sse41: false };
const SSE41: Features = Features { avx2: false, sse41: true };
const AVX2: Features = Features { avx2: true, sse41: true };

#[test]
fn cores_agree() {
    for len in 0..40u64 {
        assert_eq!(count_range_scalar(7, 7 + len), len);
        assert_eq!(count_range_sse41(7, 7 + len), len);
        assert_eq!(count_range_avx2(7, 7 + len), len);
    }
    assert_eq!(count_range_scalar(0, 1_000_003), 1_000_003);
    assert_eq!(count_range_sse41(0, 1_000_003), 1_000_003);
    assert_eq!(count_range_avx2(0, 1_000_003), 1_000_003);
}

#[test]
fn empty_ranges_count_nothing() {
    assert_eq!(count_range_scalar(9, 9), 0);
    assert_eq!(count_range_scalar(10, 9), 0);
    for features in [SCALAR, SSE41, AVX2] {
        assert_eq!(count_range(9, 9, features), 0);
        assert_eq!(count_range(10, 9, features), 0);
        assert_eq!(count_range(u64::MAX, 0, features), 0);
    }
}

#[test]
fn widest_core_is_taken() {
    assert_eq!(AVX2.tier(), Tier::Avx2);
    assert_eq!(Features { avx2: true, sse41: false }.tier(), Tier::Avx2);
    assert_eq!(SSE41.tier(), Tier::Sse41);
    assert_eq!(SCALAR.tier(), Tier::Scalar);
}

#[test]
fn every_tier_counts_the_same() {
    for features in [SCALAR, SSE41, AVX2] {
        assert_eq!(count_range(0, 1, features), 1);
        assert_eq!(count_range(3, 10, features), 7);
        assert_eq!(count_range(u64::MAX - 5, u64::MAX, features), 5);
    }
}

fn job(worker: usize, start: u64, end: u64) -> Job {
    Job { worker, start, end }
}

#[test]
fn jobs_cut_the_range() {
    let pool = WorkerPool::new(4);
    assert_eq!(
        pool.jobs(10),
        vec![job(0, 0, 3), job(1, 3, 6), job(2, 6, 9), job(3, 9, 10)]
    );
    assert_eq!(pool.jobs(8), vec![job(0, 0, 2), job(1, 2, 4), job(2, 4, 6), job(3, 6, 8)]);
}

#[test]
fn empty_parts_are_left_out() {
    assert_eq!(WorkerPool::new(4).jobs(5), vec![job(0, 0, 2), job(1, 2, 4), job(2, 4, 5)]);
}

#[test]
fn few_integers_take_few_workers() {
    assert_eq!(WorkerPool::new(8).jobs(1), vec![job(0, 0, 1)]);
    assert_eq!(WorkerPool::new(8).jobs(2), vec![job(0, 0, 1), job(1, 1, 2)]);
}

#[test]
fn nothing_to_do_gives_no_jobs() {
    assert_eq!(WorkerPool::new(4).jobs(0), vec![]);
    assert_eq!(WorkerPool::new(0).jobs(10), vec![]);
}

#[test]
fn largest_target_is_covered() {
    let jobs = WorkerPool::new(3).jobs(u64::MAX);
    assert_eq!(jobs.len(), 3);
    assert_eq!(jobs[2].end, u64::MAX);
    let jobs = WorkerPool::new(2).jobs(u64::MAX);
    assert_eq!(jobs, vec![job(0, 0, 1 << 63), job(1, 1 << 63, u64::MAX)]);
}

#[test]
fn jobs_follow_each_other() {
    for workers in 1..9usize {
        for target in 1..60u64 {
            let jobs = WorkerPool::new(workers).jobs(target);
            assert!(jobs.len() <= workers);
            let mut at = 0;
            for (t, j) in jobs.iter().enumerate() {
                assert_eq!(j.worker, t);
                assert_eq!(j.start, at);
                assert!(j.start < j.end);
                at = j.end;
            }
            assert_eq!(at, target);
        }
    }
}

#[test]
fn every_integer_is_in_one_job() {
    let jobs = WorkerPool::new(7).jobs(50);
    for x in 0..50u64 {
        assert_eq!(jobs.iter().filter(|j| j.start <= x && x < j.end).count(), 1);
    }
}

#[test]
fn pool_counts_to_the_target_in_any_order() {
    let jobs = WorkerPool::new(5).jobs(1001);
    let mut replies: Vec<Option<u64>> = jobs.iter().map(|j| Some(j.run(AVX2))).collect();
    assert_eq!(tally(&replies), Some(1001));
    replies.reverse();
    assert_eq!(tally(&replies), Some(1001));
    replies.swap(0, 3);
    assert_eq!(tally(&replies), Some(count_range(0, 1001, SCALAR)));
}

#[test]
fn lost_reply_leaves_its_part_out() {
    assert_eq!(tally(&[Some(3), None, Some(3)]), Some(6));
    assert_eq!(tally(&[None]), Some(0));
    assert_eq!(tally(&[]), Some(0));
}

#[test]
fn tally_refuses_what_does_not_fit() {
    assert_eq!(tally(&[Some(u64::MAX), Some(0)]), Some(u64::MAX));
    assert_eq!(tally(&[Some(u64::MAX), Some(1)]), None);
}

#[test]
fn one_thread_takes_no_pool() {
    assert_eq!(Counter::new(0), Counter::Direct);
    assert_eq!(Counter::new(1), Counter::Direct);
    assert_eq!(Counter::new(2), Counter::Pooled(WorkerPool { workers: 2 }));
}

#[test]
fn plans_follow_the_counter() {
    assert_eq!(Counter::new(1).plan(10), Plan::Here(job(0, 0, 10)));
    assert_eq!(Counter::new(2).plan(3), Plan::Shared(vec![job(0, 0, 2), job(1, 2, 3)]));
    assert_eq!(Counter::new(2).plan(0), Plan::Shared(vec![]));
}

#[test]
fn warmup_is_capped() {
    assert_eq!(warmup_target(0), 1);
    assert_eq!(warmup_target(1), 1);
    assert_eq!(warmup_target(4095), 4095);
    assert_eq!(warmup_target(4096), 4096);
    assert_eq!(warmup_target(100_000_000), 4096);
    assert_eq!(WARMUP_CAP, 4096);
    assert_eq!(WARMUP_ROUNDS, 1000);
}

#[test]
fn median_lies_in_the_middle() {
    assert_eq!(median_ranks(1), (0, 0));
    assert_eq!(median_ranks(2), (0, 1));
    assert_eq!(median_ranks(3), (1, 1));
    assert_eq!(median_ranks(1000), (499, 500));
}

#[test]
fn spread_of_three_trials() {
    assert_eq!(
        spread(vec![184890, 25438, 19714]),
        Spread { min: 19714, lower: 25438, upper: 25438, max: 184890 }
    );
}

#[test]
fn spread_of_an_even_number_of_trials() {
    let s = Spread { min: 1, lower: 2, upper: 7, max: 9 };
    assert_eq!(spread(vec![9, 2, 7, 1]), s);
    assert_eq!(spread(vec![1, 7, 2, 9]), s);
}

#[test]
fn spread_of_one_trial() {
    assert_eq!(spread(vec![5]), Spread { min: 5, lower: 5, upper: 5, max: 5 });
}
