use fastcount::count::Features;
use fastcount::dispatch::{Delivery, Dispatch};
use fastcount::pool::{Job, WorkerPool};

const SCALAR: Features = Features { avx2: false, sse41: false };

/// Runs a count to its end. The replies come in last first; the workers in
/// `gone` take no job.
fn count(dispatch: &mut Dispatch, jobs: Vec<Job>, gone: &[usize]) -> Option<u64> {
    let mut mail: Vec<u64> = Vec::new();
    dispatch.start(jobs);
    loop {
        match dispatch.next() {
            Delivery::Send(job) => {
                let taken = !gone.contains(&job.worker);
                if taken {
                    mail.push(job.run(SCALAR));
                }
                dispatch.offered_next(taken);
            }
            Delivery::Receive => dispatch.heard(mail.pop()),
            Delivery::Done(total) => {
                assert!(mail.is_empty());
                return total;
            }
        }
    }
}

#[test]
fn nothing_is_under_way_at_first() {
    assert_eq!(Dispatch::new().next(), Delivery::Done(Some(0)));
}

#[test]
fn a_pool_serves_one_count_after_the_other() {
    let pool = WorkerPool::new(3);
    let mut dispatch = Dispatch::new();
    for target in [7, 1000, 7, 0, 1, 2, 1000] {
        assert_eq!(count(&mut dispatch, pool.jobs(target), &[]), Some(target));
    }
}

#[test]
fn jobs_go_out_before_replies_come_in() {
    let jobs = WorkerPool::new(2).jobs(5);
    let mut dispatch = Dispatch::new();
    dispatch.start(jobs.clone());
    assert_eq!(dispatch.next(), Delivery::Send(jobs[0]));
    dispatch.offered_next(true);
    assert_eq!(dispatch.next(), Delivery::Send(jobs[1]));
    dispatch.offered_next(true);
    assert_eq!(dispatch.next(), Delivery::Receive);
    dispatch.heard(Some(2));
    assert_eq!(dispatch.next(), Delivery::Receive);
    dispatch.heard(Some(3));
    assert_eq!(dispatch.next(), Delivery::Done(Some(5)));
}

#[test]
fn a_worker_that_is_gone_leaves_its_part_out() {
    let pool = WorkerPool::new(4);
    let mut dispatch = Dispatch::new();
    assert_eq!(count(&mut dispatch, pool.jobs(10), &[]), Some(10));
    assert_eq!(count(&mut dispatch, pool.jobs(10), &[1]), Some(7));
    assert_eq!(count(&mut dispatch, pool.jobs(10), &[0, 1, 2, 3]), Some(0));
    assert_eq!(count(&mut dispatch, pool.jobs(10), &[]), Some(10));
}

#[test]
fn a_lost_reply_counts_nothing() {
    let mut dispatch = Dispatch::new();
    dispatch.start(WorkerPool::new(2).jobs(4));
    dispatch.offered_next(true);
    dispatch.offered_next(true);
    dispatch.heard(None);
    dispatch.heard(Some(2));
    assert_eq!(dispatch.next(), Delivery::Done(Some(2)));
}

#[test]
fn a_sum_that_does_not_fit_is_refused() {
    let mut dispatch = Dispatch::new();
    dispatch.start(WorkerPool::new(2).jobs(4));
    dispatch.offered_next(true);
    dispatch.offered_next(true);
    dispatch.heard(Some(u64::MAX));
    dispatch.heard(Some(1));
    assert_eq!(dispatch.next(), Delivery::Done(None));
}
