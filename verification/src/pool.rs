//! How a count is shared out among workers, and how their replies are added
//! up.

use vstd::prelude::*;

use crate::count::{count_range, Features};

verus! {

/// `a / b`, rounded up.
pub open spec fn ceil_div(a: int, b: int) -> int {
    (a + b - 1) / b
}

proof fn lemma_ceil_div(a: int, b: int)
    requires
        a >= 0,
        b > 0,
    ensures
        ceil_div(a, b) == a / b + if a % b != 0 {
            1int
        } else {
            0int
        },
        ceil_div(a, b) * b >= a,
        a > 0 ==> (ceil_div(a, b) - 1) * b < a,
        a > 0 ==> 1 <= ceil_div(a, b) <= a,
{
    vstd::arithmetic::div_mod::lemma_fundamental_div_mod(a, b);
    vstd::arithmetic::div_mod::lemma_mod_bound(a, b);
    let q = a / b;
    let r = a % b;
    if r == 0 {
        assert(a + b - 1 == q * b + (b - 1)) by (nonlinear_arith)
            requires
                a == b * q + r,
                r == 0,
        ;
        vstd::arithmetic::div_mod::lemma_fundamental_div_mod_converse(a + b - 1, b, q, b - 1);
    } else {
        assert(a + b - 1 == (q + 1) * b + (r - 1)) by (nonlinear_arith)
            requires
                a == b * q + r,
        ;
        vstd::arithmetic::div_mod::lemma_fundamental_div_mod_converse(a + b - 1, b, q + 1, r - 1);
    }
    assert((q + 1) * b == b * q + b) by (nonlinear_arith);
    assert((q - 1) * b == b * q - b) by (nonlinear_arith);
    assert(q * b == b * q) by (nonlinear_arith);
    if a > 0 && q <= 0 && r == 0 {
        assert(b * q <= 0) by (nonlinear_arith)
            requires
                b > 0,
                q <= 0,
        ;
    }
    if a > 0 {
        let c = ceil_div(a, b);
        assert(c <= a) by (nonlinear_arith)
            requires
                (c - 1) * b < a,
                b >= 1,
                a >= 1,
        ;
    }
    if q < 0 {
        assert(b * q <= -b) by (nonlinear_arith)
            requires
                b > 0,
                q < 0,
        ;
    }
}

/// A number of times is the quotient rounded up where it is the least that
/// reaches `a`.
proof fn lemma_ceil_div_unique(a: int, b: int, t: int)
    requires
        a > 0,
        b > 0,
        t * b >= a,
        (t - 1) * b < a,
    ensures
        t == ceil_div(a, b),
{
    lemma_ceil_div(a, b);
    let c = ceil_div(a, b);
    if t < c {
        assert(t * b <= (c - 1) * b) by (nonlinear_arith)
            requires
                t <= c - 1,
                b > 0,
        ;
    }
    if c < t {
        assert(c * b <= (t - 1) * b) by (nonlinear_arith)
            requires
                c <= t - 1,
                b > 0,
        ;
    }
}

/// A part of a count: the integers from `start` up to `end`, for one worker.
#[derive(Clone, Copy, PartialEq, Eq, Structural, Debug)]
pub struct Job {
    pub worker: usize,
    pub start: u64,
    pub end: u64,
}

impl Job {
    /// How many integers the job counts.
    pub open spec fn size(self) -> int {
        crate::count::range_len(self.start as int, self.end as int)
    }

    /// Does the job.
    pub fn run(&self, features: Features) -> (r: u64)
        ensures
            r == self.size(),
    {
        count_range(self.start, self.end, features)
    }
}

/// A pool of workers, known by their numbers from 0 on.
#[derive(Clone, Copy, PartialEq, Eq, Structural, Debug)]
pub struct WorkerPool {
    pub workers: usize,
}

impl WorkerPool {
    /// How many parts a count to `target` is cut into, at most: one for each
    /// worker, but no more than there are integers, and never none.
    pub open spec fn parts(self, target: u64) -> int {
        let n = if self.workers < target as usize {
            self.workers
        } else {
            target as usize
        };
        if n < 1 {
            1
        } else {
            n as int
        }
    }

    /// How many integers a part holds, at most.
    pub open spec fn chunk(self, target: u64) -> int {
        ceil_div(target as int, self.parts(target))
    }

    /// The part with the number `t` of a count to `target`.
    pub open spec fn part(self, target: u64, t: int) -> Job {
        let start = t * self.chunk(target);
        let end = start + self.chunk(target);
        Job {
            worker: t as usize,
            start: start as u64,
            end: if end < target {
                end as u64
            } else {
                target
            },
        }
    }

    /// The parts of a count to `target` that are not empty: the first ones,
    /// each for the worker of its number. A pool without workers has none.
    pub open spec fn plan(self, target: u64) -> Seq<Job> {
        if target == 0 || self.workers == 0 {
            seq![]
        } else {
            Seq::new(
                ceil_div(target as int, self.chunk(target)) as nat,
                |t: int| self.part(target, t),
            )
        }
    }

    /// A pool of `n_threads` workers.
    pub fn new(n_threads: usize) -> (r: WorkerPool)
        ensures
            r.workers == n_threads,
    {
        WorkerPool { workers: n_threads }
    }

    /// Cuts a count to `target` into jobs.
    pub fn jobs(&self, target: u64) -> (r: Vec<Job>)
        ensures
            r@ == self.plan(target),
    {
        let mut r: Vec<Job> = Vec::new();
        if target == 0 || self.workers == 0 {
            return r;
        }
        let mut n: usize = self.workers;
        if target as usize <= n {
            n = target as usize;
        }
        if n < 1 {
            n = 1;
        }
        proof {
            lemma_ceil_div(target as int, n as int);
        }
        let mut chunk: u64 = target / n as u64;
        if target % n as u64 != 0 {
            chunk += 1;
        }
        let mut t: usize = 0;
        let mut start: u64 = 0;
        while start < target
            invariant
                self.workers >= 1,
                target > 0,
                1 <= n == self.parts(target) <= self.workers,
                chunk == self.chunk(target) >= 1,
                chunk * n >= target,
                start == target || start == t * chunk,
                start <= target,
                start == target ==> t * chunk >= target && (t - 1) * chunk < target,
                t <= n,
                r@ == Seq::new(t as nat, |k: int| self.part(target, k)),
            decreases target - start,
        {
            assert(t < n) by (nonlinear_arith)
                requires
                    start == t * chunk,
                    start < target,
                    chunk * n >= target,
                    chunk >= 1,
            ;
            let end: u64 = if target - start > chunk {
                start + chunk
            } else {
                target
            };
            assert((t + 1) * chunk == t * chunk + chunk) by (nonlinear_arith);
            r.push(Job { worker: t, start, end });
            t += 1;
            start = end;
            assert(r@ =~= Seq::new(t as nat, |k: int| self.part(target, k)));
        }
        proof {
            lemma_ceil_div_unique(target as int, chunk as int, t as int);
        }
        r
    }
}

/// How a count is carried out.
#[derive(Clone, Copy, PartialEq, Eq, Structural, Debug)]
pub enum Counter {
    /// On the calling thread.
    Direct,
    /// By a pool of workers.
    Pooled(WorkerPool),
}

/// What is to be done for a count.
#[derive(PartialEq, Eq, Debug)]
pub enum Plan {
    /// One job, on the calling thread.
    Here(Job),
    /// Jobs for the workers of the pool.
    Shared(Vec<Job>),
}

impl Plan {
    /// The jobs of the plan.
    pub open spec fn jobs(self) -> Seq<Job> {
        match self {
            Plan::Here(job) => seq![job],
            Plan::Shared(jobs) => jobs@,
        }
    }
}

impl Counter {
    /// The counter for `threads` threads: a pool only where there is more
    /// than one.
    pub open spec fn for_threads(threads: usize) -> Counter {
        if threads <= 1 {
            Counter::Direct
        } else {
            Counter::Pooled(WorkerPool { workers: threads })
        }
    }

    /// The jobs of a count to `target`.
    pub open spec fn jobs(self, target: u64) -> Seq<Job> {
        match self {
            Counter::Direct => seq![Job { worker: 0, start: 0, end: target }],
            Counter::Pooled(pool) => pool.plan(target),
        }
    }

    /// A counter for `threads` threads.
    pub fn new(threads: usize) -> (r: Counter)
        ensures
            r == Counter::for_threads(threads),
    {
        if threads <= 1 {
            Counter::Direct
        } else {
            Counter::Pooled(WorkerPool::new(threads))
        }
    }

    /// Lays out a count to `target`.
    pub fn plan(&self, target: u64) -> (r: Plan)
        ensures
            r is Here <==> *self is Direct,
            r.jobs() == self.jobs(target),
    {
        match self {
            Counter::Direct => Plan::Here(Job { worker: 0, start: 0, end: target }),
            Counter::Pooled(pool) => Plan::Shared(pool.jobs(target)),
        }
    }
}

/// What a reply adds to a count: nothing where the worker is gone.
pub open spec fn reply_value(reply: Option<u64>) -> int {
    match reply {
        Some(n) => n as int,
        None => 0,
    }
}

/// The sum of the replies.
pub open spec fn reply_sum(replies: Seq<Option<u64>>) -> int
    decreases replies.len(),
{
    if replies.len() == 0 {
        0
    } else {
        reply_sum(replies.drop_last()) + reply_value(replies.last())
    }
}

/// The sum of the replies, if it fits in a `u64`.
pub open spec fn reply_total(replies: Seq<Option<u64>>) -> Option<u64> {
    if reply_sum(replies) <= u64::MAX {
        Some(reply_sum(replies) as u64)
    } else {
        None
    }
}

pub(crate) proof fn lemma_reply_sum_grows(replies: Seq<Option<u64>>, k: int)
    requires
        0 <= k <= replies.len(),
    ensures
        0 <= reply_sum(replies.take(k)) <= reply_sum(replies),
    decreases replies.len(),
{
    if k == replies.len() {
        assert(replies.take(k) =~= replies);
        if k > 0 {
            lemma_reply_sum_grows(replies.drop_last(), k - 1);
        }
    } else {
        lemma_reply_sum_grows(replies.drop_last(), k);
        assert(replies.drop_last().take(k) =~= replies.take(k));
    }
}

/// Adds up the replies of the workers; `None` where the sum does not fit.
pub fn tally(replies: &[Option<u64>]) -> (r: Option<u64>)
    ensures
        r == reply_total(replies@),
{
    let mut total: u64 = 0;
    let mut k: usize = 0;
    while k < replies.len()
        invariant
            k <= replies.len(),
            total == reply_sum(replies@.take(k as int)),
        decreases replies.len() - k,
    {
        let n: u64 = match replies[k] {
            Some(n) => n,
            None => 0,
        };
        proof {
            assert(replies@.take(k + 1).drop_last() =~= replies@.take(k as int));
            lemma_reply_sum_grows(replies@, k + 1);
        }
        match total.checked_add(n) {
            Some(sum) => total = sum,
            None => return None,
        }
        k += 1;
    }
    assert(replies@.take(k as int) =~= replies@);
    Some(total)
}

proof fn lemma_plan_bounds(pool: WorkerPool, target: u64)
    requires
        target > 0,
        pool.workers > 0,
    ensures
        1 <= pool.plan(target).len() <= pool.parts(target) <= pool.workers,
        1 <= pool.chunk(target),
        forall|t: int|
            0 <= t < pool.plan(target).len() ==> {
                let job = #[trigger] pool.plan(target)[t];
                &&& job.worker == t
                &&& job.start == t * pool.chunk(target)
                &&& job.start < job.end <= target
                &&& job.end <= job.start + pool.chunk(target)
                &&& t + 1 < pool.plan(target).len() ==> job.end == (t + 1) * pool.chunk(target)
                &&& t + 1 == pool.plan(target).len() ==> job.end == target
            },
{
    let n = pool.parts(target);
    let chunk = pool.chunk(target);
    let len = ceil_div(target as int, chunk);
    lemma_ceil_div(target as int, n);
    lemma_ceil_div(target as int, chunk);
    assert(len <= n) by (nonlinear_arith)
        requires
            (len - 1) * chunk < target,
            chunk * n >= target,
            chunk >= 1,
    ;
    assert forall|t: int| 0 <= t < len implies {
        let job = #[trigger] pool.plan(target)[t];
        &&& job.worker == t
        &&& job.start == t * chunk
        &&& job.start < job.end <= target
        &&& job.end <= job.start + chunk
        &&& t + 1 < len ==> job.end == (t + 1) * chunk
        &&& t + 1 == len ==> job.end == target
    } by {
        assert((t + 1) * chunk == t * chunk + chunk) by (nonlinear_arith);
        assert(0 <= t * chunk <= (len - 1) * chunk) by (nonlinear_arith)
            requires
                0 <= t <= len - 1,
                chunk >= 1,
        ;
        if t + 1 < len {
            assert((t + 1) * chunk <= (len - 1) * chunk) by (nonlinear_arith)
                requires
                    t + 1 <= len - 1,
                    chunk >= 1,
            ;
        }
        assert(pool.plan(target)[t] == pool.part(target, t));
    }
}

/// The jobs of a pool cut the integers below `target` into pieces: they begin
/// at 0, each begins where the one before it ends, the last one ends at
/// `target`, none is empty, none is larger than the chunk, and no worker gets
/// two.
pub proof fn law_jobs_follow_each_other(pool: WorkerPool, target: u64)
    requires
        target > 0,
        pool.workers > 0,
    ensures
        ({
            let jobs = pool.plan(target);
            &&& 1 <= jobs.len() <= pool.workers
            &&& jobs[0].start == 0
            &&& jobs.last().end == target
            &&& forall|t: int|
                0 <= t < jobs.len() ==> {
                    &&& (#[trigger] jobs[t]).worker == t
                    &&& 1 <= jobs[t].size() <= pool.chunk(target)
                }
            &&& forall|t: int, u: int|
                0 <= t < jobs.len() && u == t + 1 && u < jobs.len() ==> (#[trigger] jobs[t]).end
                    == (#[trigger] jobs[u]).start
        }),
{
    lemma_plan_bounds(pool, target);
}

/// Every integer below `target` is counted by exactly one job of the pool.
pub proof fn law_every_integer_is_counted_once(pool: WorkerPool, target: u64, x: int) -> (t: int)
    requires
        0 <= x < target,
        pool.workers > 0,
    ensures
        0 <= t < pool.plan(target).len(),
        forall|u: int|
            0 <= u < pool.plan(target).len() ==> ((#[trigger] pool.plan(target)[u]).start <= x
                < pool.plan(target)[u].end <==> u == t),
{
    lemma_plan_bounds(pool, target);
    let chunk = pool.chunk(target);
    let jobs = pool.plan(target);
    let t = x / chunk;
    vstd::arithmetic::div_mod::lemma_fundamental_div_mod(x, chunk);
    vstd::arithmetic::div_mod::lemma_mod_bound(x, chunk);
    vstd::arithmetic::div_mod::lemma_div_pos_is_pos(x, chunk);
    assert(t * chunk <= x < (t + 1) * chunk) by (nonlinear_arith)
        requires
            x == chunk * t + x % chunk,
            0 <= x % chunk < chunk,
    ;
    let last = jobs.len() - 1;
    lemma_ceil_div(target as int, chunk);
    assert(t <= last) by (nonlinear_arith)
        requires
            t * chunk <= x < target,
            (last + 1) * chunk >= target,
            chunk >= 1,
    ;
    assert forall|u: int| 0 <= u < jobs.len() implies ((#[trigger] jobs[u]).start <= x
        < jobs[u].end <==> u == t) by {
        if u < t {
            assert((u + 1) * chunk <= t * chunk) by (nonlinear_arith)
                requires
                    u + 1 <= t,
                    chunk >= 1,
            ;
        }
        if u > t {
            assert((t + 1) * chunk <= u * chunk) by (nonlinear_arith)
                requires
                    t + 1 <= u,
                    chunk >= 1,
            ;
        }
    }
    t
}

/// The replies to the jobs, each of which counts all of its part.
pub open spec fn full_replies(jobs: Seq<Job>) -> Seq<Option<u64>> {
    Seq::new(jobs.len(), |t: int| Some(jobs[t].size() as u64))
}

proof fn lemma_full_replies_sum(pool: WorkerPool, target: u64, k: int)
    requires
        target > 0,
        pool.workers > 0,
        0 <= k <= pool.plan(target).len(),
    ensures
        reply_sum(full_replies(pool.plan(target).take(k))) == if k == 0 {
            0
        } else {
            pool.plan(target)[k - 1].end as int
        },
    decreases k,
{
    lemma_plan_bounds(pool, target);
    let jobs = pool.plan(target);
    if k > 0 {
        lemma_full_replies_sum(pool, target, k - 1);
        let replies = full_replies(jobs.take(k));
        assert(replies.drop_last() =~= full_replies(jobs.take(k - 1)));
        assert(replies.last() == Some(jobs[k - 1].size() as u64));
        if k > 1 {
            assert(jobs[k - 2].end == (k - 1) * pool.chunk(target));
        } else {
            assert(jobs[0].start == 0 * pool.chunk(target));
        }
    }
}

spec fn adds_reply() -> spec_fn(Option<u64>, int) -> int {
    |reply: Option<u64>, sum: int| sum + reply_value(reply)
}

proof fn lemma_reply_sum_fold(replies: Seq<Option<u64>>, b: int)
    ensures
        replies.fold_right(adds_reply(), b) == reply_sum(replies) + b,
    decreases replies.len(),
{
    if replies.len() > 0 {
        lemma_reply_sum_fold(replies.drop_last(), b + reply_value(replies.last()));
    }
}

/// The order in which the replies come in does not matter.
pub proof fn law_order_of_replies_does_not_matter(a: Seq<Option<u64>>, b: Seq<Option<u64>>)
    requires
        a.to_multiset() == b.to_multiset(),
    ensures
        reply_sum(a) == reply_sum(b),
{
    lemma_reply_sum_fold(a, 0);
    lemma_reply_sum_fold(b, 0);
    vstd::seq_lib::lemma_fold_right_permutation(a, b, adds_reply(), 0);
}

/// Where every worker counts its part, the replies, in whatever order they
/// come in, add up to the target: a pool counts to the same number as the
/// calling thread alone.
pub proof fn law_pool_counts_to_the_target(
    pool: WorkerPool,
    target: u64,
    replies: Seq<Option<u64>>,
)
    requires
        pool.workers > 0,
        replies.to_multiset() == full_replies(pool.plan(target)).to_multiset(),
    ensures
        reply_sum(replies) == target,
        reply_sum(replies) == crate::count::range_len(0, target as int),
{
    let jobs = pool.plan(target);
    law_order_of_replies_does_not_matter(replies, full_replies(jobs));
    if target > 0 {
        lemma_plan_bounds(pool, target);
        lemma_full_replies_sum(pool, target, jobs.len() as int);
        assert(jobs.take(jobs.len() as int) =~= jobs);
    }
}

/// Whatever the number of threads, the jobs of a count, each done in full and
/// in whatever order their replies come in, add up to the target.
pub proof fn law_every_counter_counts_to_the_target(
    threads: usize,
    target: u64,
    replies: Seq<Option<u64>>,
)
    requires
        replies.to_multiset() == full_replies(
            Counter::for_threads(threads).jobs(target),
        ).to_multiset(),
    ensures
        reply_sum(replies) == target,
{
    match Counter::for_threads(threads) {
        Counter::Direct => {
            let jobs = Counter::for_threads(threads).jobs(target);
            law_order_of_replies_does_not_matter(replies, full_replies(jobs));
            assert(full_replies(jobs) =~= seq![Some(target)]);
            reveal_with_fuel(reply_sum, 2);
        },
        Counter::Pooled(pool) => {
            law_pool_counts_to_the_target(pool, target, replies);
        },
    }
}

/// A worker that is gone leaves its part out of the count, and nothing else.
pub proof fn law_lost_reply_leaves_out_its_part(replies: Seq<Option<u64>>, t: int)
    requires
        0 <= t < replies.len(),
    ensures
        reply_sum(replies.update(t, None)) == reply_sum(replies) - reply_value(replies[t]),
    decreases replies.len(),
{
    let lost = replies.update(t, None);
    if t == replies.len() - 1 {
        assert(lost.drop_last() =~= replies.drop_last());
    } else {
        law_lost_reply_leaves_out_its_part(replies.drop_last(), t);
        assert(lost.drop_last() =~= replies.drop_last().update(t, None));
    }
}

/// The work is shared evenly: among as many workers as there are, or as there
/// are integers where these are fewer, each takes the target divided by that
/// number and rounded up, one after the other from 0 on, and the last one what
/// is left. Where the number of workers divides the target, every one of them
/// takes the same.
pub proof fn law_work_is_shared_evenly(pool: WorkerPool, target: u64)
    requires
        0 < target <= usize::MAX,
        pool.workers > 0,
    ensures
        ({
            let jobs = pool.plan(target);
            let n: int = if pool.workers < target {
                pool.workers as int
            } else {
                target as int
            };
            let share = (target + n - 1) / n;
            &&& (jobs.len() - 1) * share < target <= jobs.len() * share
            &&& jobs.len() <= n
            &&& forall|t: int|
                0 <= t < jobs.len() ==> {
                    &&& (#[trigger] jobs[t]).worker == t
                    &&& jobs[t].start == t * share
                    &&& jobs[t].end - jobs[t].start <= share
                    &&& t + 1 < jobs.len() ==> jobs[t].end == (t + 1) * share
                    &&& t + 1 == jobs.len() ==> jobs[t].end == target
                }
            &&& target as int % pool.workers as int == 0 ==> {
                &&& jobs.len() == pool.workers
                &&& forall|t: int|
                    0 <= t < jobs.len() ==> (#[trigger] jobs[t]).end - jobs[t].start == target as int
                        / pool.workers as int
            }
        }),
{
    let jobs = pool.plan(target);
    let n = pool.parts(target);
    let share = (target + n - 1) / n;
    assert(n == if pool.workers < target {
        pool.workers as int
    } else {
        target as int
    });
    lemma_plan_bounds(pool, target);
    lemma_ceil_div(target as int, n);
    lemma_ceil_div(target as int, share);
    if target as int % pool.workers as int == 0 {
        let w = pool.workers as int;
        let q = target as int / w;
        vstd::arithmetic::div_mod::lemma_fundamental_div_mod(target as int, w);
        assert(w <= target) by (nonlinear_arith)
            requires
                target == w * q + 0,
                target > 0,
                w > 0,
        ;
        assert(share == q);
        assert(w * q == q * w) by (nonlinear_arith);
        assert((w - 1) * q == w * q - q) by (nonlinear_arith);
        lemma_ceil_div_unique(target as int, share, w);
        assert forall|t: int| 0 <= t < jobs.len() implies (#[trigger] jobs[t]).end - jobs[t].start
            == q by {
            assert((t + 1) * q == t * q + q) by (nonlinear_arith);
        }
    }
}

/// One thread counts on its own, with one job from 0 up to the target; more
/// than one are a pool with a worker for each of them.
pub proof fn law_pool_is_for_several_threads(threads: usize, target: u64)
    ensures
        threads <= 1 ==> Counter::for_threads(threads) == Counter::Direct,
        threads > 1 ==> Counter::for_threads(threads) == Counter::Pooled(
            WorkerPool { workers: threads },
        ),
        Counter::Direct.jobs(target).len() == 1,
        Counter::Direct.jobs(target)[0].start == 0,
        Counter::Direct.jobs(target)[0].end == target,
        forall|pool: WorkerPool|
            #![trigger Counter::Pooled(pool).jobs(target)]
            Counter::Pooled(pool).jobs(target) == pool.plan(target),
{
}

/// Replies add up: those of two groups of workers to what each group comes
/// to, a reply alone to what it says, and none to nothing. The total is that
/// sum where a `u64` holds it, and there is none where it does not.
pub proof fn law_replies_add_up(a: Seq<Option<u64>>, b: Seq<Option<u64>>, n: u64)
    ensures
        reply_sum(a + b) == reply_sum(a) + reply_sum(b),
        reply_sum(seq![Some(n)]) == n,
        reply_sum(seq![None]) == 0,
        reply_sum(seq![]) == 0,
        reply_total(a) == Some(n) <==> reply_sum(a) == n,
        reply_total(a) is None <==> reply_sum(a) > u64::MAX,
    decreases b.len(),
{
    reveal_with_fuel(reply_sum, 2);
    lemma_reply_sum_grows(a, 0);
    if b.len() == 0 {
        assert(a + b =~= a);
    } else {
        law_replies_add_up(a, b.drop_last(), n);
        assert((a + b).drop_last() =~= a + b.drop_last());
    }
}

/// A job counts the integers of its part, as many as lie between its bounds.
pub proof fn law_job_counts_its_part(job: Job)
    ensures
        job.start <= job.end ==> job.size() == job.end - job.start,
        job.start > job.end ==> job.size() == 0,
{
}

} // verus!
