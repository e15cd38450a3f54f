//! The course of one count by a pool: the jobs go out, the replies come in.
//!
//! A pool serves one count after the other. Which jobs go out, how many
//! replies are waited for and what they add up to is decided here; carrying
//! the jobs to the workers and the replies back is not.

use vstd::multiset::*;
use vstd::prelude::*;

use crate::pool::{tally, Job, WorkerPool};

verus! {

/// What is to be done next for a count.
#[derive(Clone, Copy, PartialEq, Eq, Structural, Debug)]
pub enum Delivery {
    /// Hand this job to its worker.
    Send(Job),
    /// Wait for a reply.
    Receive,
    /// The count is over, with this sum; `None` where it does not fit.
    Done(Option<u64>),
}

/// A count by a pool on its way.
pub struct Dispatch {
    pub jobs: Vec<Job>,
    /// How many of the jobs have been offered to their workers.
    pub offered: usize,
    /// How many of these the workers have taken.
    pub sent: usize,
    /// What came back: a count, or nothing where a worker is gone.
    pub replies: Vec<Option<u64>>,
}

/// What a count by a pool has come to.
pub struct Progress {
    pub jobs: Seq<Job>,
    pub offered: int,
    pub sent: int,
    pub replies: Seq<Option<u64>>,
}

impl Progress {
    /// A count of which nothing is done.
    pub open spec fn begun(jobs: Seq<Job>) -> Progress {
        Progress { jobs, offered: 0, sent: 0, replies: seq![] }
    }

    /// The next job has been offered to its worker, who took it or is gone.
    pub open spec fn offered_next(self, taken: bool) -> Progress {
        Progress {
            offered: self.offered + 1,
            sent: if taken {
                self.sent + 1
            } else {
                self.sent
            },
            ..self
        }
    }

    /// A reply has come in.
    pub open spec fn heard(self, reply: Option<u64>) -> Progress {
        Progress { replies: self.replies.push(reply), ..self }
    }

    /// No more jobs are offered than there are, no more are taken than are
    /// offered, and no more replies have come in than jobs are taken.
    pub open spec fn well_formed(self) -> bool {
        self.replies.len() <= self.sent <= self.offered <= self.jobs.len()
    }

    /// What is to be done next: the jobs that are left, then a reply for
    /// every job that was taken, then nothing.
    pub open spec fn next(self) -> Delivery {
        if self.offered < self.jobs.len() {
            Delivery::Send(self.jobs[self.offered])
        } else if self.replies.len() < self.sent {
            Delivery::Receive
        } else {
            Delivery::Done(crate::pool::reply_total(self.replies))
        }
    }

    /// How many deliveries come before the end, at most.
    pub open spec fn remaining(self) -> int {
        2 * (self.jobs.len() - self.offered) + self.sent - self.replies.len()
    }
}

impl View for Dispatch {
    type V = Progress;

    open spec fn view(&self) -> Progress {
        Progress {
            jobs: self.jobs@,
            offered: self.offered as int,
            sent: self.sent as int,
            replies: self.replies@,
        }
    }
}

impl Dispatch {
    /// A pool that has counted nothing yet.
    pub fn new() -> (r: Dispatch)
        ensures
            r@ == Progress::begun(seq![]),
            r@.well_formed(),
    {
        Dispatch { jobs: Vec::new(), offered: 0, sent: 0, replies: Vec::new() }
    }

    /// Begins a count. The one before it is over.
    pub fn start(&mut self, jobs: Vec<Job>)
        requires
            old(self)@.next() is Done,
        ensures
            final(self)@ == Progress::begun(jobs@),
            final(self)@.well_formed(),
    {
        self.jobs = jobs;
        self.offered = 0;
        self.sent = 0;
        self.replies = Vec::new();
    }

    /// Says what is to be done next.
    pub fn next(&self) -> (r: Delivery)
        requires
            self@.well_formed(),
        ensures
            r == self@.next(),
    {
        if self.offered < self.jobs.len() {
            Delivery::Send(self.jobs[self.offered])
        } else if self.replies.len() < self.sent {
            Delivery::Receive
        } else {
            Delivery::Done(tally(self.replies.as_slice()))
        }
    }

    /// The next job has been offered to its worker, who took it or is gone.
    pub fn offered_next(&mut self, taken: bool)
        requires
            old(self)@.well_formed(),
            old(self)@.next() is Send,
        ensures
            final(self)@ == old(self)@.offered_next(taken),
            final(self)@.well_formed(),
            final(self)@.remaining() < old(self)@.remaining(),
    {
        assert(self.offered < self.jobs.len());
        self.offered += 1;
        if taken {
            self.sent += 1;
        }
    }

    /// A reply has come in, or none will because the worker is gone.
    pub fn heard(&mut self, reply: Option<u64>)
        requires
            old(self)@.well_formed(),
            old(self)@.next() is Receive,
        ensures
            final(self)@ == old(self)@.heard(reply),
            final(self)@.well_formed(),
            final(self)@.remaining() < old(self)@.remaining(),
    {
        self.replies.push(reply);
    }
}

/// What the jobs count together, each done in full.
pub open spec fn jobs_total(jobs: Seq<Job>) -> int {
    crate::pool::reply_sum(crate::pool::full_replies(jobs))
}

/// What happens to a pool.
pub enum Event {
    /// A count to this number begins.
    Start(u64),
    /// The worker of the next job takes it.
    Taken,
    /// The worker of the next job is gone.
    Refused,
    /// This reply comes in.
    Heard(Option<u64>),
}

/// A pool at work: what the count under way is to come to, how far it is,
/// which of its jobs the workers have taken, and the replies that are on their
/// way, whichever count they belong to.
pub struct Service {
    pub target: u64,
    pub progress: Progress,
    pub taken: Seq<Job>,
    pub mail: Multiset<Option<u64>>,
}

impl Service {
    /// A pool that has counted nothing yet.
    pub open spec fn idle() -> Service {
        Service {
            target: 0,
            progress: Progress::begun(seq![]),
            taken: seq![],
            mail: Multiset::empty(),
        }
    }

    /// What can happen: a count begins once the one before it is over, a job
    /// is offered when its turn has come, and a reply comes in, while one is
    /// waited for, out of those on their way.
    pub open spec fn allows(self, event: Event) -> bool {
        match event {
            Event::Start(_) => self.progress.next() is Done,
            Event::Taken | Event::Refused => self.progress.next() is Send,
            Event::Heard(reply) => self.progress.next() is Receive && self.mail.contains(reply),
        }
    }

    /// What comes of it. The job that was to be handed out is taken and done in
    /// full, and its reply is then on its way.
    pub open spec fn after(self, pool: WorkerPool, event: Event) -> Service {
        match event {
            Event::Start(target) => Service {
                target,
                progress: Progress::begun(pool.plan(target)),
                taken: seq![],
                mail: self.mail,
            },
            Event::Taken => {
                let job = self.progress.next()->Send_0;
                Service {
                    target: self.target,
                    progress: self.progress.offered_next(true),
                    taken: self.taken.push(job),
                    mail: self.mail.insert(Some(job.size() as u64)),
                }
            },
            Event::Refused => Service { progress: self.progress.offered_next(false), ..self },
            Event::Heard(reply) => Service {
                progress: self.progress.heard(reply),
                mail: self.mail.remove(reply),
                ..self
            },
        }
    }
}

/// The pool once the events have happened, one after the other.
pub open spec fn service_after(pool: WorkerPool, events: Seq<Event>) -> Service
    decreases events.len(),
{
    if events.len() == 0 {
        Service::idle()
    } else {
        service_after(pool, events.drop_last()).after(pool, events.last())
    }
}

/// Each of the events can happen when its turn comes.
pub open spec fn possible(pool: WorkerPool, events: Seq<Event>) -> bool
    decreases events.len(),
{
    events.len() > 0 ==> {
        &&& possible(pool, events.drop_last())
        &&& service_after(pool, events.drop_last()).allows(events.last())
    }
}

/// The replies on their way and those that came in are the replies to the jobs
/// taken in the count under way, and these are among those offered.
spec fn in_order(pool: WorkerPool, s: Service) -> bool {
    let p = s.progress;
    let offered = p.jobs.take(p.offered);
    &&& p.well_formed()
    &&& p.jobs == pool.plan(s.target)
    &&& p.sent == s.taken.len()
    &&& s.taken.len() == offered.len() ==> s.taken == offered
    &&& jobs_total(s.taken) <= jobs_total(offered)
    &&& s.mail.add(p.replies.to_multiset()) == crate::pool::full_replies(s.taken).to_multiset()
}

proof fn lemma_replies_to_one_more(jobs: Seq<Job>, job: Job)
    ensures
        crate::pool::full_replies(jobs.push(job)) == crate::pool::full_replies(jobs).push(
            Some(job.size() as u64),
        ),
        jobs_total(jobs.push(job)) == jobs_total(jobs) + job.size() as u64,
{
    let more = crate::pool::full_replies(jobs).push(Some(job.size() as u64));
    assert(crate::pool::full_replies(jobs.push(job)) =~= more);
    assert(more.drop_last() =~= crate::pool::full_replies(jobs));
}

proof fn lemma_in_order_counts(pool: WorkerPool, s: Service)
    requires
        in_order(pool, s),
    ensures
        s.mail.len() + s.progress.replies.len() == s.progress.sent,
{
    broadcast use {vstd::seq_lib::group_to_multiset_ensures, group_multiset_axioms};

    assert(crate::pool::full_replies(s.taken).to_multiset().len() == s.taken.len());
    assert(s.progress.replies.to_multiset().len() == s.progress.replies.len());
}

proof fn lemma_nothing_on_its_way(pool: WorkerPool, s: Service)
    requires
        in_order(pool, s),
        s.progress.next() is Done,
    ensures
        s.mail == Multiset::<Option<u64>>::empty(),
        s.progress.replies.to_multiset() == crate::pool::full_replies(s.taken).to_multiset(),
        s.progress.jobs.take(s.progress.offered) == s.progress.jobs,
{
    broadcast use group_multiset_axioms;

    lemma_in_order_counts(pool, s);
    assert(s.mail =~= Multiset::empty());
    assert(s.mail.add(s.progress.replies.to_multiset()) =~= s.progress.replies.to_multiset());
}

proof fn lemma_event_keeps_order(pool: WorkerPool, s: Service, event: Event)
    requires
        in_order(pool, s),
        s.allows(event),
    ensures
        in_order(pool, s.after(pool, event)),
{
    broadcast use {vstd::seq_lib::group_to_multiset_ensures, group_multiset_axioms};

    let p = s.progress;
    let next = s.after(pool, event);
    match event {
        Event::Start(target) => {
            lemma_nothing_on_its_way(pool, s);
            lemma_nothing_taken(pool, next);
        },
        Event::Taken => {
            let job = p.jobs[p.offered];
            lemma_replies_to_one_more(s.taken, job);
            lemma_replies_to_one_more(p.jobs.take(p.offered), job);
            assert(p.jobs.take(p.offered + 1) =~= p.jobs.take(p.offered).push(job));
            assert(next.mail.add(p.replies.to_multiset()) =~= s.mail.add(
                p.replies.to_multiset(),
            ).insert(Some(job.size() as u64)));
        },
        Event::Refused => {
            let job = p.jobs[p.offered];
            lemma_replies_to_one_more(p.jobs.take(p.offered), job);
            assert(p.jobs.take(p.offered + 1) =~= p.jobs.take(p.offered).push(job));
        },
        Event::Heard(reply) => {
            lemma_in_order_counts(pool, s);
            assert(next.mail.add(p.replies.push(reply).to_multiset()) =~= s.mail.add(
                p.replies.to_multiset(),
            ));
        },
    }
}

proof fn lemma_nothing_taken(pool: WorkerPool, s: Service)
    requires
        s.progress == Progress::begun(pool.plan(s.target)),
        s.taken.len() == 0,
        s.mail == Multiset::<Option<u64>>::empty(),
    ensures
        in_order(pool, s),
{
    broadcast use {vstd::seq_lib::group_to_multiset_ensures, group_multiset_axioms};

    assert(s.progress.jobs.take(0) =~= s.taken);
    assert(crate::pool::full_replies(s.taken) =~= s.progress.replies);
    assert(s.mail.add(s.progress.replies.to_multiset()) =~= s.progress.replies.to_multiset());
}

proof fn lemma_possible_is_in_order(pool: WorkerPool, events: Seq<Event>)
    requires
        possible(pool, events),
    ensures
        in_order(pool, service_after(pool, events)),
    decreases events.len(),
{
    if events.len() == 0 {
        lemma_nothing_taken(pool, Service::idle());
    } else {
        lemma_possible_is_in_order(pool, events.drop_last());
        lemma_event_keeps_order(pool, service_after(pool, events.drop_last()), events.last());
    }
}

/// A pool serves one count after the other. Whatever it has counted before and
/// in whatever order the replies come in, a count that is over has come to its
/// own target where every job of it was taken, to the jobs that were taken
/// where a worker is gone, and leaves no reply on its way to a later count.
pub proof fn law_pool_serves_every_count(pool: WorkerPool, events: Seq<Event>)
    requires
        pool.workers > 0,
        possible(pool, events),
    ensures
        ({
            let s = service_after(pool, events);
            s.progress.next() matches Delivery::Done(total) ==> {
                &&& s.mail == Multiset::<Option<u64>>::empty()
                &&& total matches Some(n) && n == jobs_total(s.taken) <= s.target
                &&& s.taken == pool.plan(s.target) ==> total == Some(s.target)
            }
        }),
{
    let s = service_after(pool, events);
    lemma_possible_is_in_order(pool, events);
    if s.progress.next() is Done {
        let all = crate::pool::full_replies(pool.plan(s.target));
        lemma_nothing_on_its_way(pool, s);
        crate::pool::lemma_reply_sum_grows(s.progress.replies, 0);
        crate::pool::law_order_of_replies_does_not_matter(
            s.progress.replies,
            crate::pool::full_replies(s.taken),
        );
        crate::pool::law_pool_counts_to_the_target(pool, s.target, all);
    }
}

/// Where no worker is ever gone, every count of the pool that is over has come
/// to its own target, however many went before it, and each of its jobs has
/// been handed out once.
pub proof fn law_full_pool_counts_to_every_target(pool: WorkerPool, events: Seq<Event>)
    requires
        pool.workers > 0,
        possible(pool, events),
        forall|k: int| 0 <= k < events.len() ==> #[trigger] events[k] !is Refused,
    ensures
        ({
            let s = service_after(pool, events);
            s.progress.next() matches Delivery::Done(total) ==> {
                &&& total == Some(s.target)
                &&& s.taken == pool.plan(s.target)
            }
        }),
{
    lemma_full_pool_takes_all(pool, events);
    lemma_possible_is_in_order(pool, events);
    law_pool_serves_every_count(pool, events);
    let s = service_after(pool, events);
    if s.progress.next() is Done {
        lemma_nothing_on_its_way(pool, s);
    }
}

proof fn lemma_full_pool_takes_all(pool: WorkerPool, events: Seq<Event>)
    requires
        forall|k: int| 0 <= k < events.len() ==> #[trigger] events[k] !is Refused,
    ensures
        service_after(pool, events).progress.sent == service_after(pool, events).progress.offered,
    decreases events.len(),
{
    if events.len() > 0 {
        assert(events.last() == events[events.len() - 1]);
        assert forall|k: int| 0 <= k < events.drop_last().len() implies #[trigger]
            events.drop_last()[k] !is Refused by {
            assert(events.drop_last()[k] == events[k]);
        }
        lemma_full_pool_takes_all(pool, events.drop_last());
    }
}

/// Every count comes to its end: while it is not over, something can happen
/// that belongs to it, so that no reply is waited for in vain, and whatever
/// happens brings the end nearer.
pub proof fn law_every_count_comes_to_its_end(pool: WorkerPool, events: Seq<Event>)
    requires
        possible(pool, events),
    ensures
        ({
            let s = service_after(pool, events);
            &&& s.progress.remaining() >= 0
            &&& s.progress.next() !is Done ==> exists|event: Event|
                event !is Start && #[trigger] s.allows(event)
            &&& forall|event: Event| #[trigger]
                s.allows(event) && event !is Start ==> s.after(pool, event).progress.remaining()
                    < s.progress.remaining()
        }),
{
    broadcast use group_multiset_axioms;

    let s = service_after(pool, events);
    lemma_possible_is_in_order(pool, events);
    if s.progress.next() is Receive {
        lemma_in_order_counts(pool, s);
        assert(s.allows(Event::Heard(s.mail.choose())));
    } else if s.progress.next() is Send {
        assert(s.allows(Event::Taken));
    }
}

/// A count hands its jobs out in turn, and waits for as many replies as were
/// taken; the sum of what it heard is what it comes to.
pub proof fn law_course_of_a_count(p: Progress, n: u64)
    requires
        p.well_formed(),
    ensures
        Progress::begun(p.jobs).jobs == p.jobs,
        Progress::begun(p.jobs).well_formed(),
        p.offered < p.jobs.len() ==> p.next() == Delivery::Send(p.jobs[p.offered]),
        p.offered == p.jobs.len() && p.replies.len() < p.sent ==> p.next() == Delivery::Receive,
        p.offered == p.jobs.len() && p.replies.len() == p.sent ==> {
            &&& p.next() is Done
            &&& p.next() == Delivery::Done(Some(n)) <==> crate::pool::reply_sum(p.replies) == n
        },
{
    crate::pool::law_replies_add_up(p.replies, seq![], n);
}

} // verus!
