//! The course of a run: first the warm-up, then the trials, then the report.

use vstd::prelude::*;
use vstd::string::*;

use crate::options::Options;
use crate::report::{
    append_line, report_repeated, report_single, trial_line, Clock, Summary, Trial, TrialLog,
};
use crate::stats::{warmup_target, WARMUP_ROUNDS};

verus! {

/// What is to be done next.
#[derive(Clone, Copy, PartialEq, Eq, Structural, Debug)]
pub enum Action {
    /// Count to this number, without measuring it.
    WarmUp(u64),
    /// Count to this number, and measure it.
    Measure(u64),
    /// Write the report.
    Report,
}

/// A run on its way.
pub struct Session {
    pub opts: Options,
    /// How many rounds of the warm-up are over.
    pub warmed: u32,
    /// What is kept of the trials that are over.
    pub log: TrialLog,
    /// The last of them.
    pub last: Option<Trial>,
}

impl Session {
    /// How many trials the run consists of.
    pub open spec fn trials_due(self) -> int {
        if self.opts.repeat <= 1 {
            1
        } else {
            self.opts.repeat as int
        }
    }

    /// These trials are over, no more of them and no more rounds of the
    /// warm-up than there are.
    pub open spec fn has_run(self, trials: Seq<Trial>) -> bool {
        &&& self.warmed <= WARMUP_ROUNDS
        &&& trials.len() <= self.trials_due()
        &&& self.log.holds(trials)
        &&& self.last == if trials.len() == 0 {
            None
        } else {
            Some(trials.last())
        }
    }

    /// What is to be done next: the rounds of the warm-up that are left, then
    /// the trials that are left, then the report.
    pub open spec fn action(self) -> Action {
        if self.warmed < WARMUP_ROUNDS {
            Action::WarmUp(crate::stats::warmup_value(self.opts.count_to))
        } else if self.log.cycles@.len() < self.trials_due() {
            Action::Measure(self.opts.count_to)
        } else {
            Action::Report
        }
    }

    /// How many actions come before the report.
    pub open spec fn remaining(self) -> int {
        WARMUP_ROUNDS - self.warmed + if self.log.cycles@.len() < self.trials_due() {
            self.trials_due() - self.log.cycles@.len()
        } else {
            0
        }
    }

    /// Whether the trials are reported one by one: as JSON, where there are
    /// several.
    pub open spec fn streams(self) -> bool {
        self.opts.json && self.opts.repeat > 1
    }

    /// The lines handed back for these trials, in turn.
    pub open spec fn streamed(self, trials: Seq<Trial>) -> Seq<Seq<char>> {
        if self.streams() {
            crate::report::trial_lines(self.opts.unit, trials)
        } else {
            seq![]
        }
    }

    /// The report of the run, when `streamed` holds the lines handed back.
    pub open spec fn report_text(
        self,
        streamed: Seq<char>,
        sum: Summary,
        clock: Clock,
        on: bool,
    ) -> Seq<char> {
        if self.opts.repeat <= 1 {
            crate::report::single(self.opts, self.last->0, clock, on) + "\n"@
        } else {
            streamed + crate::report::summary(
                self.opts,
                self.log.result,
                crate::text::texts(self.log.values@),
                sum,
                clock,
                on,
            ) + "\n"@
        }
    }

    /// A run that is about to begin.
    pub fn new(opts: Options) -> (r: Session)
        ensures
            r.opts == opts,
            r.warmed == 0,
            r.has_run(seq![]),
    {
        Session { opts, warmed: 0, log: TrialLog::new(), last: None }
    }

    /// Says whether the run consists of several trials.
    pub fn repeats(&self) -> (r: bool)
        ensures
            r == (self.trials_due() > 1),
    {
        self.opts.repeat > 1
    }

    /// Says what is to be done next.
    pub fn next(&self) -> (r: Action)
        ensures
            r == self.action(),
    {
        let done: u64 = self.log.cycles.len() as u64;
        if self.warmed < WARMUP_ROUNDS {
            Action::WarmUp(warmup_target(self.opts.count_to))
        } else if done < self.opts.repeat || done < 1 {
            Action::Measure(self.opts.count_to)
        } else {
            Action::Report
        }
    }

    /// A round of the warm-up is over.
    pub fn warmed_up(&mut self)
        requires
            old(self).action() is WarmUp,
        ensures
            *final(self) == (Session { warmed: (old(self).warmed + 1) as u32, ..*old(self) }),
            forall|trials: Seq<Trial>| #[trigger]
                old(self).has_run(trials) ==> final(self).has_run(trials),
            final(self).remaining() == old(self).remaining() - 1,
    {
        self.warmed += 1;
    }

    /// A trial is over. Where it is one of several and JSON is asked for, its
    /// line is handed back.
    pub fn measured(&mut self, t: Trial) -> (r: Option<String>)
        requires
            old(self).action() is Measure,
        ensures
            final(self).opts == old(self).opts,
            final(self).warmed == old(self).warmed,
            forall|trials: Seq<Trial>| #[trigger]
                old(self).has_run(trials) ==> final(self).has_run(trials.push(t)),
            final(self).log.result == t.result,
            final(self).log.cycles@ == old(self).log.cycles@.push(t.cycles),
            crate::text::texts(final(self).log.values@) == crate::text::texts(
                old(self).log.values@,
            ).push(t.value@),
            final(self).last == Some(t),
            final(self).remaining() == old(self).remaining() - 1,
            r is Some <==> old(self).streams(),
            forall|trials: Seq<Trial>| #[trigger]
                old(self).has_run(trials) ==> final(self).streamed(trials.push(t)) == match r {
                    Some(line) => old(self).streamed(trials).push(line@),
                    None => old(self).streamed(trials),
                },
            r matches Some(line) ==> line@ == crate::report::trial_json(
                old(self).opts.unit,
                old(self).log.cycles@.len() as u64,
                t,
            ),
    {
        let index: u64 = self.log.cycles.len() as u64;
        let line = if self.opts.json && self.repeats() {
            Some(trial_line(self.opts.unit, index, &t))
        } else {
            None
        };
        self.log.record(&t);
        self.last = Some(t);
        assert forall|trials: Seq<Trial>| #[trigger] old(self).has_run(trials) && old(
            self,
        ).streams() implies self.streamed(trials.push(t)) == old(self).streamed(trials).push(
            line->0@,
        ) by {
            assert(self.streamed(trials.push(t)) =~= old(self).streamed(trials).push(line->0@));
        }
        line
    }

    /// The report of the run. `streamed` are the lines that were handed back,
    /// `sum` is the spread of the trials; neither shows where there is but
    /// one trial.
    pub fn report(&self, streamed: &str, sum: &Summary, clock: &Clock, on: bool) -> (r: String)
        requires
            self.last is Some,
        ensures
            r@ == self.report_text(streamed@, *sum, *clock, on),
    {
        if self.repeats() {
            return report_repeated(&self.opts, streamed, &self.log, sum, clock, on);
        }
        let mut r = String::new();
        if let Some(t) = &self.last {
            append_line(&mut r, report_single(&self.opts, t, clock, on).as_str());
        }
        r
    }
}

/// Nothing is measured before the whole warm-up is over, and the warm-up
/// counts to at most its cap, whatever the target.
pub proof fn law_warm_up_comes_first(s: Session)
    ensures
        s.action() matches Action::WarmUp(target) ==> 1 <= target <= crate::stats::WARMUP_CAP,
        s.action() is Measure ==> s.warmed >= WARMUP_ROUNDS,
        s.action() matches Action::Measure(target) ==> target == s.opts.count_to,
{
}

/// A run ends: it reports once all the rounds of the warm-up and exactly the
/// trials asked for are over, and not before.
pub proof fn law_report_comes_last(s: Session, trials: Seq<Trial>)
    requires
        s.has_run(trials),
    ensures
        s.action() is Report <==> s.remaining() == 0,
        s.action() is Report <==> s.warmed == WARMUP_ROUNDS && trials.len() == s.trials_due(),
        s.warmed == 0 && trials.len() == 0 ==> s.remaining() == WARMUP_ROUNDS + s.trials_due(),
{
}

/// A text that takes up the lines handed back, each of them ended, always
/// holds the lines on the trials that are over: it is empty before the first
/// trial, and the line of the next trial leads to that of one trial more.
pub proof fn law_streamed_lines_are_those_of_the_trials(s: Session, trials: Seq<Trial>, t: Trial)
    requires
        s.streams(),
    ensures
        crate::report::lines_text(s.streamed(seq![])) == Seq::<char>::empty(),
        crate::report::lines_text(s.streamed(trials)) + crate::report::trial_json(
            s.opts.unit,
            trials.len() as u64,
            t,
        ) + "\n"@ == crate::report::lines_text(s.streamed(trials.push(t))),
{
    assert(s.streamed(trials.push(t)).drop_last() =~= s.streamed(trials));
}

/// What a whole run of several trials writes as JSON: one line for each of
/// the trials asked for, in turn, and one line at the end. No line end stands
/// inside a line.
pub proof fn law_json_run_is_a_line_per_trial(
    s: Session,
    trials: Seq<Trial>,
    sum: Summary,
    clock: Clock,
    on: bool,
) -> (lines: Seq<Seq<char>>)
    requires
        s.streams(),
        s.has_run(trials),
        s.action() is Report,
        forall|k: int|
            0 <= k < trials.len() ==> crate::report::trial_free_of(#[trigger] trials[k], '\n'),
        crate::report::summary_free_of(sum, '\n'),
        crate::report::clock_free_of(clock, '\n'),
    ensures
        s.report_text(crate::report::lines_text(s.streamed(trials)), sum, clock, on)
            == crate::report::lines_text(lines),
        lines.len() == s.opts.repeat + 1,
        forall|k: int|
            0 <= k < s.opts.repeat ==> #[trigger] lines[k] == crate::report::trial_json(
                s.opts.unit,
                k as u64,
                trials[k],
            ),
        lines.last() == crate::report::summary_json(
            s.opts,
            trials.last().result,
            crate::report::trial_values(trials),
            sum,
            clock,
        ),
        forall|k: int| 0 <= k < lines.len() ==> crate::text::free_of(#[trigger] lines[k], '\n'),
{
    crate::report::law_json_report_is_a_line_per_trial(
        s.opts,
        trials,
        trials.last().result,
        sum,
        clock,
        on,
    )
}

/// A run warms up 1000 times, to the target or to 4096 where that is less,
/// then measures the target as often as it was told to repeat, and at least
/// once, whatever it writes, and then reports.
pub proof fn law_run_measures_as_often_as_told(s: Session, trials: Seq<Trial>)
    requires
        s.has_run(trials),
    ensures
        ({
            let due: int = if s.opts.repeat >= 1 {
                s.opts.repeat as int
            } else {
                1
            };
            let warm: u64 = if s.opts.count_to < 1 {
                1
            } else if s.opts.count_to > 4096 {
                4096
            } else {
                s.opts.count_to
            };
            &&& s.warmed <= 1000
            &&& trials.len() <= due
            &&& s.warmed < 1000 ==> s.action() == Action::WarmUp(warm)
            &&& s.warmed == 1000 && trials.len() < due ==> s.action() == Action::Measure(
                s.opts.count_to,
            )
            &&& s.warmed == 1000 && trials.len() == due ==> s.action() == Action::Report
        }),
{
    crate::stats::law_warm_up_is_capped(s.opts.count_to);
}

/// The report is on the trials that were measured: on the last one where one
/// was due, and otherwise, behind the lines handed back, on all of them, with
/// what the last one counted and the times of all in turn.
pub proof fn law_report_is_on_the_trials(
    s: Session,
    trials: Seq<Trial>,
    streamed: Seq<char>,
    sum: Summary,
    clock: Clock,
    on: bool,
)
    requires
        s.has_run(trials),
        trials.len() > 0,
    ensures
        s.opts.repeat <= 1 ==> s.report_text(streamed, sum, clock, on) == crate::report::single(
            s.opts,
            trials.last(),
            clock,
            on,
        ) + "\n"@,
        s.opts.repeat > 1 ==> s.report_text(streamed, sum, clock, on) == streamed
            + crate::report::summary(
            s.opts,
            trials.last().result,
            Seq::new(trials.len(), |k: int| trials[k].value@),
            sum,
            clock,
            on,
        ) + "\n"@,
{
    crate::report::law_log_keeps_the_trials(s.log, trials);
    assert(crate::text::texts(s.log.values@) =~= Seq::new(
        trials.len(),
        |k: int| trials[k].value@,
    ));
}

/// A line is handed back for every trial where JSON is asked for and there are
/// several, and reading it back gives the number of the trial and the trial;
/// otherwise none is.
pub proof fn law_streamed_lines_read_back(s: Session, trials: Seq<Trial>, k: int)
    requires
        0 <= k < trials.len() <= u64::MAX,
        crate::reading::is_bare(trials[k].ns@),
        crate::reading::is_bare(trials[k].value@),
    ensures
        s.streams() <==> s.opts.json && s.opts.repeat > 1,
        !(s.opts.json && s.opts.repeat > 1) ==> s.streamed(trials).len() == 0,
        s.opts.json && s.opts.repeat > 1 ==> {
            &&& s.streamed(trials).len() == trials.len()
            &&& crate::reading::object_members(s.streamed(trials)[k]) == Some(
                seq![
                    crate::report::number_member("trial"@, crate::text::decimal(k as nat)),
                    crate::report::number_member(
                        "result"@,
                        crate::text::decimal(trials[k].result as nat),
                    ),
                    crate::report::number_member(
                        "cycles"@,
                        crate::text::decimal(trials[k].cycles as nat),
                    ),
                    crate::report::number_member("ns"@, trials[k].ns@),
                    crate::report::text_member("unit"@, s.opts.unit.name()),
                    crate::report::number_member("value"@, trials[k].value@),
                ],
            )
        },
{
    crate::report::law_trial_json_reads_back(s.opts.unit, k as u64, trials[k]);
}

} // verus!
