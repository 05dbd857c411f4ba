//! The scheduler of a run: the job list, the pacer that spaces its chunks,
//! and the account of what became of the jobs. The driver performs what the
//! scheduler asks for (dispatching a chunk, letting a window pass) and tells
//! it what came back.

use vstd::prelude::*;
use vstd::slice::slice_subrange;
use crate::dispatch::{any_unreachable, judge, settled, JobOutcomeView, Judgement, Submission};
use crate::job::{job_views, ScanJob};
use crate::pacer::{Action, Event, Pacer, Phase};
use crate::summary::{failed, outcome_views, succeeded, Aggregator, RunSummary};

verus! {

/// A run in progress.
pub struct Scheduler {
    jobs: Vec<ScanJob>,
    pacer: Pacer,
    account: Aggregator,
}

/// Judges the submissions of a chunk, job by job, and records every outcome
/// that settles a job. Returns whether the endpoint proved unreachable.
fn settle(chunk: &[ScanJob], submissions: &Vec<Submission>, account: &mut Aggregator) -> (fatal:
    bool)
    requires
        chunk@.len() == submissions@.len(),
        old(account).well_formed(),
        old(account).total() + chunk@.len() <= usize::MAX,
    ensures
        final(account).well_formed(),
        final(account).recorded() == old(account).recorded() + settled(
            job_views(chunk@),
            submissions@,
        ),
        final(account).total() <= old(account).total() + chunk@.len(),
        fatal == any_unreachable(submissions@),
{
    let mut fatal = false;
    let mut i: usize = 0;
    let ghost jobs = job_views(chunk@);
    proof {
        assert(settled(jobs.take(0), submissions@.take(0)) =~= Seq::<JobOutcomeView>::empty());
        assert(account.recorded() =~= old(account).recorded() + settled(
            jobs.take(0),
            submissions@.take(0),
        ));
    }
    while i < chunk.len()
        invariant
            i <= chunk@.len(),
            chunk@.len() == submissions@.len(),
            jobs == job_views(chunk@),
            account.well_formed(),
            account.total() <= old(account).total() + i,
            old(account).total() + chunk@.len() <= usize::MAX,
            account.recorded() == old(account).recorded() + settled(
                jobs.take(i as int),
                submissions@.take(i as int),
            ),
            fatal == any_unreachable(submissions@.take(i as int)),
        decreases chunk@.len() - i,
    {
        let ghost recorded = account.recorded();
        let ghost seen = submissions@.take(i as int);
        let ghost grown = submissions@.take(i + 1);
        proof {
            assert(jobs.take(i + 1).drop_last() =~= jobs.take(i as int));
            assert(submissions@.take(i + 1).drop_last() =~= seen);
            assert(jobs.take(i + 1).last() == chunk@[i as int]@);
            assert(submissions@.take(i + 1).last() == submissions@[i as int]);
        }
        match judge(&chunk[i], &submissions[i]) {
            Judgement::Settled(outcome) => {
                account.record(outcome);
                proof {
                    assert(account.recorded() =~= old(account).recorded() + settled(
                        jobs.take(i + 1),
                        submissions@.take(i + 1),
                    ));
                    if any_unreachable(grown) {
                        let w = choose|w: int| 0 <= w < grown.len() && grown[w] is Unreachable;
                        assert(seen[w] is Unreachable);
                    }
                    if any_unreachable(seen) {
                        let w = choose|w: int| 0 <= w < seen.len() && seen[w] is Unreachable;
                        assert(grown[w] is Unreachable);
                    }
                }
            },
            Judgement::Fatal { .. } => {
                fatal = true;
                proof {
                    assert(grown[i as int] is Unreachable);
                }
            },
        }
        i = i + 1;
    }
    proof {
        assert(jobs.take(i as int) =~= jobs);
        assert(submissions@.take(i as int) =~= submissions@);
    }
    fatal
}

impl Scheduler {
    /// The job list of the run.
    pub closed spec fn jobs(&self) -> Seq<ScanJob> {
        self.jobs@
    }

    /// The state of the run's pacer.
    pub closed spec fn pacer(&self) -> Pacer {
        self.pacer
    }

    /// Every outcome recorded so far, in the order of recording.
    pub closed spec fn recorded(&self) -> Seq<JobOutcomeView> {
        self.account.recorded()
    }

    /// The jobs of the window that is being dispatched: none unless running.
    pub open spec fn window(&self) -> Seq<ScanJob> {
        if self.pacer().phase == Phase::Running {
            self.jobs().subrange(self.pacer().start as int, self.pacer().window_end())
        } else {
            Seq::empty()
        }
    }

    /// The pacer runs over the job list, and every recorded outcome belongs
    /// to a job in front of the pacer's position, or, once the run is done,
    /// to a job of the list.
    pub closed spec fn well_formed(&self) -> bool {
        &&& self.pacer.well_formed()
        &&& self.pacer.len == self.jobs@.len()
        &&& self.account.well_formed()
        &&& self.account.total() <= self.jobs@.len()
        &&& self.pacer.phase != Phase::Done ==> self.account.total() <= self.pacer.start
    }

    /// What a well-formed run holds.
    pub proof fn lemma_well_formed(&self)
        requires
            self.well_formed(),
        ensures
            self.pacer().well_formed(),
            self.pacer().len == self.jobs().len(),
            self.recorded().len() <= self.jobs().len(),
            self.pacer().phase != Phase::Done ==> self.recorded().len() <= self.pacer().start,
    {
        self.account.lemma_account();
    }

    /// A run over `jobs`, at most `quota` of them per pacing window. With no
    /// jobs, or with a quota of zero, the run is done at once.
    pub fn new(jobs: Vec<ScanJob>, quota: usize) -> (run: Scheduler)
        ensures
            run.well_formed(),
            run.jobs() == jobs@,
            run.pacer() == Pacer::initial(jobs@.len() as usize, quota),
            run.recorded() == Seq::<JobOutcomeView>::empty(),
    {
        let pacer = Pacer::new(jobs.len(), quota);
        let account = Aggregator::new();
        proof {
            account.lemma_account();
        }
        Scheduler { jobs, pacer, account }
    }

    /// The state of the pacer.
    pub fn state(&self) -> (pacer: Pacer)
        ensures
            pacer == self.pacer(),
    {
        self.pacer
    }

    /// What the driver is to do next.
    pub fn action(&self) -> (action: Action)
        requires
            self.well_formed(),
        ensures
            action == self.pacer().action(),
            action matches Action::Dispatch { start, end } ==> start < end <= self.jobs().len()
                && end - start <= self.pacer().quota,
    {
        self.pacer.next_action()
    }

    /// The jobs to dispatch now: those of the current window while running,
    /// none otherwise.
    pub fn chunk(&self) -> (chunk: &[ScanJob])
        requires
            self.well_formed(),
        ensures
            chunk@ == self.window(),
    {
        match self.pacer.next_action() {
            Action::Dispatch { start, end } => slice_subrange(self.jobs.as_slice(), start, end),
            _ => slice_subrange(self.jobs.as_slice(), 0, 0),
        }
    }

    /// Takes what came back for the jobs of the current chunk, one submission
    /// per job in the chunk's order, once all of them have settled. Every
    /// outcome is recorded; the run ends if the endpoint proved unreachable
    /// or the chunk was the last, and waits otherwise. Returns what to do
    /// next, or `None`, with nothing changed, where no chunk is being
    /// dispatched or the submissions are not one per job.
    pub fn chunk_settled(&mut self, submissions: &Vec<Submission>) -> (next: Option<Action>)
        requires
            old(self).well_formed(),
        ensures
            final(self).well_formed(),
            final(self).jobs() == old(self).jobs(),
            next is Some <==> old(self).pacer().phase == Phase::Running && submissions@.len()
                == old(self).window().len(),
            next is None ==> final(self).pacer() == old(self).pacer() && final(self).recorded()
                == old(self).recorded(),
            next matches Some(action) ==> {
                &&& final(self).recorded() == old(self).recorded() + settled(
                    job_views(old(self).window()),
                    submissions@,
                )
                &&& final(self).pacer() == old(self).pacer().after(
                    Event::ChunkSettled { fatal: any_unreachable(submissions@) },
                )
                &&& action == final(self).pacer().action()
            },
    {
        let (start, end) = match self.pacer.next_action() {
            Action::Dispatch { start, end } => (start, end),
            _ => return None,
        };
        if submissions.len() != end - start {
            return None;
        }
        proof {
            self.account.lemma_account();
        }
        let chunk = slice_subrange(self.jobs.as_slice(), start, end);
        let fatal = settle(chunk, submissions, &mut self.account);
        let action = self.pacer.step(Event::ChunkSettled { fatal });
        Some(action)
    }

    /// Takes the end of a pacing window: the next chunk begins. Where the run
    /// is not waiting, nothing changes. Returns what to do next.
    pub fn wait_elapsed(&mut self) -> (action: Action)
        requires
            old(self).well_formed(),
        ensures
            final(self).well_formed(),
            final(self).jobs() == old(self).jobs(),
            final(self).recorded() == old(self).recorded(),
            final(self).pacer() == old(self).pacer().after(Event::WaitElapsed),
            action == final(self).pacer().action(),
    {
        self.pacer.step(Event::WaitElapsed)
    }

    /// The summary of the run so far: the jobs settled, the successes among
    /// them, and the failures.
    pub fn finish(self) -> (summary: RunSummary)
        requires
            self.well_formed(),
        ensures
            summary.total == self.recorded().len(),
            summary.succeeded == summary.total - summary.failures@.len(),
            summary.succeeded == self.recorded().filter(succeeded()).len(),
            outcome_views(summary.failures@) == self.recorded().filter(failed()),
    {
        proof {
            self.account.lemma_account();
        }
        self.account.finalize()
    }
}

/// A run with a quota of zero, or without jobs, is done from the start: it
/// asks for no dispatch and for no wait, and its summary counts no job.
pub proof fn lemma_nothing_to_run(run: Scheduler, len: usize, quota: usize)
    requires
        run.pacer() == Pacer::initial(len, quota),
        run.recorded() == Seq::<JobOutcomeView>::empty(),
        quota == 0 || len == 0,
    ensures
        run.pacer().phase == Phase::Done,
        run.pacer().action() == Action::Finish,
        !run.pacer().aborted,
        run.recorded().len() == 0,
{
}

} // verus!
