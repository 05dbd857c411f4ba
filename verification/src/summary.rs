//! The summary aggregator: counts the outcomes of a run and keeps its
//! failures, in the order in which they were recorded.

use vstd::prelude::*;
use crate::dispatch::{JobOutcome, JobOutcomeView};

verus! {

/// The views of a sequence of outcomes.
pub open spec fn outcome_views(outcomes: Seq<JobOutcome>) -> Seq<JobOutcomeView> {
    outcomes.map_values(|o: JobOutcome| o@)
}

/// The test "is a failure".
pub open spec fn failed() -> spec_fn(JobOutcomeView) -> bool {
    |o: JobOutcomeView| !o.success
}

/// The test "is a success".
pub open spec fn succeeded() -> spec_fn(JobOutcomeView) -> bool {
    |o: JobOutcomeView| o.success
}

/// The report of a run: how many jobs were settled, how many of them
/// succeeded, and the failures with their error details.
#[derive(Clone, Debug, PartialEq, Eq)]
pub struct RunSummary {
    pub total: usize,
    pub succeeded: usize,
    pub failures: Vec<JobOutcome>,
}

/// The running account of a run's outcomes. Successes are counted and not
/// kept; failures are kept.
pub struct Aggregator {
    total: usize,
    failures: Vec<JobOutcome>,
    recorded: Ghost<Seq<JobOutcomeView>>,
}

/// An outcome is a success or a failure, so the two kinds add up.
pub proof fn lemma_successes_and_failures(outcomes: Seq<JobOutcomeView>)
    ensures
        outcomes.filter(succeeded()).len() + outcomes.filter(failed()).len() == outcomes.len(),
    decreases outcomes.len(),
{
    reveal_with_fuel(Seq::filter, 1);
    if outcomes.len() > 0 {
        let init = outcomes.drop_last();
        lemma_successes_and_failures(init);
        init.lemma_filter_push(outcomes.last(), succeeded());
        init.lemma_filter_push(outcomes.last(), failed());
        assert(init.push(outcomes.last()) =~= outcomes);
    }
}

impl Aggregator {
    /// Every outcome recorded so far, in the order of recording.
    pub closed spec fn recorded(&self) -> Seq<JobOutcomeView> {
        self.recorded@
    }

    /// The failures kept so far.
    pub closed spec fn failures(&self) -> Seq<JobOutcomeView> {
        outcome_views(self.failures@)
    }

    /// The number of outcomes recorded so far.
    pub closed spec fn total(&self) -> nat {
        self.total as nat
    }

    /// The count is that of the recorded outcomes, and the failures kept are
    /// the recorded failures, in order.
    pub closed spec fn well_formed(&self) -> bool {
        &&& self.total == self.recorded@.len()
        &&& outcome_views(self.failures@) == self.recorded@.filter(failed())
    }

    /// What a well-formed account holds.
    pub proof fn lemma_account(&self)
        requires
            self.well_formed(),
        ensures
            self.total() == self.recorded().len(),
            self.failures() == self.recorded().filter(failed()),
            self.failures().len() <= self.total(),
    {
        self.recorded@.lemma_filter_len(failed());
    }

    /// An account with nothing recorded.
    pub fn new() -> (account: Aggregator)
        ensures
            account.well_formed(),
            account.recorded() == Seq::<JobOutcomeView>::empty(),
    {
        let account = Aggregator { total: 0, failures: Vec::new(), recorded: Ghost(Seq::empty()) };
        proof {
            reveal_with_fuel(Seq::filter, 1);
            assert(outcome_views(account.failures@) =~= Seq::<JobOutcomeView>::empty());
            assert(account.recorded@.filter(failed()) =~= Seq::<JobOutcomeView>::empty());
        }
        account
    }

    /// How many outcomes were recorded.
    pub fn count(&self) -> (n: usize)
        ensures
            n == self.total(),
    {
        self.total
    }

    /// Whether one more outcome can be counted.
    pub fn has_room(&self) -> (room: bool)
        ensures
            room == (self.total() < usize::MAX),
    {
        self.total < usize::MAX
    }

    /// Records one outcome: counts it, and keeps it if it is a failure.
    pub fn record(&mut self, outcome: JobOutcome)
        requires
            old(self).well_formed(),
            old(self).total() < usize::MAX,
        ensures
            final(self).well_formed(),
            final(self).recorded() == old(self).recorded().push(outcome@),
            final(self).total() == old(self).total() + 1,
            final(self).failures() == (if outcome.success {
                old(self).failures()
            } else {
                old(self).failures().push(outcome@)
            }),
    {
        let ghost before = self.recorded@;
        let ghost kept = self.failures@;
        proof {
            before.lemma_filter_push(outcome@, failed());
        }
        self.total = self.total + 1;
        self.recorded = Ghost(before.push(outcome@));
        if !outcome.success {
            self.failures.push(outcome);
            proof {
                assert(outcome_views(self.failures@) =~= outcome_views(kept).push(outcome@));
            }
        }
    }

    /// Closes the account: the total, the number of successes (the total
    /// less the failures), and the failures.
    pub fn finalize(self) -> (summary: RunSummary)
        requires
            self.well_formed(),
        ensures
            summary.total == self.total(),
            summary.succeeded == summary.total - summary.failures@.len(),
            summary.succeeded == self.recorded().filter(succeeded()).len(),
            outcome_views(summary.failures@) == self.failures(),
            outcome_views(summary.failures@) == self.recorded().filter(failed()),
    {
        proof {
            lemma_successes_and_failures(self.recorded@);
        }
        let succeeded: usize = self.total - self.failures.len();
        RunSummary { total: self.total, succeeded, failures: self.failures }
    }
}

} // verus!
