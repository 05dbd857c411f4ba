//! The pacer: the state machine that spaces the chunks of a run. One chunk
//! is dispatched per pacing window; between two chunks the run waits; after
//! the last chunk, or on a fatal condition, it is done.

use vstd::prelude::*;
use crate::partition::{chunk_count, chunk_end, chunk_start, lemma_chunk_bounds, lemma_count_brackets};

verus! {

/// Where a run stands.
#[derive(Clone, Copy, Debug, PartialEq, Eq, Structural)]
pub enum Phase {
    /// The current chunk is being dispatched.
    Running,
    /// The pacing window of the chunk before is running out.
    Waiting,
    /// Nothing is left to do.
    Done,
}

/// What happened outside.
#[derive(Clone, Copy, Debug, PartialEq, Eq, Structural)]
pub enum Event {
    /// Every job of the current chunk has settled; `fatal` tells whether the
    /// scan endpoint proved unreachable meanwhile.
    ChunkSettled { fatal: bool },
    /// The pacing window has run out.
    WaitElapsed,
}

/// What is to be done outside next.
#[derive(Clone, Copy, Debug, PartialEq, Eq, Structural)]
pub enum Action {
    /// Dispatch the jobs from `start` up to, not including, `end`.
    Dispatch { start: usize, end: usize },
    /// Let one pacing window pass.
    Wait,
    /// Report the summary and stop.
    Finish,
}

/// The state of a run over `len` jobs, at most `quota` of them per window.
#[derive(Clone, Copy, Debug, PartialEq, Eq, Structural)]
pub struct Pacer {
    pub len: usize,
    pub quota: usize,
    /// Index of the first job not yet settled.
    pub start: usize,
    pub phase: Phase,
    /// Whether the run was ended by a fatal condition.
    pub aborted: bool,
}

impl Pacer {
    /// Index one past the last job of the window that begins at `start`.
    pub open spec fn window_end(self) -> int {
        if self.len - self.start <= self.quota {
            self.len as int
        } else {
            self.start + self.quota
        }
    }

    /// The state at the beginning of a run: running, unless there is nothing
    /// to dispatch.
    pub open spec fn initial(len: usize, quota: usize) -> Pacer {
        Pacer {
            len,
            quota,
            start: 0,
            phase: if quota == 0 || len == 0 {
                Phase::Done
            } else {
                Phase::Running
            },
            aborted: false,
        }
    }

    /// What is to be done in this state.
    pub open spec fn action(self) -> Action {
        match self.phase {
            Phase::Running => Action::Dispatch {
                start: self.start,
                end: self.window_end() as usize,
            },
            Phase::Waiting => Action::Wait,
            Phase::Done => Action::Finish,
        }
    }

    /// The state after an event. A settled chunk ends the run if the endpoint
    /// proved unreachable or if the chunk reached the end of the job list,
    /// and otherwise begins a wait; the end of a wait begins the next chunk.
    /// An event that the state does not await changes nothing.
    pub open spec fn after(self, event: Event) -> Pacer {
        match (self.phase, event) {
            (Phase::Running, Event::ChunkSettled { fatal }) => if fatal {
                Pacer { phase: Phase::Done, aborted: true, ..self }
            } else if self.window_end() >= self.len {
                Pacer { phase: Phase::Done, start: self.window_end() as usize, ..self }
            } else {
                Pacer { phase: Phase::Waiting, start: self.window_end() as usize, ..self }
            },
            (Phase::Waiting, Event::WaitElapsed) => Pacer { phase: Phase::Running, ..self },
            _ => self,
        }
    }

    /// The state is one that a run can be in: before the end there is a
    /// positive quota and a job left, and the next job begins a chunk.
    pub open spec fn well_formed(self) -> bool {
        &&& self.start <= self.len
        &&& self.phase != Phase::Done ==> self.quota >= 1 && self.start < self.len
        &&& self.phase == Phase::Done && !self.aborted ==> self.start == self.len || self.quota == 0
        &&& self.phase != Phase::Done ==> exists|k: nat|
            k < chunk_count(self.len as nat, self.quota as nat) && self.start == #[trigger] chunk_start(
                self.quota as nat,
                k,
            )
    }

    /// The pacer of a new run.
    pub fn new(len: usize, quota: usize) -> (pacer: Pacer)
        ensures
            pacer == Pacer::initial(len, quota),
            pacer.well_formed(),
    {
        let phase = if quota == 0 || len == 0 {
            Phase::Done
        } else {
            Phase::Running
        };
        let pacer = Pacer { len, quota, start: 0, phase, aborted: false };
        proof {
            if quota >= 1 && len >= 1 {
                lemma_count_brackets(len as nat, quota as nat);
                let first: nat = 0;
                assert(0 * quota == 0) by (nonlinear_arith);
                assert(first < chunk_count(len as nat, quota as nat) && pacer.start == chunk_start(
                    quota as nat,
                    first,
                ));
            }
        }
        pacer
    }

    /// What is to be done next.
    pub fn next_action(&self) -> (action: Action)
        requires
            self.well_formed(),
        ensures
            action == self.action(),
            action matches Action::Dispatch { start, end } ==> start < end <= self.len && end
                - start <= self.quota,
    {
        match self.phase {
            Phase::Running => {
                let end: usize = if self.len - self.start <= self.quota {
                    self.len
                } else {
                    self.start + self.quota
                };
                Action::Dispatch { start: self.start, end }
            },
            Phase::Waiting => Action::Wait,
            Phase::Done => Action::Finish,
        }
    }

    /// Takes an event and says what is to be done next.
    pub fn step(&mut self, event: Event) -> (action: Action)
        requires
            old(self).well_formed(),
        ensures
            *final(self) == old(self).after(event),
            final(self).well_formed(),
            action == final(self).action(),
    {
        match (self.phase, event) {
            (Phase::Running, Event::ChunkSettled { fatal }) => {
                if fatal {
                    self.phase = Phase::Done;
                    self.aborted = true;
                } else {
                    let end: usize = if self.len - self.start <= self.quota {
                        self.len
                    } else {
                        self.start + self.quota
                    };
                    proof {
                        lemma_window_is_chunk(*old(self));
                    }
                    self.start = end;
                    if end >= self.len {
                        self.phase = Phase::Done;
                    } else {
                        self.phase = Phase::Waiting;
                    }
                }
            },
            (Phase::Waiting, Event::WaitElapsed) => {
                self.phase = Phase::Running;
            },
            _ => {},
        }
        self.next_action()
    }
}

/// The window of a well-formed pacer that is not done is a chunk of the
/// partition, and where it does not reach the end of the list, the next
/// chunk begins where it ends.
pub proof fn lemma_window_is_chunk(pacer: Pacer)
    requires
        pacer.well_formed(),
        pacer.phase != Phase::Done,
    ensures
        exists|k: nat|
            k < chunk_count(pacer.len as nat, pacer.quota as nat) && pacer.start == chunk_start(
                pacer.quota as nat,
                k,
            ) && pacer.window_end() == #[trigger] chunk_end(
                pacer.len as nat,
                pacer.quota as nat,
                k,
            ) && (pacer.window_end() < pacer.len ==> k + 1 < chunk_count(
                pacer.len as nat,
                pacer.quota as nat,
            ) && pacer.window_end() == chunk_start(pacer.quota as nat, k + 1)),
{
    let len = pacer.len as nat;
    let quota = pacer.quota as nat;
    let k = choose|k: nat| k < chunk_count(len, quota) && pacer.start == #[trigger] chunk_start(quota, k);
    lemma_chunk_bounds(len, quota, k);
    assert((k + 1) * quota == k * quota + quota) by (nonlinear_arith);
    assert(pacer.window_end() == chunk_end(len, quota, k));
}

/// Events keep a well-formed pacer well formed.
pub proof fn lemma_after_keeps_well_formed(pacer: Pacer, event: Event)
    requires
        pacer.well_formed(),
    ensures
        pacer.after(event).well_formed(),
{
    if pacer.phase != Phase::Done {
        lemma_window_is_chunk(pacer);
        let next = pacer.after(event);
        if next.phase != Phase::Done && next.start != pacer.start {
            let k = choose|k: nat|
                k < chunk_count(pacer.len as nat, pacer.quota as nat) && pacer.start == chunk_start(
                    pacer.quota as nat,
                    k,
                ) && pacer.window_end() == #[trigger] chunk_end(
                    pacer.len as nat,
                    pacer.quota as nat,
                    k,
                ) && (pacer.window_end() < pacer.len ==> k + 1 < chunk_count(
                    pacer.len as nat,
                    pacer.quota as nat,
                ) && pacer.window_end() == chunk_start(pacer.quota as nat, k + 1));
            assert(next.start == chunk_start(next.quota as nat, k + 1));
        }
    }
}

/// What the driver is asked to do, one action after the other, from `pacer`
/// on, in a run in which the scan endpoint stays reachable.
pub open spec fn actions_from(pacer: Pacer) -> Seq<Action>
    decreases pacer.len - pacer.start, (if pacer.phase == Phase::Waiting { 1int } else { 0int }),
    when pacer.well_formed()
{
    match pacer.phase {
        Phase::Done => seq![Action::Finish],
        Phase::Running => seq![pacer.action()] + actions_from(
            pacer.after(Event::ChunkSettled { fatal: false }),
        ),
        Phase::Waiting => seq![Action::Wait] + actions_from(pacer.after(Event::WaitElapsed)),
    }
}

/// In `actions`, the action at place `2 * i` is the dispatch of chunk `k` of
/// the partition, and the action behind it is a wait, or the finish where
/// the chunk is the last.
pub open spec fn chunk_turn(actions: Seq<Action>, i: int, len: nat, quota: nat, k: nat) -> bool {
    &&& actions[2 * i] matches Action::Dispatch { start, end } && start == chunk_start(quota, k)
        && end == chunk_end(len, quota, k)
    &&& actions[2 * i + 1] == if k + 1 < chunk_count(len, quota) {
        Action::Wait
    } else {
        Action::Finish
    }
}

/// From the beginning of chunk `k` on, a run in which the endpoint stays
/// reachable dispatches the chunks `k`, `k + 1`, ... of the partition, each
/// once and in order, waits between every two of them, and finishes after
/// the last.
pub proof fn lemma_run_dispatches_chunks_in_order(pacer: Pacer, k: nat)
    requires
        pacer.well_formed(),
        pacer.phase == Phase::Running,
        k < chunk_count(pacer.len as nat, pacer.quota as nat),
        pacer.start == chunk_start(pacer.quota as nat, k),
    ensures
        actions_from(pacer).len() == 2 * (chunk_count(pacer.len as nat, pacer.quota as nat) - k),
        forall|i: int|
            0 <= i < chunk_count(pacer.len as nat, pacer.quota as nat) - k ==> #[trigger] chunk_turn(
                actions_from(pacer),
                i,
                pacer.len as nat,
                pacer.quota as nat,
                (k + i) as nat,
            ),
    decreases chunk_count(pacer.len as nat, pacer.quota as nat) - k,
{
    let len = pacer.len as nat;
    let quota = pacer.quota as nat;
    let count = chunk_count(len, quota);
    lemma_chunk_bounds(len, quota, k);
    assert((k + 1) * quota == k * quota + quota) by (nonlinear_arith);
    assert(pacer.window_end() == chunk_end(len, quota, k));
    let settled = pacer.after(Event::ChunkSettled { fatal: false });
    lemma_after_keeps_well_formed(pacer, Event::ChunkSettled { fatal: false });
    let trace = actions_from(pacer);
    assert(trace == seq![pacer.action()] + actions_from(settled));
    if k + 1 == count {
        assert(settled.phase == Phase::Done);
        assert(actions_from(settled) == seq![Action::Finish]);
        assert(trace.len() == 2);
        assert forall|i: int| 0 <= i < count - k implies #[trigger] chunk_turn(
            trace,
            i,
            len,
            quota,
            (k + i) as nat,
        ) by {
            assert(i == 0);
        }
    } else {
        lemma_chunk_bounds(len, quota, k + 1);
        assert(settled.phase == Phase::Waiting);
        let resumed = settled.after(Event::WaitElapsed);
        lemma_after_keeps_well_formed(settled, Event::WaitElapsed);
        assert(actions_from(settled) == seq![Action::Wait] + actions_from(resumed));
        assert(resumed.start == chunk_start(quota, k + 1));
        lemma_run_dispatches_chunks_in_order(resumed, k + 1);
        let rest = actions_from(resumed);
        assert(trace =~= seq![pacer.action(), Action::Wait] + rest);
        assert forall|i: int| 0 <= i < count - k implies #[trigger] chunk_turn(
            trace,
            i,
            len,
            quota,
            (k + i) as nat,
        ) by {
            if i > 0 {
                let j = i - 1;
                assert(chunk_turn(rest, j, len, quota, (k + 1 + j) as nat));
                assert(trace[2 * i] == rest[2 * j]);
                assert(trace[2 * i + 1] == rest[2 * j + 1]);
                assert((k + 1 + j) as nat == (k + i) as nat);
            }
        }
    }
}

/// A whole run in which the endpoint stays reachable: with no jobs or a
/// quota of zero it finishes at once, without a dispatch and without a wait;
/// otherwise it dispatches every chunk of the partition once, in order, with
/// one wait fewer than there are chunks.
pub proof fn lemma_whole_run(len: usize, quota: usize)
    ensures
        (quota == 0 || len == 0) ==> Pacer::initial(len, quota).phase == Phase::Done
            && !Pacer::initial(len, quota).aborted && actions_from(Pacer::initial(len, quota))
            == seq![Action::Finish],
        quota >= 1 && len >= 1 ==> actions_from(Pacer::initial(len, quota)).len() == 2
            * chunk_count(len as nat, quota as nat),
        quota >= 1 && len >= 1 ==> forall|i: int|
            0 <= i < chunk_count(len as nat, quota as nat) ==> #[trigger] chunk_turn(
                actions_from(Pacer::initial(len, quota)),
                i,
                len as nat,
                quota as nat,
                i as nat,
            ),
{
    let pacer = Pacer::initial(len, quota);
    if quota >= 1 && len >= 1 {
        lemma_count_brackets(len as nat, quota as nat);
        let first: nat = 0;
        assert(0 * quota == 0) by (nonlinear_arith);
        assert(first < chunk_count(pacer.len as nat, pacer.quota as nat) && pacer.start
            == chunk_start(pacer.quota as nat, first));
        assert(pacer.well_formed());
        lemma_run_dispatches_chunks_in_order(pacer, 0);
        assert forall|i: int|
            0 <= i < chunk_count(len as nat, quota as nat) implies #[trigger] chunk_turn(
            actions_from(pacer),
            i,
            len as nat,
            quota as nat,
            i as nat,
        ) by {
            assert(chunk_turn(actions_from(pacer), i, len as nat, quota as nat, (0 + i) as nat));
        }
    } else {
        assert(pacer.phase == Phase::Done);
        assert(pacer.well_formed());
    }
}

} // verus!
