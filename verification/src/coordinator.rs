//! The concurrency coordinator, as a state machine: it says when the next
//! partition may start, when the caller has to wait for one to finish, and
//! when all are done. The caller runs the tasks and reports each one's end.

use crate::stats::{wrapped_sum, Statistics};
use vstd::prelude::*;

verus! {

/// What the caller does next.
#[derive(Clone, Copy, Debug, PartialEq, Eq, Structural)]
pub enum Move {
    /// Start the partition with this place in the plan.
    Start(usize),
    /// Every slot is taken, or every partition is started: wait until one
    /// that runs has finished, and report it.
    Wait,
    /// Every partition has finished.
    Done,
}

/// How a partition ended.
#[derive(Clone, Copy, Debug, PartialEq, Eq, Structural)]
pub enum Outcome {
    /// Left out: an earlier run had fetched it.
    Skipped,
    /// Fetched to its end.
    Fetched,
    /// Given up after a request failed for good.
    Failed,
}

/// The state of a run over the partitions of a plan.
#[derive(Clone, Copy, Debug, PartialEq, Eq, Structural)]
pub struct Coordinator {
    /// How many partitions may run at once.
    pub limit: usize,
    /// How many partitions the plan has.
    pub total: usize,
    /// How many were started; they start in the order of the plan.
    pub started: usize,
    /// How many have finished, failed ones included.
    pub finished: usize,
    /// How many have failed.
    pub failed: usize,
}

impl Coordinator {
    /// The partitions that run now.
    pub open spec fn running(self) -> int {
        self.started - self.finished
    }

    /// The invariant of a run: there is a slot, no more partitions run than
    /// there are slots, none finishes before it starts, and only finished
    /// ones have failed.
    pub open spec fn wf(self) -> bool {
        &&& self.limit >= 1
        &&& self.failed <= self.finished <= self.started <= self.total
        &&& self.running() <= self.limit
    }

    /// The move that the state calls for.
    pub open spec fn spec_next(self) -> Move {
        if self.started < self.total && self.running() < self.limit {
            Move::Start(self.started)
        } else if self.finished < self.started {
            Move::Wait
        } else {
            Move::Done
        }
    }

    /// How many moves and reports are still to come at most.
    pub open spec fn work_left(self) -> int {
        (self.total - self.started) + (self.total - self.finished)
    }

    /// A run over `total` partitions with `limit` slots.
    pub fn new(total: usize, limit: usize) -> (fresh: Coordinator)
        requires
            limit >= 1,
        ensures
            fresh.wf(),
            fresh == (Coordinator { limit, total, started: 0, finished: 0, failed: 0 }),
    {
        Coordinator { limit, total, started: 0, finished: 0, failed: 0 }
    }

    /// Says what to do next. A partition is started only into a free slot,
    /// and the run is done only when every partition has finished.
    pub fn next_move(&mut self) -> (next: Move)
        requires
            old(self).wf(),
        ensures
            final(self).wf(),
            next == old(self).spec_next(),
            *final(self) == (if next is Start {
                Coordinator { started: (old(self).started + 1) as usize, ..*old(self) }
            } else {
                *old(self)
            }),
            next is Done <==> old(self).finished == old(self).total,
    {
        if self.started < self.total && self.started - self.finished < self.limit {
            let place = self.started;
            self.started = self.started + 1;
            Move::Start(place)
        } else if self.finished < self.started {
            Move::Wait
        } else {
            Move::Done
        }
    }

    /// Reports that a running partition has ended: its slot is free again,
    /// and a failure is counted. Nothing else changes, whatever the outcome.
    pub fn complete(&mut self, outcome: Outcome)
        requires
            old(self).wf(),
            old(self).running() > 0,
        ensures
            final(self).wf(),
            *final(self) == (Coordinator {
                finished: (old(self).finished + 1) as usize,
                failed: if outcome == Outcome::Failed {
                    (old(self).failed + 1) as usize
                } else {
                    old(self).failed
                },
                ..*old(self)
            }),
    {
        self.finished = self.finished + 1;
        if outcome == Outcome::Failed {
            self.failed = self.failed + 1;
        }
    }
}

/// Counts the end of a partition into the run's statistics: a partition that
/// was skipped or fetched is completed, a failed one is one more error.
pub fn settle_partition(stats: &mut Statistics, outcome: Outcome)
    ensures
        *final(stats) == (match outcome {
            Outcome::Failed => Statistics {
                total_errors: wrapped_sum(old(stats).total_errors, 1) as usize,
                ..*old(stats)
            },
            _ => Statistics {
                completed_days: wrapped_sum(old(stats).completed_days, 1) as usize,
                ..*old(stats)
            },
        }),
{
    match outcome {
        Outcome::Failed => stats.add_errors(1),
        _ => stats.increment_completed(),
    }
}

/// A run always ends: every start and every report leaves less work, a wait
/// is only called for while a partition runs, and the work is never less than
/// none.
pub proof fn lemma_run_progress(state: Coordinator)
    requires
        state.wf(),
    ensures
        state.work_left() >= 0,
        state.spec_next() is Start ==> (Coordinator {
            started: (state.started + 1) as usize,
            ..state
        }).work_left() < state.work_left(),
        state.spec_next() is Wait ==> state.running() > 0,
        state.running() > 0 ==> (Coordinator {
            finished: (state.finished + 1) as usize,
            ..state
        }).work_left() < state.work_left(),
        state.spec_next() is Done <==> state.finished == state.total,
{
}

/// A failure of one partition stops no other: whether the partition that
/// ended had failed or not, the move that follows is the same.
pub proof fn lemma_failure_is_isolated(state: Coordinator)
    requires
        state.wf(),
        state.running() > 0,
    ensures
        ({
            let done = Coordinator { finished: (state.finished + 1) as usize, ..state };
            let failed = Coordinator { failed: (state.failed + 1) as usize, ..done };
            failed.spec_next() == done.spec_next() && failed.wf() && done.wf()
        }),
{
}

} // verus!
