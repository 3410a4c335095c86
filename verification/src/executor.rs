//! The rules by which download tasks are admitted and the run is ended: a
//! bounded number at a time, in order, and none after the first failure.

use vstd::prelude::*;

verus! {

/// What the driver of the tasks has to do next.
#[derive(Clone, Copy, Debug, PartialEq, Eq)]
pub enum Step {
    /// Take the next task of the sequence and start it, or report that the
    /// sequence has ended.
    Admit,
    /// Wait until one of the running tasks has settled, and report it.
    Wait,
    /// Nothing runs and nothing will be started: the run is over.
    Finished,
}

/// How a run ended.
#[derive(Clone, Copy, Debug, PartialEq, Eq)]
pub enum Outcome {
    /// Every admitted task succeeded.
    Succeeded,
    /// The task with this number, counted from zero in the order of
    /// admission, was the first that was reported as failed.
    Failed { task: usize },
}

/// The state of a run.
#[derive(Clone, Copy, Debug, PartialEq, Eq)]
pub struct Executor {
    /// The number of tasks that may run at a time.
    pub limit: usize,
    /// The number of tasks that are running.
    pub running: usize,
    /// The number of tasks that were started.
    pub admitted: usize,
    /// Whether the sequence of tasks has ended.
    pub exhausted: bool,
    /// The first task that was reported as failed.
    pub failure: Option<usize>,
}

impl Executor {
    /// The state is sound: the limit is at least one, no more tasks run than
    /// it allows, and no more run than were started.
    pub open spec fn wf(self) -> bool {
        &&& self.limit >= 1
        &&& self.running <= self.limit
        &&& self.running <= self.admitted
    }

    /// What is to be done next: a task is admitted while a slot is free,
    /// nothing has failed and the sequence has not ended; else the running
    /// tasks are waited for; and when none is left the run is over.
    pub open spec fn step(self) -> Step {
        if self.failure is None && !self.exhausted && self.running < self.limit {
            Step::Admit
        } else if self.running > 0 {
            Step::Wait
        } else {
            Step::Finished
        }
    }

    /// The state after a task was reported as settled.
    pub open spec fn settled(self, task: usize, ok: bool) -> Executor {
        Executor {
            running: if self.running > 0 {
                (self.running - 1) as usize
            } else {
                0
            },
            failure: if self.failure is None && !ok {
                Some(task)
            } else {
                self.failure
            },
            ..self
        }
    }

    /// A run that has started nothing yet, with room for `parallel` tasks at
    /// a time, and for one where `parallel` is zero.
    pub fn new(parallel: usize) -> (r: Executor)
        ensures
            r.wf(),
            r == (Executor {
                limit: if parallel >= 1 {
                    parallel
                } else {
                    1
                },
                running: 0,
                admitted: 0,
                exhausted: false,
                failure: None,
            }),
    {
        Executor {
            limit: if parallel >= 1 {
                parallel
            } else {
                1
            },
            running: 0,
            admitted: 0,
            exhausted: false,
            failure: None,
        }
    }

    /// What the driver has to do next.
    pub fn next_step(&self) -> (r: Step)
        ensures
            r == self.step(),
    {
        if self.failure.is_none() && !self.exhausted && self.running < self.limit {
            Step::Admit
        } else if self.running > 0 {
            Step::Wait
        } else {
            Step::Finished
        }
    }

    /// Records that the next task of the sequence was started, if one may be:
    /// returns its number, or nothing where no task may be started now, in
    /// which case nothing changes.
    pub fn start_next(&mut self) -> (r: Option<usize>)
        requires
            old(self).wf(),
            old(self).admitted < usize::MAX,
        ensures
            final(self).wf(),
            old(self).step() == Step::Admit ==> r == Some(old(self).admitted) && *final(self) == (
            Executor {
                running: (old(self).running + 1) as usize,
                admitted: (old(self).admitted + 1) as usize,
                ..*old(self)
            }),
            old(self).step() != Step::Admit ==> r is None && *final(self) == *old(self),
    {
        match self.next_step() {
            Step::Admit => {
                let task = self.admitted;
                self.running = self.running + 1;
                self.admitted = self.admitted + 1;
                Some(task)
            },
            _ => None,
        }
    }

    /// Records that the sequence of tasks has ended.
    pub fn exhaust(&mut self)
        requires
            old(self).wf(),
        ensures
            final(self).wf(),
            *final(self) == (Executor { exhausted: true, ..*old(self) }),
    {
        self.exhausted = true;
    }

    /// Records that a running task has settled, with success or not. The
    /// first failure that is reported is kept.
    pub fn settle(&mut self, task: usize, ok: bool)
        requires
            old(self).wf(),
        ensures
            final(self).wf(),
            *final(self) == old(self).settled(task, ok),
    {
        if self.running > 0 {
            self.running = self.running - 1;
        }
        if self.failure.is_none() && !ok {
            self.failure = Some(task);
        }
    }

    /// How the run ended, once it is over: nothing while a task runs or may
    /// still be started.
    pub fn outcome(&self) -> (r: Option<Outcome>)
        ensures
            self.step() != Step::Finished ==> r is None,
            self.step() == Step::Finished ==> r == Some(
                match self.failure {
                    Some(task) => Outcome::Failed { task },
                    None => Outcome::Succeeded,
                },
            ),
    {
        match self.next_step() {
            Step::Finished => match self.failure {
                Some(task) => Some(Outcome::Failed { task }),
                None => Some(Outcome::Succeeded),
            },
            _ => None,
        }
    }
}

/// Once a task has failed, no further task is admitted, whatever is
/// reported afterwards.
pub proof fn lemma_no_admission_after_failure(state: Executor, task: usize, ok: bool)
    requires
        state.failure is Some,
    ensures
        state.step() != Step::Admit,
        state.settled(task, ok).failure == state.failure,
        state.settled(task, ok).step() != Step::Admit,
{
}

/// A task is admitted only into a free slot, and the run is over only when
/// nothing is running.
pub proof fn lemma_bounded(state: Executor)
    requires
        state.wf(),
    ensures
        state.step() == Step::Admit ==> state.running < state.limit,
        state.step() == Step::Finished ==> state.running == 0,
{
}

} // verus!
