//! The compilation scheduler's policy, as a state machine.
//!
//! Work is dispatched to a pool of `workers` concurrent slots, one task per
//! slot. The first failure stops further dispatch — tasks already running
//! are left to finish — and the run as a whole fails exactly when some task
//! failed. The caller owns the threads; this type owns the decisions.

use vstd::prelude::*;

verus! {

/// Scheduling state for one batch of `total` tasks.
pub struct Scheduler {
    pub total: usize,
    pub next: usize,
    pub running: usize,
    pub failures: usize,
    pub finished: usize,
    pub workers: usize,
}

impl Scheduler {
    /// Structural invariant over the counters.
    pub open spec fn wf(&self) -> bool {
        &&& self.workers >= 1
        &&& self.next <= self.total
        &&& self.running <= self.workers
        &&& self.finished + self.running == self.next
        &&& self.failures <= self.finished
    }

    /// A fresh batch: nothing dispatched, nothing failed.
    pub fn new(total: usize, workers: usize) -> (r: Scheduler)
        requires
            workers >= 1,
        ensures
            r.wf(),
            r.total == total,
            r.next == 0,
            r.running == 0,
            r.failures == 0,
            r.finished == 0,
            r.workers == workers,
    {
        Scheduler { total, next: 0, running: 0, failures: 0, finished: 0, workers }
    }

    /// Whether another task may be dispatched now: a slot is free, work
    /// remains, and no failure has been observed.
    pub fn can_dispatch(&self) -> (r: bool)
        ensures
            r == (self.running < self.workers && self.next < self.total && self.failures == 0),
    {
        self.running < self.workers && self.next < self.total && self.failures == 0
    }

    /// Dispatches the next task, returning its index.
    pub fn dispatch(&mut self) -> (task: usize)
        requires
            old(self).wf(),
            old(self).running < old(self).workers,
            old(self).next < old(self).total,
            old(self).failures == 0,
        ensures
            final(self).wf(),
            task == old(self).next,
            final(self).next == old(self).next + 1,
            final(self).running == old(self).running + 1,
            final(self).failures == old(self).failures,
            final(self).finished == old(self).finished,
            final(self).total == old(self).total,
            final(self).workers == old(self).workers,
    {
        let task = self.next;
        self.next = self.next + 1;
        self.running = self.running + 1;
        task
    }

    /// Records that a running task finished, successfully or not.
    pub fn task_finished(&mut self, ok: bool)
        requires
            old(self).wf(),
            old(self).running > 0,
        ensures
            final(self).wf(),
            final(self).running == old(self).running - 1,
            final(self).finished == old(self).finished + 1,
            final(self).failures == old(self).failures + if ok {
                0int
            } else {
                1int
            },
            final(self).next == old(self).next,
            final(self).total == old(self).total,
            final(self).workers == old(self).workers,
    {
        self.running = self.running - 1;
        self.finished = self.finished + 1;
        if !ok {
            self.failures = self.failures + 1;
        }
    }

    /// Whether the batch is over: nothing runs, and either everything was
    /// dispatched or a failure stopped dispatch.
    pub fn done(&self) -> (r: bool)
        ensures
            r == (self.running == 0 && (self.next == self.total || self.failures > 0)),
    {
        self.running == 0 && (self.next == self.total || self.failures > 0)
    }

    /// The batch's outcome: success exactly when every task was dispatched
    /// and none failed.
    pub fn succeeded(&self) -> (r: bool)
        ensures
            r == (self.next == self.total && self.failures == 0),
    {
        self.next == self.total && self.failures == 0
    }
}

} // verus!
