//! Per-category progress counts for an external display collaborator: a
//! total set once before dispatch and a completed count incremented once
//! per task on reaching its terminal phase, regardless of outcome. Purely
//! observational; nothing here influences scheduling.

use vstd::prelude::*;

verus! {

/// One category's task counts.
pub struct ProgressTracker {
    pub total: usize,
    pub completed: usize,
}

impl ProgressTracker {
    /// Never more tasks completed than there are.
    pub open spec fn wf(self) -> bool {
        self.completed <= self.total
    }

    /// A tracker for `total` tasks, none completed yet.
    pub fn new(total: usize) -> (r: ProgressTracker)
        ensures
            r.wf(),
            r.total == total,
            r.completed == 0,
    {
        ProgressTracker { total, completed: 0 }
    }

    /// Records one task reaching its terminal phase, whatever its outcome.
    pub fn record_done(&mut self)
        requires
            old(self).wf(),
            old(self).completed < old(self).total,
        ensures
            final(self).wf(),
            final(self).total == old(self).total,
            final(self).completed == old(self).completed + 1,
    {
        self.completed = self.completed + 1;
    }

    /// The counts as handed to the display collaborator.
    pub fn counts(&self) -> (r: (usize, usize))
        ensures
            r.0 == self.total,
            r.1 == self.completed,
    {
        (self.total, self.completed)
    }

    /// Whether every task has been recorded as done.
    pub fn is_finished(&self) -> (r: bool)
        ensures
            r == (self.completed == self.total),
    {
        self.completed == self.total
    }
}

} // verus!
