//! The download scheduler's state machine: every task moves from pending
//! through in-flight (holding one of a fixed number of permits) to done,
//! with no way back from a terminal state and no cancellation once in
//! flight. The scheduler decides which task may start next; performing the
//! transfer itself is the surrounding I/O layer's job, which reports each
//! task's terminal outcome back.

use vstd::prelude::*;

verus! {

/// One task's phase. A permit is held exactly while the task is in flight;
/// reaching the terminal phase releases it, whether the transfer succeeded
/// or failed.
#[derive(PartialEq, Eq, Structural, Clone, Copy, Debug)]
pub enum TaskPhase {
    Pending,
    InFlight,
    Done { success: bool },
}

/// How many permits a phase holds: one while in flight.
pub open spec fn flight_weight(p: TaskPhase) -> nat {
    match p {
        TaskPhase::InFlight => 1,
        _ => 0,
    }
}

/// How many tasks of a phase sequence hold a permit.
pub open spec fn count_in_flight(s: Seq<TaskPhase>) -> nat
    decreases s.len(),
{
    if s.len() == 0 {
        0
    } else {
        count_in_flight(s.drop_last()) + flight_weight(s.last())
    }
}

/// Whether a phase is terminal.
pub open spec fn done_weight(p: TaskPhase) -> nat {
    match p {
        TaskPhase::Done { .. } => 1,
        _ => 0,
    }
}

/// How many tasks of a phase sequence have reached a terminal phase.
pub open spec fn count_done(s: Seq<TaskPhase>) -> nat
    decreases s.len(),
{
    if s.len() == 0 {
        0
    } else {
        count_done(s.drop_last()) + done_weight(s.last())
    }
}

/// Replacing one phase changes a weighted count by the weights' difference.
proof fn lemma_count_update(s: Seq<TaskPhase>, i: int, p: TaskPhase)
    requires
        0 <= i < s.len(),
    ensures
        count_in_flight(s.update(i, p)) + flight_weight(s[i]) == count_in_flight(s)
            + flight_weight(p),
        count_done(s.update(i, p)) + done_weight(s[i]) == count_done(s) + done_weight(p),
    decreases s.len(),
{
    if i == s.len() - 1 {
        assert(s.update(i, p).drop_last() =~= s.drop_last());
    } else {
        lemma_count_update(s.drop_last(), i, p);
        assert(s.update(i, p).drop_last() =~= s.drop_last().update(i, p));
    }
}

/// A sequence of pending phases holds no permit and has finished nothing.
proof fn lemma_count_pending(s: Seq<TaskPhase>)
    requires
        forall|k: int| 0 <= k < s.len() ==> s[k] is Pending,
    ensures
        count_in_flight(s) == 0,
        count_done(s) == 0,
    decreases s.len(),
{
    if s.len() > 0 {
        lemma_count_pending(s.drop_last());
    }
}

/// Coordinates one category's download tasks under a fixed permit
/// capacity. Well-formedness ties the cached counters to the phases and
/// keeps the number of permits held within the capacity.
pub struct Scheduler {
    pub capacity: usize,
    pub phases: Vec<TaskPhase>,
    pub in_flight: usize,
    pub completed: usize,
}

impl Scheduler {
    /// The cached counters agree with the phases, and no more than
    /// `capacity` permits are held.
    pub open spec fn wf(self) -> bool {
        &&& self.capacity >= 1
        &&& self.in_flight == count_in_flight(self.phases@)
        &&& self.completed == count_done(self.phases@)
        &&& self.in_flight <= self.capacity
    }

    /// A scheduler for `n_tasks` tasks, all pending, none in flight.
    pub fn new(capacity: usize, n_tasks: usize) -> (r: Scheduler)
        requires
            capacity >= 1,
        ensures
            r.wf(),
            r.capacity == capacity,
            r.phases@.len() == n_tasks,
            forall|k: int| 0 <= k < n_tasks ==> r.phases@[k] is Pending,
            r.in_flight == 0,
            r.completed == 0,
    {
        let mut phases: Vec<TaskPhase> = Vec::new();
        let mut i: usize = 0;
        while i < n_tasks
            invariant
                i <= n_tasks,
                phases@.len() == i,
                forall|k: int| 0 <= k < i ==> phases@[k] is Pending,
            decreases n_tasks - i,
        {
            phases.push(TaskPhase::Pending);
            i = i + 1;
        }
        proof {
            lemma_count_pending(phases@);
        }
        Scheduler { capacity, phases, in_flight: 0, completed: 0 }
    }

    /// Whether a permit is free, so that another task may start.
    pub fn can_dispatch(&self) -> (r: bool)
        ensures
            r == (self.in_flight < self.capacity),
    {
        self.in_flight < self.capacity
    }

    /// The first pending task, if any.
    pub fn next_pending(&self) -> (r: Option<usize>)
        ensures
            match r {
                Some(i) => i < self.phases@.len() && self.phases@[i as int] is Pending && forall|
                    k: int,
                |
                    0 <= k < i ==> !(self.phases@[k] is Pending),
                None => forall|k: int| 0 <= k < self.phases@.len() ==> !(self.phases@[k] is Pending),
            },
    {
        let n = self.phases.len();
        let mut i: usize = 0;
        while i < n
            invariant
                n == self.phases@.len(),
                i <= n,
                forall|k: int| 0 <= k < i ==> !(self.phases@[k] is Pending),
            decreases n - i,
        {
            if matches!(self.phases[i], TaskPhase::Pending) {
                return Some(i);
            }
            i = i + 1;
        }
        None
    }

    /// Starts a pending task: it takes one of the free permits and goes in
    /// flight. Every other task's phase is untouched.
    pub fn start(&mut self, i: usize)
        requires
            old(self).wf(),
            i < old(self).phases@.len(),
            old(self).phases@[i as int] is Pending,
            old(self).in_flight < old(self).capacity,
        ensures
            final(self).wf(),
            final(self).capacity == old(self).capacity,
            final(self).phases@ == old(self).phases@.update(i as int, TaskPhase::InFlight),
            final(self).in_flight == old(self).in_flight + 1,
            final(self).completed == old(self).completed,
    {
        proof {
            lemma_count_update(self.phases@, i as int, TaskPhase::InFlight);
        }
        self.phases[i] = TaskPhase::InFlight;
        self.in_flight = self.in_flight + 1;
    }

    /// Finishes an in-flight task with its terminal outcome: the permit is
    /// released and the task counts as completed, whether it succeeded or
    /// failed. No transition leads back out of the terminal phase.
    pub fn finish(&mut self, i: usize, success: bool)
        requires
            old(self).wf(),
            i < old(self).phases@.len(),
            old(self).phases@[i as int] is InFlight,
        ensures
            final(self).wf(),
            final(self).capacity == old(self).capacity,
            final(self).phases@ == old(self).phases@.update(
                i as int,
                TaskPhase::Done { success },
            ),
            final(self).in_flight == old(self).in_flight - 1,
            final(self).completed == old(self).completed + 1,
    {
        let n = self.phases.len();
        proof {
            lemma_count_update(self.phases@, i as int, TaskPhase::Done { success });
            lemma_counts_le_len(self.phases@.update(i as int, TaskPhase::Done { success }));
            assert(count_done(self.phases@.update(i as int, TaskPhase::Done { success })) <= n);
        }
        self.phases[i] = TaskPhase::Done { success };
        self.in_flight = self.in_flight - 1;
        self.completed = self.completed + 1;
    }

    /// Whether every task has reached a terminal phase.
    pub fn all_done(&self) -> (r: bool)
        requires
            self.wf(),
        ensures
            r == (count_done(self.phases@) == self.phases@.len()),
    {
        self.completed == self.phases.len()
    }
}

/// Weighted counts never exceed the sequence's length.
proof fn lemma_counts_le_len(s: Seq<TaskPhase>)
    ensures
        count_in_flight(s) <= s.len(),
        count_done(s) <= s.len(),
    decreases s.len(),
{
    if s.len() > 0 {
        lemma_counts_le_len(s.drop_last());
    }
}

/// One observable transition of the scheduler: a task starts, or a task
/// finishes with its outcome.
pub enum SchedStep {
    Start { task: nat },
    Finish { task: nat, success: bool },
}

/// Whether a step is enabled: a start needs a pending task and a free
/// permit, a finish needs the task in flight.
pub open spec fn step_enabled(phases: Seq<TaskPhase>, capacity: nat, s: SchedStep) -> bool {
    match s {
        SchedStep::Start { task } => task < phases.len() && phases[task as int] is Pending
            && count_in_flight(phases) < capacity,
        SchedStep::Finish { task, .. } => task < phases.len() && phases[task as int] is InFlight,
    }
}

/// The phases after a step.
pub open spec fn step_apply(phases: Seq<TaskPhase>, s: SchedStep) -> Seq<TaskPhase> {
    match s {
        SchedStep::Start { task } => phases.update(task as int, TaskPhase::InFlight),
        SchedStep::Finish { task, success } => phases.update(
            task as int,
            TaskPhase::Done { success },
        ),
    }
}

/// The phases after a sequence of steps.
pub open spec fn run_steps(init: Seq<TaskPhase>, steps: Seq<SchedStep>) -> Seq<TaskPhase>
    decreases steps.len(),
{
    if steps.len() == 0 {
        init
    } else {
        step_apply(run_steps(init, steps.drop_last()), steps.last())
    }
}

/// Whether every step of the sequence is enabled when its turn comes.
pub open spec fn trace_ok(init: Seq<TaskPhase>, capacity: nat, steps: Seq<SchedStep>) -> bool
    decreases steps.len(),
{
    if steps.len() == 0 {
        true
    } else {
        trace_ok(init, capacity, steps.drop_last()) && step_enabled(
            run_steps(init, steps.drop_last()),
            capacity,
            steps.last(),
        )
    }
}

/// Starting from all-pending, after any enabled sequence of transitions, at
/// most `capacity` tasks hold a permit — at no instant of a sync do more
/// downloads run than the concurrency bound allows.
pub proof fn lemma_permit_bound(init: Seq<TaskPhase>, capacity: nat, steps: Seq<SchedStep>)
    requires
        forall|k: int| 0 <= k < init.len() ==> init[k] is Pending,
        trace_ok(init, capacity, steps),
    ensures
        count_in_flight(run_steps(init, steps)) <= capacity,
    decreases steps.len(),
{
    if steps.len() == 0 {
        lemma_count_pending(init);
    } else {
        lemma_permit_bound(init, capacity, steps.drop_last());
        let before = run_steps(init, steps.drop_last());
        match steps.last() {
            SchedStep::Start { task } => {
                lemma_count_update(before, task as int, TaskPhase::InFlight);
            },
            SchedStep::Finish { task, success } => {
                lemma_count_update(before, task as int, TaskPhase::Done { success });
            },
        }
    }
}

} // verus!
