use resource_sync::progress::ProgressTracker;
use resource_sync::scheduler::{Scheduler, TaskPhase};

#[test]
fn permits_never_exceed_the_bound() {
    // Fifty stale downloads under a bound of 32: the scheduler admits 32,
    // then refuses more until one finishes; every task eventually reaches
    // its terminal phase.
    let mut sched = Scheduler::new(32, 50);
    let mut started = Vec::new();

    while sched.can_dispatch() {
        match sched.next_pending() {
            Some(i) => {
                sched.start(i);
                started.push(i);
            }
            None => break,
        }
    }
    assert_eq!(sched.in_flight, 32);
    assert!(!sched.can_dispatch());
    assert!(sched.next_pending().is_some());

    // Finishing one task frees exactly one permit.
    let first = started.remove(0);
    sched.finish(first, true);
    assert_eq!(sched.in_flight, 31);
    assert!(sched.can_dispatch());

    // Drive the rest to completion, never exceeding the bound.
    loop {
        while sched.can_dispatch() {
            match sched.next_pending() {
                Some(i) => {
                    sched.start(i);
                    started.push(i);
                }
                None => break,
            }
        }
        assert!(sched.in_flight <= 32);
        match started.pop() {
            Some(i) => sched.finish(i, true),
            None => break,
        }
    }
    assert!(sched.all_done());
    assert_eq!(sched.completed, 50);
    assert_eq!(sched.in_flight, 0);
}

#[test]
fn start_and_finish_move_one_task() {
    let mut sched = Scheduler::new(2, 3);
    assert_eq!(sched.next_pending(), Some(0));
    sched.start(0);
    assert!(matches!(sched.phases[0], TaskPhase::InFlight));
    assert_eq!(sched.next_pending(), Some(1));
    sched.start(1);
    assert!(!sched.can_dispatch());
    sched.finish(0, false);
    assert!(matches!(sched.phases[0], TaskPhase::Done { success: false }));
    assert_eq!(sched.in_flight, 1);
    assert_eq!(sched.completed, 1);
    sched.finish(1, true);
    assert!(matches!(sched.phases[1], TaskPhase::Done { success: true }));
    assert!(!sched.all_done());
    sched.start(2);
    sched.finish(2, true);
    assert!(sched.all_done());
}

#[test]
fn a_failed_task_still_counts_as_completed() {
    let mut sched = Scheduler::new(1, 1);
    sched.start(0);
    sched.finish(0, false);
    assert!(sched.all_done());
    assert_eq!(sched.completed, 1);
}

#[test]
fn progress_counts_per_category() {
    let mut tracker = ProgressTracker::new(3);
    assert_eq!(tracker.counts(), (3, 0));
    assert!(!tracker.is_finished());
    tracker.record_done();
    tracker.record_done();
    assert_eq!(tracker.counts(), (3, 2));
    tracker.record_done();
    assert!(tracker.is_finished());
}
