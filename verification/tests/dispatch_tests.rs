use microsched::SpawnError;
use microsched::dispatch::{Dispatcher, TaskKind, TaskState};

#[test]
fn higher_priority_preempts_running_task() {
    let mut d = Dispatcher::new();
    let a = d.add_task(TaskKind::Software, 1);
    let b = d.add_task(TaskKind::Software, 2);
    assert!(d.activate(a).is_ok());
    assert_eq!(d.dispatch_next(), Some(a));
    assert_eq!(d.current(), Some(a));
    // B becomes pending while A runs: B takes the processor at once.
    assert!(d.activate(b).is_ok());
    assert_eq!(d.dispatch_next(), Some(b));
    assert_eq!(d.current(), Some(b));
    assert_eq!(d.task_state(a), TaskState::Running);
    // A resumes only once B has completed.
    assert_eq!(d.complete(), b);
    assert_eq!(d.current(), Some(a));
    assert_eq!(d.complete(), a);
    assert_eq!(d.current(), None);
}

#[test]
fn equal_priority_runs_in_arrival_order() {
    let mut d = Dispatcher::new();
    let a = d.add_task(TaskKind::Software, 1);
    let b = d.add_task(TaskKind::Software, 1);
    assert!(d.activate(b).is_ok());
    assert!(d.activate(a).is_ok());
    assert_eq!(d.dispatch_next(), Some(b));
    // A arrived second at the same priority: it never preempts B.
    assert_eq!(d.dispatch_next(), None);
    assert_eq!(d.complete(), b);
    assert_eq!(d.dispatch_next(), Some(a));
}

#[test]
fn lower_priority_does_not_preempt() {
    let mut d = Dispatcher::new();
    let low = d.add_task(TaskKind::Software, 1);
    let high = d.add_task(TaskKind::Software, 3);
    assert!(d.activate(high).is_ok());
    assert_eq!(d.dispatch_next(), Some(high));
    assert!(d.activate(low).is_ok());
    assert_eq!(d.dispatch_next(), None);
    assert_eq!(d.current(), Some(high));
}

#[test]
fn spawning_an_active_singleton_fails() {
    let mut d = Dispatcher::new();
    let t = d.add_task(TaskKind::Software, 1);
    assert!(d.activate(t).is_ok());
    assert_eq!(d.activate(t), Err(SpawnError::AlreadyScheduled));
    assert_eq!(d.dispatch_next(), Some(t));
    assert_eq!(d.activate(t), Err(SpawnError::AlreadyScheduled));
}

#[test]
fn interrupt_pending_cleared_exactly_once_per_activation() {
    let mut d = Dispatcher::new();
    let hw = d.add_task(TaskKind::Hardware, 2);
    assert!(d.interrupt(hw));
    assert!(d.irq_is_pending(hw));
    // Starting the activation clears the pending condition.
    assert_eq!(d.dispatch_next(), Some(hw));
    assert!(!d.irq_is_pending(hw));
    // A signal arriving mid-run is latched, but the running instance is
    // not re-entered: nothing new is dispatchable.
    assert!(!d.interrupt(hw));
    assert!(d.irq_is_pending(hw));
    assert_eq!(d.dispatch_next(), None);
    assert_eq!(d.complete(), hw);
    // The latched signal activates a fresh instance, clearing it again.
    assert!(d.interrupt(hw));
    assert_eq!(d.dispatch_next(), Some(hw));
    assert!(!d.irq_is_pending(hw));
    assert_eq!(d.complete(), hw);
}

#[test]
fn suspended_task_resumes_after_wake() {
    let mut d = Dispatcher::new();
    let t = d.add_task(TaskKind::Software, 1);
    assert!(d.activate(t).is_ok());
    assert_eq!(d.dispatch_next(), Some(t));
    assert_eq!(d.suspend_current(), t);
    assert_eq!(d.task_state(t), TaskState::Suspended);
    assert_eq!(d.dispatch_next(), None);
    d.wake(t);
    assert_eq!(d.task_state(t), TaskState::Pending);
    assert_eq!(d.dispatch_next(), Some(t));
}
