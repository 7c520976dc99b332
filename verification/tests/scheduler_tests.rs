use microsched::SpawnError;
use microsched::dispatch::{TaskKind, TaskState};
use microsched::scheduler::Scheduler;

#[test]
fn delayed_spawns_activate_in_deadline_order() {
    let mut s = Scheduler::new();
    let slow = s.add_task(TaskKind::Software, 1);
    let fast = s.add_task(TaskKind::Software, 1);
    assert!(s.spawn_after(slow, 500).is_ok());
    assert!(s.spawn_after(fast, 200).is_ok());
    assert!(!s.timer_fired());
    s.advance_clock(200);
    assert!(s.timer_fired());
    assert_eq!(s.timer_service_step(), Some(fast));
    // The later deadline is not due yet.
    assert!(s.timer_service_step().is_none());
    assert!(!s.timer_fired());
    s.advance_clock(300);
    assert_eq!(s.timer_service_step(), Some(slow));
    assert!(s.timer_service_step().is_none());
    // Both were handed to the dispatcher, earliest deadline first.
    assert_eq!(s.dispatch_next(), Some(fast));
}

#[test]
fn spawn_after_rejects_a_scheduled_task() {
    let mut s = Scheduler::new();
    let t = s.add_task(TaskKind::Software, 1);
    assert!(s.spawn_after(t, 100).is_ok());
    assert_eq!(s.spawn_after(t, 200), Err(SpawnError::AlreadyScheduled));
    assert_eq!(s.spawn(t), Err(SpawnError::AlreadyScheduled));
}

#[test]
fn spawn_rejects_a_pending_task() {
    let mut s = Scheduler::new();
    let t = s.add_task(TaskKind::Software, 1);
    assert!(s.spawn(t).is_ok());
    assert_eq!(s.task_state(t), TaskState::Pending);
    assert_eq!(s.spawn(t), Err(SpawnError::AlreadyScheduled));
    assert_eq!(s.spawn_after(t, 50), Err(SpawnError::AlreadyScheduled));
}

#[test]
fn immediate_spawn_runs_without_the_clock() {
    let mut s = Scheduler::new();
    let t = s.add_task(TaskKind::Software, 1);
    assert!(s.spawn(t).is_ok());
    assert_eq!(s.dispatch_next(), Some(t));
    assert_eq!(s.current(), Some(t));
    assert_eq!(s.complete(), t);
    assert_eq!(s.task_state(t), TaskState::Idle);
}

#[test]
fn service_timer_hands_out_all_due_work_in_deadline_order() {
    let mut s = Scheduler::new();
    let a = s.add_task(TaskKind::Software, 1);
    let b = s.add_task(TaskKind::Software, 1);
    let c = s.add_task(TaskKind::Software, 1);
    assert!(s.spawn_after(a, 300).is_ok());
    assert!(s.spawn_after(b, 100).is_ok());
    assert!(s.spawn_after(c, 700).is_ok());
    s.advance_clock(300);
    assert_eq!(s.service_timer(), vec![b, a]);
    assert!(!s.timer_fired());
    assert_eq!(s.task_state(c), TaskState::Idle);
    s.advance_clock(400);
    assert_eq!(s.service_timer(), vec![c]);
    assert_eq!(s.service_timer(), Vec::<usize>::new());
}

#[test]
fn absolute_deadlines_give_drift_free_periods() {
    let mut s = Scheduler::new();
    let t = s.add_task(TaskKind::Software, 1);
    assert!(s.spawn_at(t, 100).is_ok());
    // The service runs a little late; the next deadline is still
    // computed from the intended one, so the period does not drift.
    s.advance_clock(105);
    assert_eq!(s.timer_service_step(), Some(t));
    assert_eq!(s.dispatch_next(), Some(t));
    assert_eq!(s.complete(), t);
    assert!(s.spawn_at(t, 200).is_ok());
    s.advance_clock(95);
    assert_eq!(s.now(), 200);
    assert_eq!(s.timer_service_step(), Some(t));
}

#[test]
fn clock_advances_monotonically() {
    let mut s = Scheduler::new();
    assert_eq!(s.now(), 0);
    s.advance_clock(7);
    s.advance_clock(0);
    s.advance_clock(3);
    assert_eq!(s.now(), 10);
}

#[test]
fn hardware_interrupt_preempts_running_software() {
    let mut s = Scheduler::new();
    let soft = s.add_task(TaskKind::Software, 1);
    let hw = s.add_task(TaskKind::Hardware, 2);
    assert!(s.spawn(soft).is_ok());
    assert_eq!(s.dispatch_next(), Some(soft));
    assert!(s.interrupt(hw));
    assert!(s.irq_is_pending(hw));
    assert_eq!(s.dispatch_next(), Some(hw));
    assert!(!s.irq_is_pending(hw));
    assert_eq!(s.complete(), hw);
    assert_eq!(s.current(), Some(soft));
}
