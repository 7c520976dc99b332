use microsched::SpawnError;
use microsched::timer::TimerQueue;

#[test]
fn earlier_deadline_pops_first() {
    let mut q = TimerQueue::new();
    assert!(q.insert(0, 500).is_ok());
    assert!(q.insert(1, 200).is_ok());
    assert_eq!(q.next_deadline(), Some(200));
    let first = q.pop_due(1000).expect("an entry is due");
    assert_eq!(first.task, 1);
    assert_eq!(first.deadline, 200);
    let second = q.pop_due(1000).expect("an entry is due");
    assert_eq!(second.task, 0);
    assert_eq!(second.deadline, 500);
    assert!(q.pop_due(1000).is_none());
}

#[test]
fn equal_deadlines_keep_arrival_order() {
    let mut q = TimerQueue::new();
    assert!(q.insert(3, 100).is_ok());
    assert!(q.insert(4, 100).is_ok());
    assert!(q.insert(5, 100).is_ok());
    assert_eq!(q.pop_due(100).unwrap().task, 3);
    assert_eq!(q.pop_due(100).unwrap().task, 4);
    assert_eq!(q.pop_due(100).unwrap().task, 5);
}

#[test]
fn duplicate_task_is_rejected() {
    let mut q = TimerQueue::new();
    assert!(q.insert(2, 300).is_ok());
    assert_eq!(q.insert(2, 400), Err(SpawnError::AlreadyScheduled));
    assert_eq!(q.len(), 1);
}

#[test]
fn nothing_due_before_the_deadline() {
    let mut q = TimerQueue::new();
    assert!(q.insert(0, 300).is_ok());
    assert!(q.pop_due(299).is_none());
    assert_eq!(q.len(), 1);
    assert!(q.pop_due(300).is_some());
}

#[test]
fn next_deadline_is_the_minimum() {
    let mut q = TimerQueue::new();
    assert_eq!(q.next_deadline(), None);
    assert!(q.insert(0, 900).is_ok());
    assert!(q.insert(1, 100).is_ok());
    assert!(q.insert(2, 400).is_ok());
    assert_eq!(q.next_deadline(), Some(100));
}
