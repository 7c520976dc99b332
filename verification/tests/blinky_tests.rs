use microsched::blinky::{Blinky, LedAction, BLINK_PERIOD};
use microsched::ceiling::CeilingLock;
use microsched::dispatch::TaskState;

#[test]
fn button_value_reaches_receiver_exactly_once_and_blink_is_unaffected() {
    let mut b = Blinky::init();
    // Receiver was spawned first: it runs, finds the channel empty, and
    // suspends.
    assert_eq!(b.scheduler.dispatch_next(), Some(b.receiver_task));
    let got = b.run_receiver();
    assert!(got.is_empty());
    assert_eq!(b.scheduler.task_state(b.receiver_task), TaskState::Suspended);
    // Blink runs once and reschedules itself a full period ahead.
    assert_eq!(b.scheduler.dispatch_next(), Some(b.blink_task));
    assert_eq!(b.run_blink(), LedAction::SetLow);
    assert!(b.led_lit);
    assert_eq!(b.scheduler.dispatch_next(), None);
    // The button fires: its hardware task runs, pushes 9, and wakes the
    // receiver, which observes 9 exactly once.
    assert!(b.scheduler.interrupt(b.button_task));
    assert_eq!(b.scheduler.dispatch_next(), Some(b.button_task));
    assert!(b.run_button(9).is_ok());
    assert_eq!(b.scheduler.dispatch_next(), Some(b.receiver_task));
    let got = b.run_receiver();
    assert_eq!(got, vec![9]);
    assert_eq!(b.scheduler.dispatch_next(), None);
    // Blink continues independently, unaffected by the channel event.
    b.scheduler.advance_clock(BLINK_PERIOD);
    assert!(b.scheduler.timer_fired());
    assert_eq!(b.scheduler.timer_service_step(), Some(b.blink_task));
    assert_eq!(b.scheduler.dispatch_next(), Some(b.blink_task));
    assert_eq!(b.run_blink(), LedAction::SetHigh);
    assert!(!b.led_lit);
}

#[test]
fn blink_toggles_every_period() {
    let mut b = Blinky::init();
    assert_eq!(b.scheduler.dispatch_next(), Some(b.receiver_task));
    b.run_receiver();
    assert_eq!(b.scheduler.dispatch_next(), Some(b.blink_task));
    let mut lit = false;
    for cycle in 0..4u64 {
        let action = b.run_blink();
        if lit {
            assert_eq!(action, LedAction::SetHigh);
        } else {
            assert_eq!(action, LedAction::SetLow);
        }
        lit = !lit;
        assert_eq!(b.led_lit, lit);
        b.scheduler.advance_clock(BLINK_PERIOD);
        assert_eq!(b.scheduler.now(), (cycle + 1) * BLINK_PERIOD);
        assert_eq!(b.scheduler.timer_service_step(), Some(b.blink_task));
        assert_eq!(b.scheduler.dispatch_next(), Some(b.blink_task));
    }
}

#[test]
fn button_preempts_a_running_blink() {
    let mut b = Blinky::init();
    assert_eq!(b.scheduler.dispatch_next(), Some(b.receiver_task));
    b.run_receiver();
    assert_eq!(b.scheduler.dispatch_next(), Some(b.blink_task));
    // Blink holds the processor when the button interrupt arrives: the
    // higher-priority hardware task takes over at once.
    assert!(b.scheduler.interrupt(b.button_task));
    assert_eq!(b.scheduler.dispatch_next(), Some(b.button_task));
    assert!(b.run_button(9).is_ok());
    // Blink is current again only after the button task completed; the
    // woken receiver (equal priority) waits for blink to finish.
    assert_eq!(b.scheduler.current(), Some(b.blink_task));
    assert_eq!(b.scheduler.dispatch_next(), None);
    b.run_blink();
    assert_eq!(b.scheduler.dispatch_next(), Some(b.receiver_task));
    assert_eq!(b.run_receiver(), vec![9]);
}

#[test]
fn full_channel_rejects_the_button_value() {
    let mut b = Blinky::init();
    assert_eq!(b.scheduler.dispatch_next(), Some(b.receiver_task));
    b.run_receiver();
    assert_eq!(b.scheduler.dispatch_next(), Some(b.blink_task));
    b.run_blink();
    for v in 0..32usize {
        assert!(b.channel.try_send(v).is_ok());
    }
    assert!(b.scheduler.interrupt(b.button_task));
    assert_eq!(b.scheduler.dispatch_next(), Some(b.button_task));
    assert!(b.run_button(32).is_err());
    // The 32 queued values are intact; the receiver still sleeps, since
    // nothing was delivered.
    assert_eq!(b.scheduler.task_state(b.receiver_task), TaskState::Suspended);
    b.scheduler.wake(b.receiver_task);
    assert_eq!(b.scheduler.dispatch_next(), Some(b.receiver_task));
    let got = b.run_receiver();
    assert_eq!(got, (0..32usize).collect::<Vec<usize>>());
}

#[test]
fn ceiling_lock_raises_and_restores_priority() {
    let mut lock = CeilingLock::new(2);
    let raised = lock.acquire(1);
    assert_eq!(raised, 2);
    let restored = lock.release();
    assert_eq!(restored, 1);
}
