//! The LED-blink example system built on the scheduler core.
//!
//! Three statically declared tasks: `blink`, a periodic software task
//! that toggles the LED and reschedules itself a fixed interval after
//! each run; `receiver`, a software task that drains a bounded channel
//! and suspends while it is empty; and `button`, a hardware task bound
//! to the push-button interrupt that hands the channel a value. The
//! board itself (LED pin, interrupt controller, log sink) is driven by
//! the caller, who performs each returned action.

use vstd::prelude::*;

verus! {

use crate::{SendError, TaskId, Tick};
use crate::channel::{Channel, RecvOutcome, send_step};
use crate::dispatch::{TaskKind, TaskState};
use crate::scheduler::Scheduler;
use crate::timer::{PendingActivation, holds_task, insert_pos};

/// Ticks between LED toggles.
pub const BLINK_PERIOD: u64 = 1000;

/// How many values the button-to-receiver channel holds.
pub const CHANNEL_CAPACITY: usize = 32;

/// What the blink task asks the board to do with the LED.
#[derive(Clone, Copy, PartialEq, Eq, Structural, Debug)]
pub enum LedAction {
    /// Drive the LED pin high.
    SetHigh,
    /// Drive the LED pin low.
    SetLow,
}

/// One run of the blink task body: from the toggle flag, the new flag
/// and the level to drive the pin to (high while the flag was set, low
/// while it was clear — the flag then flips).
pub fn blink_decision(lit: bool) -> (r: (bool, LedAction))
    ensures
        r.0 == !lit,
        r.1 == (if lit {
            LedAction::SetHigh
        } else {
            LedAction::SetLow
        }),
{
    if lit {
        (false, LedAction::SetHigh)
    } else {
        (true, LedAction::SetLow)
    }
}

/// The blinky system: the scheduler, the button-to-receiver channel,
/// the three task ids, and the blink task's toggle flag.
pub struct Blinky {
    /// The scheduler instance the tasks run on.
    pub scheduler: Scheduler,
    /// Carries button values to the receiver task.
    pub channel: Channel<usize>,
    /// The periodic LED task.
    pub blink_task: TaskId,
    /// The channel-draining task.
    pub receiver_task: TaskId,
    /// The hardware task bound to the push-button interrupt.
    pub button_task: TaskId,
    /// The blink task's local toggle flag.
    pub led_lit: bool,
}

impl Blinky {
    /// The system invariant: the scheduler and channel are well formed,
    /// and the three tasks keep their declared identities, kinds and
    /// priorities (the button interrupt outranks both software tasks).
    pub open spec fn wf(self) -> bool {
        &&& self.scheduler.wf()
        &&& self.channel.wf()
        &&& self.scheduler.n_tasks() == 3
        &&& self.blink_task == 0usize
        &&& self.receiver_task == 1usize
        &&& self.button_task == 2usize
        &&& self.scheduler.task(0usize).kind is Software
        &&& self.scheduler.task(0usize).priority == 1
        &&& self.scheduler.task(1usize).kind is Software
        &&& self.scheduler.task(1usize).priority == 1
        &&& self.scheduler.task(2usize).kind is Hardware
        &&& self.scheduler.task(2usize).priority == 2
        &&& self.channel.cap() == CHANNEL_CAPACITY as nat
    }

    /// Initializes the system: declares the three tasks, opens the
    /// channel, and spawns `receiver` and `blink` immediately, in that
    /// order. The board work that surrounds this (pin modes, clock tree,
    /// edge configuration, enabling the interrupt source) is the
    /// caller's, done before any task runs.
    pub fn init() -> (b: Blinky)
        ensures
            b.wf(),
            b.scheduler.now_of() == 0,
            b.channel.contents() == Seq::<usize>::empty(),
            !b.channel.is_closed(),
            b.scheduler.task(b.receiver_task).state is Pending,
            b.scheduler.task(b.blink_task).state is Pending,
            b.scheduler.task(b.button_task).state is Idle,
            !b.scheduler.task(b.button_task).irq_pending,
            b.scheduler.dispatcher_of().pending_seq() == seq![1usize, 0usize],
            b.scheduler.dispatcher_of().stack_seq() == Seq::<TaskId>::empty(),
            b.scheduler.timer_of().entries_seq() == Seq::<PendingActivation>::empty(),
            !b.led_lit,
    {
        let mut scheduler = Scheduler::new();
        let blink_task = scheduler.add_task(TaskKind::Software, 1);
        let receiver_task = scheduler.add_task(TaskKind::Software, 1);
        let button_task = scheduler.add_task(TaskKind::Hardware, 2);
        let r1 = scheduler.spawn(receiver_task);
        let r2 = scheduler.spawn(blink_task);
        proof {
            assert(r1 is Ok);
            assert(r2 is Ok);
        }
        let channel = Channel::new(CHANNEL_CAPACITY);
        Blinky { scheduler, channel, blink_task, receiver_task, button_task, led_lit: false }
    }

    /// One full activation of the blink task, which must be the task
    /// executing now: toggles the flag, completes, and reschedules
    /// itself `BLINK_PERIOD` ticks after the moment it ran (fixed-delay
    /// rescheduling: the next deadline is measured from now, so the
    /// task's own execution time accrues as drift, as designed).
    /// Returns the level the board must drive the LED pin to.
    pub fn run_blink(&mut self) -> (action: LedAction)
        requires
            old(self).wf(),
            old(self).scheduler.dispatcher_of().spec_current() == Some(old(self).blink_task),
            old(self).scheduler.now_of() + BLINK_PERIOD <= Tick::MAX,
            old(self).scheduler.timer_of().entries_seq().len() < usize::MAX,
        ensures
            final(self).wf(),
            final(self).led_lit == !old(self).led_lit,
            action == (if old(self).led_lit {
                LedAction::SetHigh
            } else {
                LedAction::SetLow
            }),
            final(self).scheduler.dispatcher_of().stack_seq() == old(self).scheduler.dispatcher_of().stack_seq().drop_last(),
            final(self).scheduler.dispatcher_of().pending_seq() == old(self).scheduler.dispatcher_of().pending_seq(),
            final(self).scheduler.task(old(self).blink_task).state is Idle,
            final(self).scheduler.task(1usize) == old(self).scheduler.task(1usize),
            final(self).scheduler.task(2usize) == old(self).scheduler.task(2usize),
            final(self).scheduler.now_of() == old(self).scheduler.now_of(),
            final(self).scheduler.timer_of().entries_seq() == old(self).scheduler.timer_of().entries_seq().insert(
                insert_pos(
                    old(self).scheduler.timer_of().entries_seq(),
                    (old(self).scheduler.now_of() + BLINK_PERIOD) as Tick,
                ),
                (PendingActivation {
                    task: old(self).blink_task,
                    deadline: (old(self).scheduler.now_of() + BLINK_PERIOD) as Tick,
                }),
            ),
            final(self).channel == old(self).channel,
    {
        let decision = blink_decision(self.led_lit);
        self.led_lit = decision.0;
        let action = decision.1;
        let done = self.scheduler.complete();
        proof {
            assert(done == 0usize);
            assert(!holds_task(self.scheduler.timer_of().entries_seq(), 0usize)) by {
                if holds_task(self.scheduler.timer_of().entries_seq(), 0usize) {
                    let k = choose|k: int|
                        0 <= k < self.scheduler.timer_of().entries_seq().len()
                            && self.scheduler.timer_of().entries_seq()[k].task == 0usize;
                    assert(old(self).scheduler.task(0usize).state is Idle);
                }
            }
        }
        let r = self.scheduler.spawn_after(self.blink_task, BLINK_PERIOD);
        proof {
            assert(r is Ok);
        }
        action
    }

    /// One full activation of the receiver task, which must be the task
    /// executing now: drains every queued value in FIFO order, then
    /// suspends on the empty channel until a producer wakes it. Returns
    /// the drained values for the board to log.
    pub fn run_receiver(&mut self) -> (got: Vec<usize>)
        requires
            old(self).wf(),
            old(self).scheduler.dispatcher_of().spec_current() == Some(old(self).receiver_task),
        ensures
            final(self).wf(),
            got@ == old(self).channel.contents(),
            final(self).channel.contents() == Seq::<usize>::empty(),
            final(self).channel.cap() == old(self).channel.cap(),
            final(self).scheduler.dispatcher_of().stack_seq() == old(self).scheduler.dispatcher_of().stack_seq().drop_last(),
            final(self).scheduler.dispatcher_of().pending_seq() == old(self).scheduler.dispatcher_of().pending_seq(),
            final(self).scheduler.task(old(self).receiver_task).state is Suspended,
            final(self).scheduler.task(0usize) == old(self).scheduler.task(0usize),
            final(self).scheduler.task(2usize) == old(self).scheduler.task(2usize),
            final(self).scheduler.timer_of() == old(self).scheduler.timer_of(),
            final(self).scheduler.now_of() == old(self).scheduler.now_of(),
            final(self).led_lit == old(self).led_lit,
    {
        let mut got: Vec<usize> = Vec::new();
        loop
            invariant
                self.channel.wf(),
                self.channel.cap() == old(self).channel.cap(),
                self.channel.is_closed() == old(self).channel.is_closed(),
                got@ + self.channel.contents() == old(self).channel.contents(),
                self.scheduler == old(self).scheduler,
                self.led_lit == old(self).led_lit,
                self.blink_task == old(self).blink_task,
                self.receiver_task == old(self).receiver_task,
                self.button_task == old(self).button_task,
            ensures
                got@ == old(self).channel.contents(),
                self.channel.contents() == Seq::<usize>::empty(),
                self.channel.wf(),
                self.channel.cap() == old(self).channel.cap(),
                self.scheduler == old(self).scheduler,
                self.led_lit == old(self).led_lit,
                self.blink_task == old(self).blink_task,
                self.receiver_task == old(self).receiver_task,
                self.button_task == old(self).button_task,
            decreases self.channel.contents().len(),
        {
            let outcome = self.channel.receive();
            match outcome {
                RecvOutcome::Item(v) => {
                    got.push(v);
                    proof {
                        assert(got@ + self.channel.contents() =~= old(self).channel.contents());
                    }
                },
                RecvOutcome::Suspend => {
                    proof {
                        assert(got@ =~= old(self).channel.contents());
                    }
                    break;
                },
                RecvOutcome::Closed => {
                    proof {
                        assert(got@ =~= old(self).channel.contents());
                    }
                    break;
                },
            }
        }
        let parked = self.scheduler.suspend_current();
        proof {
            assert(parked == 1usize);
        }
        got
    }

    /// One full activation of the button's hardware task, which must be
    /// the task executing now (its interrupt pending condition was
    /// cleared when it was dispatched): offers `value` to the channel
    /// without blocking, completes, and wakes the receiver if it lies
    /// suspended and a value was delivered.
    pub fn run_button(&mut self, value: usize) -> (r: Result<(), SendError>)
        requires
            old(self).wf(),
            old(self).scheduler.dispatcher_of().spec_current() == Some(old(self).button_task),
        ensures
            final(self).wf(),
            r is Ok <==> old(self).channel.contents().len() < old(self).channel.cap(),
            final(self).channel.contents() == send_step(
                old(self).channel.contents(),
                old(self).channel.cap(),
                value,
            ),
            r is Err ==> final(self).channel.contents() == old(self).channel.contents()
                && r == Err::<(), SendError>(SendError::Full),
            final(self).scheduler.dispatcher_of().stack_seq() == old(self).scheduler.dispatcher_of().stack_seq().drop_last(),
            final(self).scheduler.task(old(self).button_task).state is Idle,
            final(self).scheduler.task(0usize) == old(self).scheduler.task(0usize),
            r is Ok && old(self).scheduler.task(1usize).state is Suspended ==> final(self).scheduler.task(1usize).state is Pending && final(self).scheduler.dispatcher_of().pending_seq() == old(self).scheduler.dispatcher_of().pending_seq().push(1usize),
            !(r is Ok && old(self).scheduler.task(1usize).state is Suspended) ==> final(self).scheduler.task(1usize) == old(self).scheduler.task(1usize) && final(self).scheduler.dispatcher_of().pending_seq() == old(self).scheduler.dispatcher_of().pending_seq(),
            final(self).scheduler.timer_of() == old(self).scheduler.timer_of(),
            final(self).scheduler.now_of() == old(self).scheduler.now_of(),
            final(self).led_lit == old(self).led_lit,
    {
        let r = self.channel.try_send(value);
        let done = self.scheduler.complete();
        proof {
            assert(done == 2usize);
        }
        let deliver: bool = match r {
            Ok(()) => true,
            Err(_) => false,
        };
        if deliver {
            let suspended: bool = match self.scheduler.task_state(self.receiver_task) {
                TaskState::Suspended => true,
                _ => false,
            };
            if suspended {
                self.scheduler.wake(self.receiver_task);
            }
        }
        r
    }
}

} // verus!
