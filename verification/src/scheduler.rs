//! The assembled scheduler: clock, timer queue and dispatcher, kept
//! consistent with each other.
//!
//! Delayed spawns go into the timer queue; the scheduler guarantees that
//! the clock always has the nearest pending deadline armed, so the single
//! hardware compare register never misses the next due activation. When
//! the timer interrupt fires, due activations are handed to the
//! dispatcher one at a time, in deadline order, and the clock is re-armed
//! to the new minimum (or disarmed when the queue drains).

use vstd::prelude::*;

verus! {

use crate::{Priority, SpawnError, TaskId, Tick};
use crate::clock::Clock;
use crate::dispatch::{Dispatcher, Task, TaskKind, TaskState};
use crate::timer::{PendingActivation, TimerQueue, holds_task, insert_pos};

/// A single-core scheduler instance: the monotonic clock, the queue of
/// delayed activations, and the priority dispatcher.
pub struct Scheduler {
    clock: Clock,
    timer: TimerQueue,
    dispatcher: Dispatcher,
}

impl Scheduler {
    /// The monotonic clock.
    pub closed spec fn clock_of(self) -> Clock {
        self.clock
    }

    /// The queue of pending delayed activations.
    pub closed spec fn timer_of(self) -> TimerQueue {
        self.timer
    }

    /// The task dispatcher.
    pub closed spec fn dispatcher_of(self) -> Dispatcher {
        self.dispatcher
    }

    /// The current tick count.
    pub open spec fn now_of(self) -> Tick {
        self.clock_of().tick_now()
    }

    /// The number of declared tasks.
    pub open spec fn n_tasks(self) -> nat {
        self.dispatcher_of().n_tasks()
    }

    /// The declared task with id `t`.
    pub open spec fn task(self, t: TaskId) -> Task {
        self.dispatcher_of().task(t)
    }

    /// The scheduler invariant: both components are well formed, the
    /// clock has exactly the nearest pending deadline armed, and every
    /// delayed activation names a declared software task that is idle
    /// (a queued task is a singleton: it cannot also be active).
    pub open spec fn wf(self) -> bool {
        &&& self.dispatcher_of().wf()
        &&& self.timer_of().wf()
        &&& self.clock_of().armed_deadline() == self.timer_of().spec_next_deadline()
        &&& forall|k: int|
            0 <= k < self.timer_of().entries_seq().len()
                ==> (#[trigger] self.timer_of().entries_seq()[k]).task < self.n_tasks()
                && self.task(self.timer_of().entries_seq()[k].task).state is Idle
                && self.task(self.timer_of().entries_seq()[k].task).kind is Software
    }

    /// A scheduler at tick zero with no tasks declared and nothing
    /// queued or armed.
    pub fn new() -> (s: Self)
        ensures
            s.wf(),
            s.now_of() == 0,
            s.n_tasks() == 0,
            s.timer_of().entries_seq() == Seq::<PendingActivation>::empty(),
            s.dispatcher_of().pending_seq() == Seq::<TaskId>::empty(),
            s.dispatcher_of().stack_seq() == Seq::<TaskId>::empty(),
    {
        Scheduler { clock: Clock::new(), timer: TimerQueue::new(), dispatcher: Dispatcher::new() }
    }

    /// Declares a task at initialization; its id is its table index.
    pub fn add_task(&mut self, kind: TaskKind, priority: Priority) -> (id: TaskId)
        requires
            old(self).wf(),
            old(self).n_tasks() < usize::MAX,
        ensures
            final(self).wf(),
            id == old(self).n_tasks(),
            final(self).dispatcher_of().tasks_seq() == old(self).dispatcher_of().tasks_seq().push(
                (Task { kind, priority, state: TaskState::Idle, irq_pending: false }),
            ),
            final(self).dispatcher_of().pending_seq() == old(self).dispatcher_of().pending_seq(),
            final(self).dispatcher_of().stack_seq() == old(self).dispatcher_of().stack_seq(),
            final(self).timer_of() == old(self).timer_of(),
            final(self).clock_of() == old(self).clock_of(),
    {
        let id = self.dispatcher.add_task(kind, priority);
        proof {
            assert forall|k: int| 0 <= k < self.timer_of().entries_seq().len() implies (
                #[trigger] self.timer_of().entries_seq()[k]).task < self.n_tasks()
                && self.task(self.timer_of().entries_seq()[k].task).state is Idle
                && self.task(self.timer_of().entries_seq()[k].task).kind is Software by {
                let t = old(self).timer_of().entries_seq()[k].task;
                assert(t < old(self).n_tasks());
                assert(self.task(t) == old(self).task(t));
            }
        }
        id
    }

    /// The current tick count.
    pub fn now(&self) -> (t: Tick)
        ensures
            t == self.now_of(),
    {
        self.clock.now()
    }

    /// Lets `dt` ticks elapse; the count never decreases and nothing
    /// else changes.
    pub fn advance_clock(&mut self, dt: Tick)
        requires
            old(self).wf(),
            old(self).now_of() + dt <= Tick::MAX,
        ensures
            final(self).wf(),
            final(self).now_of() == old(self).now_of() + dt,
            final(self).timer_of() == old(self).timer_of(),
            final(self).dispatcher_of() == old(self).dispatcher_of(),
            final(self).clock_of().armed_deadline() == old(self).clock_of().armed_deadline(),
    {
        self.clock.advance(dt);
    }

    /// Whether the armed deadline has been reached: the timer interrupt
    /// is due, and [`Self::timer_service_step`] will hand out due work.
    pub fn timer_fired(&self) -> (r: bool)
        ensures
            r == self.clock_of().spec_fired(),
    {
        self.clock.fired()
    }

    /// The task executing now, if any.
    pub fn current(&self) -> (r: Option<TaskId>)
        ensures
            r == self.dispatcher_of().spec_current(),
    {
        self.dispatcher.current()
    }

    /// Spawns the software task `id` immediately. Fails with
    /// `AlreadyScheduled`, changing nothing, iff the singleton task is
    /// not idle or already waits in the timer queue.
    pub fn spawn(&mut self, id: TaskId) -> (r: Result<(), SpawnError>)
        requires
            old(self).wf(),
            id < old(self).n_tasks(),
            old(self).task(id).kind is Software,
        ensures
            final(self).wf(),
            final(self).n_tasks() == old(self).n_tasks(),
            r is Ok <==> old(self).task(id).state is Idle && !holds_task(
                old(self).timer_of().entries_seq(),
                id,
            ),
            r is Err ==> *final(self) == *old(self) && r == Err::<(), SpawnError>(
                SpawnError::AlreadyScheduled,
            ),
            r is Ok ==> final(self).dispatcher_of().tasks_seq() == old(self).dispatcher_of().tasks_seq().update(
                id as int,
                (Task { state: TaskState::Pending, ..old(self).task(id) }),
            ) && final(self).dispatcher_of().pending_seq() == old(self).dispatcher_of().pending_seq().push(id) && final(self).dispatcher_of().stack_seq()
                == old(self).dispatcher_of().stack_seq() && final(self).timer_of() == old(self).timer_of() && final(self).clock_of() == old(self).clock_of(),
    {
        if self.timer.contains(id) {
            return Err(SpawnError::AlreadyScheduled);
        }
        let r = self.dispatcher.activate(id);
        proof {
            if r is Ok {
                assert forall|k: int| 0 <= k < self.timer_of().entries_seq().len() implies (
                    #[trigger] self.timer_of().entries_seq()[k]).task < self.n_tasks()
                    && self.task(self.timer_of().entries_seq()[k].task).state is Idle
                    && self.task(self.timer_of().entries_seq()[k].task).kind is Software by {
                    let t = old(self).timer_of().entries_seq()[k].task;
                    assert(t != id);
                    assert(self.task(t) == old(self).task(t));
                }
            }
        }
        r
    }

    /// Schedules the software task `id` to be activated `delay` ticks
    /// from now (fixed-delay rescheduling: a task that respawns itself
    /// this way measures its period from the moment it ran, so its own
    /// execution time accrues as drift). Fails with `AlreadyScheduled`,
    /// changing nothing, iff the singleton task is not idle or already
    /// waits in the timer queue.
    pub fn spawn_after(&mut self, id: TaskId, delay: Tick) -> (r: Result<(), SpawnError>)
        requires
            old(self).wf(),
            id < old(self).n_tasks(),
            old(self).task(id).kind is Software,
            old(self).now_of() + delay <= Tick::MAX,
            old(self).timer_of().entries_seq().len() < usize::MAX,
        ensures
            final(self).wf(),
            final(self).n_tasks() == old(self).n_tasks(),
            r is Ok <==> old(self).task(id).state is Idle && !holds_task(
                old(self).timer_of().entries_seq(),
                id,
            ),
            r is Err ==> *final(self) == *old(self) && r == Err::<(), SpawnError>(
                SpawnError::AlreadyScheduled,
            ),
            r is Ok ==> final(self).timer_of().entries_seq() == old(self).timer_of().entries_seq().insert(
                insert_pos(old(self).timer_of().entries_seq(), (old(self).now_of() + delay) as Tick),
                (PendingActivation { task: id, deadline: (old(self).now_of() + delay) as Tick }),
            ) && final(self).dispatcher_of() == old(self).dispatcher_of()
                && final(self).now_of() == old(self).now_of()
                && final(self).clock_of().armed_deadline()
                == final(self).timer_of().spec_next_deadline(),
    {
        let deadline = self.clock.now() + delay;
        self.spawn_at(id, deadline)
    }

    /// Schedules the software task `id` to be activated at the absolute
    /// tick `deadline` (a deadline already reached fires at the next
    /// timer service). Computing each next deadline from the intended
    /// previous one gives drift-free periodic behavior, where
    /// [`Self::spawn_after`] measures from now. Fails with
    /// `AlreadyScheduled`, changing nothing, iff the singleton task is
    /// not idle or already waits in the timer queue.
    pub fn spawn_at(&mut self, id: TaskId, deadline: Tick) -> (r: Result<(), SpawnError>)
        requires
            old(self).wf(),
            id < old(self).n_tasks(),
            old(self).task(id).kind is Software,
            old(self).timer_of().entries_seq().len() < usize::MAX,
        ensures
            final(self).wf(),
            final(self).n_tasks() == old(self).n_tasks(),
            r is Ok <==> old(self).task(id).state is Idle && !holds_task(
                old(self).timer_of().entries_seq(),
                id,
            ),
            r is Err ==> *final(self) == *old(self) && r == Err::<(), SpawnError>(
                SpawnError::AlreadyScheduled,
            ),
            r is Ok ==> final(self).timer_of().entries_seq() == old(self).timer_of().entries_seq().insert(
                insert_pos(old(self).timer_of().entries_seq(), deadline),
                (PendingActivation { task: id, deadline }),
            ) && final(self).dispatcher_of() == old(self).dispatcher_of()
                && final(self).now_of() == old(self).now_of()
                && final(self).clock_of().armed_deadline()
                == final(self).timer_of().spec_next_deadline(),
    {
        let idle: bool = match self.dispatcher.task_state(id) {
            TaskState::Idle => true,
            _ => false,
        };
        if !idle {
            return Err(SpawnError::AlreadyScheduled);
        }
        match self.timer.insert(id, deadline) {
            Err(e) => Err(e),
            Ok(()) => {
                match self.timer.next_deadline() {
                    Some(d) => self.clock.arm(d),
                    None => self.clock.disarm(),
                }
                proof {
                    let pre = *old(self);
                    let new_entries = self.timer_of().entries_seq();
                    let p = insert_pos(pre.timer_of().entries_seq(), deadline);
                    crate::timer::lemma_insert_pos_splits(pre.timer_of().entries_seq(), deadline);
                    assert forall|k: int| 0 <= k < new_entries.len() implies (
                        #[trigger] new_entries[k]).task < self.n_tasks()
                        && self.task(new_entries[k].task).state is Idle
                        && self.task(new_entries[k].task).kind is Software by {
                        if k < p {
                            assert(new_entries[k] == pre.timer_of().entries_seq()[k]);
                        } else if k == p {
                            assert(new_entries[k].task == id);
                        } else {
                            assert(new_entries[k] == pre.timer_of().entries_seq()[k - 1]);
                        }
                    }
                }
                Ok(())
            },
        }
    }

    /// One step of timer-interrupt service: removes the nearest due
    /// activation, hands the task to the dispatcher (it becomes pending,
    /// awaiting dispatch by priority), and re-arms the clock to the new
    /// nearest deadline (or disarms it when none remains). Returns `None`
    /// and changes nothing when nothing is due; the caller repeats until
    /// then.
    pub fn timer_service_step(&mut self) -> (r: Option<TaskId>)
        requires
            old(self).wf(),
        ensures
            final(self).wf(),
            final(self).n_tasks() == old(self).n_tasks(),
            final(self).now_of() == old(self).now_of(),
            r is None ==> *final(self) == *old(self) && (old(self).timer_of().entries_seq().len()
                > 0 ==> old(self).timer_of().entries_seq()[0].deadline > old(self).now_of()),
            r matches Some(id) ==> {
                &&& old(self).timer_of().entries_seq().len() > 0
                &&& id == old(self).timer_of().entries_seq()[0].task
                &&& old(self).timer_of().entries_seq()[0].deadline <= old(self).now_of()
                &&& final(self).timer_of().entries_seq() == old(self).timer_of().entries_seq().drop_first()
                &&& final(self).dispatcher_of().tasks_seq() == old(self).dispatcher_of().tasks_seq().update(
                    id as int,
                    (Task { state: TaskState::Pending, ..old(self).task(id) }),
                )
                &&& final(self).dispatcher_of().pending_seq() == old(self).dispatcher_of().pending_seq().push(id)
                &&& final(self).dispatcher_of().stack_seq() == old(self).dispatcher_of().stack_seq()
            },
    {
        let due = self.timer.pop_due(self.clock.now());
        match due {
            None => None,
            Some(e) => {
                let id = e.task;
                proof {
                    assert(old(self).timer_of().entries_seq()[0] == e);
                    assert(old(self).task(id).state is Idle);
                    assert(old(self).task(id).kind is Software);
                }
                let r = self.dispatcher.activate(id);
                proof {
                    assert(r is Ok);
                }
                match self.timer.next_deadline() {
                    Some(d) => self.clock.arm(d),
                    None => self.clock.disarm(),
                }
                proof {
                    let pre = *old(self);
                    let rest = pre.timer_of().entries_seq().drop_first();
                    assert forall|k: int| 0 <= k < self.timer_of().entries_seq().len() implies (
                        #[trigger] self.timer_of().entries_seq()[k]).task < self.n_tasks()
                        && self.task(self.timer_of().entries_seq()[k].task).state is Idle
                        && self.task(self.timer_of().entries_seq()[k].task).kind is Software by {
                        assert(self.timer_of().entries_seq()[k] == pre.timer_of().entries_seq()[k
                            + 1]);
                        let t = pre.timer_of().entries_seq()[k + 1].task;
                        assert(t != id);
                        assert(self.task(t) == pre.task(t));
                    }
                }
                Some(id)
            },
        }
    }

    /// Full timer-interrupt service: pops every activation whose
    /// deadline has been reached and hands each to the dispatcher, in
    /// deadline order, then leaves the clock armed with the nearest
    /// remaining deadline (or disarmed). Returns the activated tasks in
    /// the order they came due; tasks not handed out keep their state.
    pub fn service_timer(&mut self) -> (got: Vec<TaskId>)
        requires
            old(self).wf(),
        ensures
            final(self).wf(),
            final(self).n_tasks() == old(self).n_tasks(),
            final(self).now_of() == old(self).now_of(),
            got@.len() == insert_pos(old(self).timer_of().entries_seq(), old(self).now_of()),
            forall|i: int|
                0 <= i < got@.len() ==> #[trigger] got@[i] == old(self).timer_of().entries_seq()[i].task,
            final(self).timer_of().entries_seq() == old(self).timer_of().entries_seq().skip(
                got@.len() as int,
            ),
            final(self).timer_of().entries_seq().len() > 0 ==> final(self).timer_of().entries_seq()[0].deadline > old(self).now_of(),
            final(self).dispatcher_of().pending_seq() == old(self).dispatcher_of().pending_seq()
                + got@,
            final(self).dispatcher_of().stack_seq() == old(self).dispatcher_of().stack_seq(),
            forall|i: int|
                0 <= i < got@.len() ==> final(self).task(#[trigger] got@[i]).state is Pending,
            forall|t: TaskId|
                t < old(self).n_tasks() && !got@.contains(t) ==> final(self).task(t) == old(self).task(t),
    {
        let ghost pre = *old(self);
        let mut got: Vec<TaskId> = Vec::new();
        loop
            invariant
                pre.wf(),
                self.wf(),
                self.n_tasks() == pre.n_tasks(),
                self.now_of() == pre.now_of(),
                got@.len() <= pre.timer_of().entries_seq().len(),
                forall|i: int|
                    0 <= i < got@.len() ==> #[trigger] got@[i]
                        == pre.timer_of().entries_seq()[i].task,
                forall|i: int|
                    0 <= i < got@.len()
                        ==> (#[trigger] pre.timer_of().entries_seq()[i]).deadline
                        <= pre.now_of(),
                self.timer_of().entries_seq() == pre.timer_of().entries_seq().skip(
                    got@.len() as int,
                ),
                self.dispatcher_of().pending_seq() == pre.dispatcher_of().pending_seq() + got@,
                self.dispatcher_of().stack_seq() == pre.dispatcher_of().stack_seq(),
                forall|i: int|
                    0 <= i < got@.len() ==> self.task(#[trigger] got@[i]).state is Pending,
                forall|t: TaskId|
                    t < pre.n_tasks() && !got@.contains(t) ==> self.task(t) == pre.task(t),
            ensures
                self.wf(),
                self.n_tasks() == pre.n_tasks(),
                self.now_of() == pre.now_of(),
                got@.len() <= pre.timer_of().entries_seq().len(),
                forall|i: int|
                    0 <= i < got@.len() ==> #[trigger] got@[i]
                        == pre.timer_of().entries_seq()[i].task,
                forall|i: int|
                    0 <= i < got@.len()
                        ==> (#[trigger] pre.timer_of().entries_seq()[i]).deadline
                        <= pre.now_of(),
                self.timer_of().entries_seq() == pre.timer_of().entries_seq().skip(
                    got@.len() as int,
                ),
                self.timer_of().entries_seq().len() > 0
                    ==> self.timer_of().entries_seq()[0].deadline > pre.now_of(),
                self.dispatcher_of().pending_seq() == pre.dispatcher_of().pending_seq() + got@,
                self.dispatcher_of().stack_seq() == pre.dispatcher_of().stack_seq(),
                forall|i: int|
                    0 <= i < got@.len() ==> self.task(#[trigger] got@[i]).state is Pending,
                forall|t: TaskId|
                    t < pre.n_tasks() && !got@.contains(t) ==> self.task(t) == pre.task(t),
            decreases self.timer_of().entries_seq().len(),
        {
            let ghost before = *self;
            let ghost got0 = got@;
            let ghost k = got@.len() as int;
            match self.timer_service_step() {
                Some(id) => {
                    got.push(id);
                    proof {
                        assert(before.timer_of().entries_seq()[0]
                            == pre.timer_of().entries_seq()[k]);
                        assert(self.timer_of().entries_seq() =~= pre.timer_of().entries_seq().skip(
                            k + 1,
                        ));
                        assert(self.dispatcher_of().pending_seq() =~= pre.dispatcher_of().pending_seq()
                            + got@);
                        assert forall|t: TaskId|
                            t < pre.n_tasks() && !got@.contains(t) implies self.task(t) == pre.task(
                            t,
                        ) by {
                            assert(got@[k] == id);
                            assert(t != id);
                            assert(!got0.contains(t)) by {
                                if got0.contains(t) {
                                    let j = choose|j: int| 0 <= j < got0.len() && got0[j] == t;
                                    assert(got@[j] == t);
                                }
                            }
                            assert(before.task(t) == pre.task(t));
                        }
                        assert forall|i: int| 0 <= i < got@.len() implies self.task(
                            #[trigger] got@[i],
                        ).state is Pending by {
                            if i < k {
                                // an id handed out earlier does not come due again:
                                // a pending task never also sits in the timer queue
                                assert(got@[i] == got0[i]);
                                assert(before.task(got0[i]).state is Pending);
                                if got0[i] == id {
                                    assert(before.timer_of().entries_seq()[0].task == id);
                                    assert(before.task(id).state is Idle);
                                }
                                assert(got0[i] != id);
                                assert(self.task(got@[i]) == before.task(got0[i]));
                            } else {
                                assert(got@[i] == id);
                                assert(self.task(id).state is Pending);
                            }
                        }
                    }
                },
                None => {
                    break;
                },
            }
        }
        proof {
            crate::timer::lemma_insert_pos_splits(pre.timer_of().entries_seq(), pre.now_of());
            let p = insert_pos(pre.timer_of().entries_seq(), pre.now_of());
            let k = got@.len() as int;
            if k < p {
                assert(pre.timer_of().entries_seq()[k].deadline <= pre.now_of());
                assert(self.timer_of().entries_seq()[0] == pre.timer_of().entries_seq()[k]);
            }
            if p < k {
                assert(pre.timer_of().entries_seq()[p].deadline <= pre.now_of());
            }
            assert(k == p);
        }
        got
    }

    /// Hands the processor to the most urgent pending task if it may
    /// preempt the running one; see [`Dispatcher::dispatch_next`].
    pub fn dispatch_next(&mut self) -> (r: Option<TaskId>)
        requires
            old(self).wf(),
        ensures
            final(self).wf(),
            final(self).timer_of() == old(self).timer_of(),
            final(self).clock_of() == old(self).clock_of(),
            r is Some <==> exists|k: int|
                0 <= k < old(self).dispatcher_of().pending_seq().len() && (
                #[trigger] old(self).dispatcher_of().prio_of(
                    old(self).dispatcher_of().pending_seq()[k],
                )) as int > old(self).dispatcher_of().running_priority(),
            r is None ==> *final(self) == *old(self),
            r matches Some(id) ==> {
                &&& id < old(self).n_tasks()
                &&& old(self).task(id).state is Pending
                &&& forall|m: int|
                    0 <= m < old(self).dispatcher_of().pending_seq().len() ==> (#[trigger] old(self).dispatcher_of().prio_of(old(self).dispatcher_of().pending_seq()[m])) <= old(self).dispatcher_of().prio_of(id)
                &&& old(self).dispatcher_of().prio_of(id) as int > old(self).dispatcher_of().running_priority()
                &&& final(self).dispatcher_of().stack_seq() == old(self).dispatcher_of().stack_seq().push(id)
                &&& final(self).dispatcher_of().tasks_seq() == old(self).dispatcher_of().tasks_seq().update(
                    id as int,
                    (Task {
                        state: TaskState::Running,
                        irq_pending: false,
                        ..old(self).task(id)
                    }),
                )
                &&& final(self).dispatcher_of().spec_current() == Some(id)
            },
    {
        let r = self.dispatcher.dispatch_next();
        proof {
            if r is Some {
                self.lemma_timer_entries_untouched(*old(self));
            }
        }
        r
    }

    /// The interrupt source bound to hardware task `id` fired; see
    /// [`Dispatcher::interrupt`].
    pub fn interrupt(&mut self, id: TaskId) -> (activated: bool)
        requires
            old(self).wf(),
            id < old(self).n_tasks(),
            old(self).task(id).kind is Hardware,
        ensures
            final(self).wf(),
            final(self).n_tasks() == old(self).n_tasks(),
            final(self).timer_of() == old(self).timer_of(),
            final(self).clock_of() == old(self).clock_of(),
            activated <==> old(self).task(id).state is Idle,
            final(self).task(id).irq_pending,
            activated ==> final(self).dispatcher_of().pending_seq() == old(self).dispatcher_of().pending_seq().push(id),
    {
        let activated = self.dispatcher.interrupt(id);
        proof {
            self.lemma_timer_entries_untouched(*old(self));
        }
        activated
    }

    /// The current task completed; see [`Dispatcher::complete`].
    pub fn complete(&mut self) -> (id: TaskId)
        requires
            old(self).wf(),
            old(self).dispatcher_of().stack_seq().len() > 0,
        ensures
            final(self).wf(),
            final(self).n_tasks() == old(self).n_tasks(),
            final(self).timer_of() == old(self).timer_of(),
            final(self).clock_of() == old(self).clock_of(),
            id == old(self).dispatcher_of().stack_seq().last(),
            final(self).dispatcher_of().stack_seq() == old(self).dispatcher_of().stack_seq().drop_last(),
            final(self).task(id).state is Idle,
            final(self).dispatcher_of().tasks_seq() == old(self).dispatcher_of().tasks_seq().update(
                id as int,
                (Task { state: TaskState::Idle, ..old(self).task(id) }),
            ),
            final(self).dispatcher_of().pending_seq() == old(self).dispatcher_of().pending_seq(),
    {
        let id = self.dispatcher.complete();
        proof {
            self.lemma_timer_entries_untouched(*old(self));
        }
        id
    }

    /// The current software task reached a wait point; see
    /// [`Dispatcher::suspend_current`].
    pub fn suspend_current(&mut self) -> (id: TaskId)
        requires
            old(self).wf(),
            old(self).dispatcher_of().stack_seq().len() > 0,
            old(self).task(old(self).dispatcher_of().stack_seq().last()).kind is Software,
        ensures
            final(self).wf(),
            final(self).n_tasks() == old(self).n_tasks(),
            final(self).timer_of() == old(self).timer_of(),
            final(self).clock_of() == old(self).clock_of(),
            id == old(self).dispatcher_of().stack_seq().last(),
            final(self).dispatcher_of().stack_seq() == old(self).dispatcher_of().stack_seq().drop_last(),
            final(self).task(id).state is Suspended,
            final(self).dispatcher_of().tasks_seq() == old(self).dispatcher_of().tasks_seq().update(
                id as int,
                (Task { state: TaskState::Suspended, ..old(self).task(id) }),
            ),
            final(self).dispatcher_of().pending_seq() == old(self).dispatcher_of().pending_seq(),
    {
        let id = self.dispatcher.suspend_current();
        proof {
            self.lemma_timer_entries_untouched(*old(self));
        }
        id
    }

    /// Wakes the suspended software task `id`; see [`Dispatcher::wake`].
    pub fn wake(&mut self, id: TaskId)
        requires
            old(self).wf(),
            id < old(self).n_tasks(),
            old(self).task(id).state is Suspended,
        ensures
            final(self).wf(),
            final(self).n_tasks() == old(self).n_tasks(),
            final(self).timer_of() == old(self).timer_of(),
            final(self).clock_of() == old(self).clock_of(),
            final(self).task(id).state is Pending,
            final(self).dispatcher_of().tasks_seq() == old(self).dispatcher_of().tasks_seq().update(
                id as int,
                (Task { state: TaskState::Pending, ..old(self).task(id) }),
            ),
            final(self).dispatcher_of().pending_seq() == old(self).dispatcher_of().pending_seq().push(id),
            final(self).dispatcher_of().stack_seq() == old(self).dispatcher_of().stack_seq(),
    {
        self.dispatcher.wake(id);
        proof {
            self.lemma_timer_entries_untouched(*old(self));
        }
    }

    /// The current lifecycle state of task `id`.
    pub fn task_state(&self, id: TaskId) -> (s: TaskState)
        requires
            id < self.n_tasks(),
        ensures
            s == self.task(id).state,
    {
        self.dispatcher.task_state(id)
    }

    /// Whether hardware task `id`'s interrupt source has an uncleared
    /// pending condition.
    pub fn irq_is_pending(&self, id: TaskId) -> (r: bool)
        requires
            id < self.n_tasks(),
        ensures
            r == self.task(id).irq_pending,
    {
        self.dispatcher.irq_is_pending(id)
    }

    /// Re-establishes the timer part of the invariant after a dispatcher
    /// transition that touched no idle task.
    proof fn lemma_timer_entries_untouched(self, pre: Scheduler)
        requires
            pre.wf(),
            self.timer_of() == pre.timer_of(),
            self.clock_of().armed_deadline() == pre.clock_of().armed_deadline(),
            self.n_tasks() == pre.n_tasks(),
            forall|t: TaskId|
                t < pre.n_tasks() && (#[trigger] pre.task(t).state) is Idle && pre.task(
                    t,
                ).kind is Software ==> self.task(t) == pre.task(t),
            self.dispatcher_of().wf(),
        ensures
            self.wf(),
    {
        assert forall|k: int| 0 <= k < self.timer_of().entries_seq().len() implies (
            #[trigger] self.timer_of().entries_seq()[k]).task < self.n_tasks()
            && self.task(self.timer_of().entries_seq()[k].task).state is Idle
            && self.task(self.timer_of().entries_seq()[k].task).kind is Software by {
            let t = pre.timer_of().entries_seq()[k].task;
            assert(pre.task(t).state is Idle);
            assert(self.task(t) == pre.task(t));
        }
    }
}

/// Law: the nearest deadline is always the one armed, so the timer
/// interrupt fires exactly when the nearest pending delayed activation
/// has come due — the single hardware compare register never misses the
/// next activation.
pub proof fn lemma_fired_iff_nearest_due(s: Scheduler)
    requires
        s.wf(),
    ensures
        s.clock_of().spec_fired() <==> s.timer_of().entries_seq().len() > 0
            && s.timer_of().entries_seq()[0].deadline <= s.now_of(),
{
}

} // verus!
