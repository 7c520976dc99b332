//! Task dispatcher: statically declared tasks, priority-based preemption.
//!
//! Every task is declared once at initialization with a fixed priority
//! and a kind. A hardware-bound task is activated by its interrupt signal
//! and runs to completion without suspending; a software task is
//! activated by an explicit spawn and may suspend at well-defined points.
//! Activated tasks wait in arrival order on the pending list; the
//! processor itself is modeled by the run stack, whose entries carry
//! strictly increasing priorities: the top is the task executing now,
//! everything below it has been preempted by strictly more urgent work
//! and resumes only when the stack above it drains.

use vstd::prelude::*;

verus! {

use crate::{Priority, SpawnError, TaskId};

/// What kind of activation a task answers to.
#[derive(Clone, Copy, PartialEq, Eq, Structural, Debug)]
pub enum TaskKind {
    /// Bound to an interrupt source; runs once per signal, to completion.
    Hardware,
    /// Activated by an explicit spawn; may suspend and resume.
    Software,
}

/// Where a task stands in its activation lifecycle.
#[derive(Clone, Copy, PartialEq, Eq, Structural, Debug)]
pub enum TaskState {
    /// Not activated; may be spawned or triggered.
    Idle,
    /// Activation requested; waiting for the dispatcher.
    Pending,
    /// On the run stack: executing, or preempted by higher priority.
    Running,
    /// A software task parked at a wait point, holding its progress.
    Suspended,
}

/// One statically declared task.
#[derive(Clone, Copy, PartialEq, Eq, Structural, Debug)]
pub struct Task {
    /// Hardware-bound or software.
    pub kind: TaskKind,
    /// Fixed priority; a larger number is more urgent.
    pub priority: Priority,
    /// Current lifecycle state.
    pub state: TaskState,
    /// For a hardware task: whether its interrupt source has a pending
    /// condition that the next activation must clear.
    pub irq_pending: bool,
}

/// Whether no task id appears twice in `s`.
pub open spec fn unique_ids(s: Seq<TaskId>) -> bool {
    forall|i: int, j: int| 0 <= i < j < s.len() ==> #[trigger] s[i] != #[trigger] s[j]
}

/// The dispatcher: the task table, the arrival-ordered pending list, and
/// the preemption stack.
pub struct Dispatcher {
    tasks: Vec<Task>,
    pending: Vec<TaskId>,
    run_stack: Vec<TaskId>,
}

impl Dispatcher {
    /// The task table; a task's id is its index here.
    pub closed spec fn tasks_seq(self) -> Seq<Task> {
        self.tasks@
    }

    /// Activated tasks awaiting dispatch, in arrival order.
    pub closed spec fn pending_seq(self) -> Seq<TaskId> {
        self.pending@
    }

    /// The preemption stack; the last entry is executing now.
    pub closed spec fn stack_seq(self) -> Seq<TaskId> {
        self.run_stack@
    }

    /// The number of declared tasks.
    pub open spec fn n_tasks(self) -> nat {
        self.tasks_seq().len()
    }

    /// The declared task with id `t`.
    pub open spec fn task(self, t: TaskId) -> Task {
        self.tasks_seq()[t as int]
    }

    /// The priority of task `t`.
    pub open spec fn prio_of(self, t: TaskId) -> Priority {
        self.task(t).priority
    }

    /// The task executing now: the top of the run stack.
    pub open spec fn spec_current(self) -> Option<TaskId> {
        if self.stack_seq().len() == 0 {
            None
        } else {
            Some(self.stack_seq().last())
        }
    }

    /// The priority the processor is busy at; below every task priority
    /// when nothing runs.
    pub open spec fn running_priority(self) -> int {
        if self.stack_seq().len() == 0 {
            -1
        } else {
            self.prio_of(self.stack_seq().last()) as int
        }
    }

    /// The dispatcher's invariant. Pending-list entries are exactly the
    /// tasks in state `Pending`, in arrival order and without duplicates;
    /// run-stack entries are exactly the tasks in state `Running`, with
    /// strictly increasing priorities (each entry preempted the one below
    /// it, so no two tasks of equal priority ever run concurrently).
    pub open spec fn wf(self) -> bool {
        &&& forall|k: int|
            0 <= k < self.pending_seq().len() ==> (#[trigger] self.pending_seq()[k]) < self.n_tasks()
                && self.task(self.pending_seq()[k]).state is Pending
        &&& forall|k: int|
            0 <= k < self.stack_seq().len() ==> (#[trigger] self.stack_seq()[k]) < self.n_tasks()
                && self.task(self.stack_seq()[k]).state is Running
        &&& forall|t: TaskId|
            t < self.n_tasks() && (#[trigger] self.task(t).state) is Pending
                ==> self.pending_seq().contains(t)
        &&& forall|t: TaskId|
            t < self.n_tasks() && (#[trigger] self.task(t).state) is Running
                ==> self.stack_seq().contains(t)
        &&& unique_ids(self.pending_seq())
        &&& forall|i: int, j: int|
            0 <= i < j < self.stack_seq().len()
                ==> (#[trigger] self.prio_of(self.stack_seq()[i]))
                < (#[trigger] self.prio_of(self.stack_seq()[j]))
    }

    /// A dispatcher with no tasks declared.
    pub fn new() -> (d: Self)
        ensures
            d.wf(),
            d.tasks_seq() == Seq::<Task>::empty(),
            d.pending_seq() == Seq::<TaskId>::empty(),
            d.stack_seq() == Seq::<TaskId>::empty(),
    {
        Dispatcher { tasks: Vec::new(), pending: Vec::new(), run_stack: Vec::new() }
    }

    /// Declares a task with the given kind and fixed priority; its id is
    /// its index in the table. All declarations happen at initialization,
    /// before any activation.
    pub fn add_task(&mut self, kind: TaskKind, priority: Priority) -> (id: TaskId)
        requires
            old(self).wf(),
            old(self).n_tasks() < usize::MAX,
        ensures
            final(self).wf(),
            id == old(self).n_tasks(),
            final(self).tasks_seq() == old(self).tasks_seq().push(
                (Task { kind, priority, state: TaskState::Idle, irq_pending: false }),
            ),
            final(self).pending_seq() == old(self).pending_seq(),
            final(self).stack_seq() == old(self).stack_seq(),
    {
        let id = self.tasks.len();
        self.tasks.push(Task { kind, priority, state: TaskState::Idle, irq_pending: false });
        proof {
            assert forall|k: int| 0 <= k < self.pending_seq().len() implies (
                #[trigger] self.pending_seq()[k]) < self.n_tasks()
                && self.task(self.pending_seq()[k]).state is Pending by {
                assert(self.task(self.pending_seq()[k]) == old(self).task(old(self).pending_seq()[k]));
            }
            assert forall|k: int| 0 <= k < self.stack_seq().len() implies (
                #[trigger] self.stack_seq()[k]) < self.n_tasks()
                && self.task(self.stack_seq()[k]).state is Running by {
                assert(self.task(self.stack_seq()[k]) == old(self).task(old(self).stack_seq()[k]));
            }
            assert forall|i: int, j: int| 0 <= i < j < self.stack_seq().len() implies (
                #[trigger] self.prio_of(self.stack_seq()[i])) < (#[trigger] self.prio_of(
                self.stack_seq()[j],
            )) by {
                assert(self.task(self.stack_seq()[i]) == old(self).task(old(self).stack_seq()[i]));
                assert(self.task(self.stack_seq()[j]) == old(self).task(old(self).stack_seq()[j]));
                assert(old(self).prio_of(old(self).stack_seq()[i]) < old(self).prio_of(
                    old(self).stack_seq()[j],
                ));
            }
            assert forall|t: TaskId|
                t < self.n_tasks() && (#[trigger] self.task(t).state) is Pending implies self
                .pending_seq().contains(t) by {
                assert(t < old(self).n_tasks());
                assert(old(self).task(t).state is Pending);
            }
            assert forall|t: TaskId|
                t < self.n_tasks() && (#[trigger] self.task(t).state) is Running implies self
                .stack_seq().contains(t) by {
                assert(t < old(self).n_tasks());
                assert(old(self).task(t).state is Running);
            }
        }
        id
    }

    /// The current lifecycle state of task `id`.
    pub fn task_state(&self, id: TaskId) -> (s: TaskState)
        requires
            id < self.n_tasks(),
        ensures
            s == self.task(id).state,
    {
        self.tasks[id].state
    }

    /// The declared kind of task `id`.
    pub fn task_kind(&self, id: TaskId) -> (k: TaskKind)
        requires
            id < self.n_tasks(),
        ensures
            k == self.task(id).kind,
    {
        self.tasks[id].kind
    }

    /// The declared priority of task `id`.
    pub fn task_priority(&self, id: TaskId) -> (p: Priority)
        requires
            id < self.n_tasks(),
        ensures
            p == self.prio_of(id),
    {
        self.tasks[id].priority
    }

    /// Whether task `id`'s interrupt source has an uncleared pending
    /// condition.
    pub fn irq_is_pending(&self, id: TaskId) -> (r: bool)
        requires
            id < self.n_tasks(),
        ensures
            r == self.task(id).irq_pending,
    {
        self.tasks[id].irq_pending
    }

    /// The number of declared tasks.
    pub fn task_count(&self) -> (n: usize)
        ensures
            n as nat == self.n_tasks(),
    {
        self.tasks.len()
    }

    /// The task executing now, if any.
    pub fn current(&self) -> (r: Option<TaskId>)
        ensures
            r == self.spec_current(),
    {
        if self.run_stack.len() == 0 {
            None
        } else {
            Some(self.run_stack[self.run_stack.len() - 1])
        }
    }
    /// Requests activation of the software task `id`. The task is a
    /// singleton: a request while it is anything but idle fails with
    /// `AlreadyScheduled` and changes nothing.
    pub fn activate(&mut self, id: TaskId) -> (r: Result<(), SpawnError>)
        requires
            old(self).wf(),
            id < old(self).n_tasks(),
            old(self).task(id).kind is Software,
        ensures
            final(self).wf(),
            final(self).n_tasks() == old(self).n_tasks(),
            r is Err <==> !(old(self).task(id).state is Idle),
            r is Err ==> *final(self) == *old(self) && r == Err::<(), SpawnError>(
                SpawnError::AlreadyScheduled,
            ),
            r is Ok ==> final(self).tasks_seq() == old(self).tasks_seq().update(
                id as int,
                (Task { state: TaskState::Pending, ..old(self).task(id) }),
            ) && final(self).pending_seq() == old(self).pending_seq().push(id)
                && final(self).stack_seq() == old(self).stack_seq(),
    {
        match self.tasks[id].state {
            TaskState::Idle => {
                let mut t = self.tasks[id];
                t.state = TaskState::Pending;
                self.tasks.set(id, t);
                self.pending.push(id);
                proof {
                    self.lemma_wf_after_list_entry(*old(self), id);
                }
                Ok(())
            },
            _ => Err(SpawnError::AlreadyScheduled),
        }
    }

    /// Wakes the suspended software task `id`: its wait condition is
    /// satisfied, so it rejoins the pending list in arrival order.
    pub fn wake(&mut self, id: TaskId)
        requires
            old(self).wf(),
            id < old(self).n_tasks(),
            old(self).task(id).state is Suspended,
        ensures
            final(self).wf(),
            final(self).n_tasks() == old(self).n_tasks(),
            final(self).tasks_seq() == old(self).tasks_seq().update(
                id as int,
                (Task { state: TaskState::Pending, ..old(self).task(id) }),
            ),
            final(self).pending_seq() == old(self).pending_seq().push(id),
            final(self).stack_seq() == old(self).stack_seq(),
    {
        let mut t = self.tasks[id];
        t.state = TaskState::Pending;
        self.tasks.set(id, t);
        self.pending.push(id);
        proof {
            self.lemma_wf_after_list_entry(*old(self), id);
        }
    }

    /// The interrupt source bound to hardware task `id` fired: its
    /// pending condition is set, and the task is activated unless an
    /// earlier activation has not yet run (no re-entry: the signal is
    /// latched, the handler instance is not queued twice).
    pub fn interrupt(&mut self, id: TaskId) -> (activated: bool)
        requires
            old(self).wf(),
            id < old(self).n_tasks(),
            old(self).task(id).kind is Hardware,
        ensures
            final(self).wf(),
            final(self).n_tasks() == old(self).n_tasks(),
            activated <==> old(self).task(id).state is Idle,
            final(self).task(id).irq_pending,
            activated ==> final(self).tasks_seq() == old(self).tasks_seq().update(
                id as int,
                (Task { state: TaskState::Pending, irq_pending: true, ..old(self).task(id) }),
            ) && final(self).pending_seq() == old(self).pending_seq().push(id)
                && final(self).stack_seq() == old(self).stack_seq(),
            !activated ==> final(self).tasks_seq() == old(self).tasks_seq().update(
                id as int,
                (Task { irq_pending: true, ..old(self).task(id) }),
            ) && final(self).pending_seq() == old(self).pending_seq()
                && final(self).stack_seq() == old(self).stack_seq(),
    {
        let mut t = self.tasks[id];
        t.irq_pending = true;
        match t.state {
            TaskState::Idle => {
                t.state = TaskState::Pending;
                self.tasks.set(id, t);
                self.pending.push(id);
                proof {
                    self.lemma_wf_after_list_entry(*old(self), id);
                }
                true
            },
            _ => {
                self.tasks.set(id, t);
                proof {
                    self.lemma_wf_after_flag_only(*old(self), id);
                }
                false
            },
        }
    }

    /// Hands the processor to the most urgent pending task, if it may
    /// preempt: the returned task has the highest pending priority (the
    /// earliest-arrived among equals), strictly above the priority the
    /// processor is busy at. Starting a task clears its interrupt pending
    /// condition, exactly once per activation. Returns `None`, changing
    /// nothing, exactly when no pending task exceeds the running
    /// priority.
    pub fn dispatch_next(&mut self) -> (r: Option<TaskId>)
        requires
            old(self).wf(),
        ensures
            final(self).wf(),
            final(self).n_tasks() == old(self).n_tasks(),
            r is Some <==> exists|k: int|
                0 <= k < old(self).pending_seq().len() && (#[trigger] old(self).prio_of(
                    old(self).pending_seq()[k],
                )) as int > old(self).running_priority(),
            r is None ==> *final(self) == *old(self),
            r matches Some(id) ==> exists|k: int|
                {
                    &&& 0 <= k < old(self).pending_seq().len()
                    &&& old(self).pending_seq()[k] == id
                    &&& forall|m: int|
                        0 <= m < k ==> (#[trigger] old(self).prio_of(old(self).pending_seq()[m]))
                            < old(self).prio_of(id)
                    &&& final(self).pending_seq() == old(self).pending_seq().remove(k)
                },
            r matches Some(id) ==> {
                &&& id < old(self).n_tasks()
                &&& old(self).task(id).state is Pending
                &&& forall|m: int|
                    0 <= m < old(self).pending_seq().len() ==> (#[trigger] old(self).prio_of(
                        old(self).pending_seq()[m],
                    )) <= old(self).prio_of(id)
                &&& old(self).prio_of(id) as int > old(self).running_priority()
                &&& final(self).stack_seq() == old(self).stack_seq().push(id)
                &&& final(self).tasks_seq() == old(self).tasks_seq().update(
                    id as int,
                    (Task {
                        state: TaskState::Running,
                        irq_pending: false,
                        ..old(self).task(id)
                    }),
                )
                &&& final(self).spec_current() == Some(id)
            },
    {
        let n = self.pending.len();
        if n == 0 {
            return None;
        }
        let mut best_i: usize = 0;
        let mut best_p: Priority = self.tasks[self.pending[0]].priority;
        let mut i: usize = 1;
        while i < n
            invariant
                self.wf(),
                n as nat == self.pending_seq().len(),
                0 <= best_i < i <= n,
                best_p == self.prio_of(self.pending_seq()[best_i as int]),
                forall|m: int|
                    0 <= m < i ==> (#[trigger] self.prio_of(self.pending_seq()[m])) <= best_p,
                forall|m: int|
                    0 <= m < best_i ==> (#[trigger] self.prio_of(self.pending_seq()[m])) < best_p,
            decreases n - i,
        {
            let t = self.pending[i];
            let p = self.tasks[t].priority;
            if p > best_p {
                best_i = i;
                best_p = p;
            }
            i = i + 1;
        }
        let preempt: bool = if self.run_stack.len() == 0 {
            true
        } else {
            let top = self.run_stack[self.run_stack.len() - 1];
            best_p > self.tasks[top].priority
        };
        if !preempt {
            return None;
        }
        let id = self.pending.remove(best_i);
        let mut t = self.tasks[id];
        t.state = TaskState::Running;
        t.irq_pending = false;
        self.tasks.set(id, t);
        self.run_stack.push(id);
        proof {
            let pre = *old(self);
            let p = best_i as int;
            lemma_remove_contains(pre.pending_seq(), p);
            lemma_push_contains(pre.stack_seq(), id);
            assert forall|k: int| 0 <= k < self.pending_seq().len() implies (
                #[trigger] self.pending_seq()[k]) < self.n_tasks()
                && self.task(self.pending_seq()[k]).state is Pending by {
                let k0 = if k < p {
                    k
                } else {
                    k + 1
                };
                assert(self.pending_seq()[k] == pre.pending_seq()[k0]);
                assert(pre.pending_seq()[k0] != id);
            }
            assert forall|k: int| 0 <= k < self.stack_seq().len() implies (
                #[trigger] self.stack_seq()[k]) < self.n_tasks()
                && self.task(self.stack_seq()[k]).state is Running by {
                if k < pre.stack_seq().len() {
                    assert(self.stack_seq()[k] == pre.stack_seq()[k]);
                    assert(pre.task(pre.stack_seq()[k]).state is Running);
                } else {
                    assert(self.stack_seq()[k] == id);
                }
            }
            assert forall|t2: TaskId|
                t2 < self.n_tasks() && (#[trigger] self.task(t2).state) is Pending implies self
                .pending_seq().contains(t2) by {
                assert(t2 != id);
                assert(pre.task(t2).state is Pending);
                assert(pre.pending_seq().contains(t2));
            }
            assert forall|t2: TaskId|
                t2 < self.n_tasks() && (#[trigger] self.task(t2).state) is Running implies self
                .stack_seq().contains(t2) by {
                if t2 != id {
                    assert(pre.task(t2).state is Running);
                    assert(pre.stack_seq().contains(t2));
                }
            }
            assert forall|a: int, b: int| 0 <= a < b < self.stack_seq().len() implies (
                #[trigger] self.prio_of(self.stack_seq()[a])) < (#[trigger] self.prio_of(
                self.stack_seq()[b],
            )) by {
                if b < pre.stack_seq().len() {
                    assert(self.stack_seq()[a] == pre.stack_seq()[a]);
                    assert(self.stack_seq()[b] == pre.stack_seq()[b]);
                    assert(pre.prio_of(pre.stack_seq()[a]) < pre.prio_of(pre.stack_seq()[b]));
                    assert(pre.stack_seq()[a] != id && pre.stack_seq()[b] != id);
                } else {
                    assert(self.stack_seq()[b] == id);
                    if pre.stack_seq().len() > 0 {
                        let last = pre.stack_seq().len() - 1;
                        assert(self.stack_seq()[a] == pre.stack_seq()[a]);
                        assert(pre.stack_seq()[a] != id);
                        if a < last {
                            assert(pre.prio_of(pre.stack_seq()[a]) < pre.prio_of(
                                pre.stack_seq()[last],
                            ));
                        }
                    }
                }
            }
        }
        Some(id)
    }

    /// The current task's entry point returned: it leaves the processor
    /// and goes idle; the task it had preempted (if any) is current
    /// again.
    pub fn complete(&mut self) -> (id: TaskId)
        requires
            old(self).wf(),
            old(self).stack_seq().len() > 0,
        ensures
            final(self).wf(),
            final(self).n_tasks() == old(self).n_tasks(),
            id == old(self).stack_seq().last(),
            final(self).stack_seq() == old(self).stack_seq().drop_last(),
            final(self).tasks_seq() == old(self).tasks_seq().update(
                id as int,
                (Task { state: TaskState::Idle, ..old(self).task(id) }),
            ),
            final(self).pending_seq() == old(self).pending_seq(),
    {
        let id = self.leave_stack(TaskState::Idle);
        id
    }

    /// The current software task reached a wait point (a delay or an
    /// empty channel): it leaves the processor holding its progress and
    /// stays suspended until woken.
    pub fn suspend_current(&mut self) -> (id: TaskId)
        requires
            old(self).wf(),
            old(self).stack_seq().len() > 0,
            old(self).task(old(self).stack_seq().last()).kind is Software,
        ensures
            final(self).wf(),
            final(self).n_tasks() == old(self).n_tasks(),
            id == old(self).stack_seq().last(),
            final(self).stack_seq() == old(self).stack_seq().drop_last(),
            final(self).tasks_seq() == old(self).tasks_seq().update(
                id as int,
                (Task { state: TaskState::Suspended, ..old(self).task(id) }),
            ),
            final(self).pending_seq() == old(self).pending_seq(),
    {
        let id = self.leave_stack(TaskState::Suspended);
        id
    }

    /// Pops the current task off the run stack into `into_state`.
    fn leave_stack(&mut self, into_state: TaskState) -> (id: TaskId)
        requires
            old(self).wf(),
            old(self).stack_seq().len() > 0,
            !(into_state is Pending) && !(into_state is Running),
        ensures
            final(self).wf(),
            final(self).n_tasks() == old(self).n_tasks(),
            id == old(self).stack_seq().last(),
            final(self).stack_seq() == old(self).stack_seq().drop_last(),
            final(self).tasks_seq() == old(self).tasks_seq().update(
                id as int,
                (Task { state: into_state, ..old(self).task(id) }),
            ),
            final(self).pending_seq() == old(self).pending_seq(),
    {
        let id = self.run_stack.pop().unwrap();
        let mut t = self.tasks[id];
        t.state = into_state;
        self.tasks.set(id, t);
        proof {
            let pre = *old(self);
            let last = pre.stack_seq().len() - 1;
            assert forall|k: int| 0 <= k < self.stack_seq().len() implies pre.stack_seq()[k]
                != id by {
                if pre.stack_seq()[k] == id {
                    assert(pre.prio_of(pre.stack_seq()[k]) < pre.prio_of(pre.stack_seq()[last]));
                }
            }
            assert forall|k: int| 0 <= k < self.pending_seq().len() implies (
                #[trigger] self.pending_seq()[k]) < self.n_tasks()
                && self.task(self.pending_seq()[k]).state is Pending by {
                assert(pre.task(pre.pending_seq()[k]).state is Pending);
                assert(pre.pending_seq()[k] != id);
            }
            assert forall|k: int| 0 <= k < self.stack_seq().len() implies (
                #[trigger] self.stack_seq()[k]) < self.n_tasks()
                && self.task(self.stack_seq()[k]).state is Running by {
                assert(self.stack_seq()[k] == pre.stack_seq()[k]);
                assert(pre.task(pre.stack_seq()[k]).state is Running);
            }
            assert forall|t2: TaskId|
                t2 < self.n_tasks() && (#[trigger] self.task(t2).state) is Pending implies self
                .pending_seq().contains(t2) by {
                assert(t2 != id);
                assert(pre.task(t2).state is Pending);
            }
            assert forall|t2: TaskId|
                t2 < self.n_tasks() && (#[trigger] self.task(t2).state) is Running implies self
                .stack_seq().contains(t2) by {
                assert(t2 != id);
                assert(pre.task(t2).state is Running);
                let k = choose|k: int|
                    0 <= k < pre.stack_seq().len() && pre.stack_seq()[k] == t2;
                assert(k < last);
                assert(self.stack_seq()[k] == t2);
            }
            assert forall|a: int, b: int| 0 <= a < b < self.stack_seq().len() implies (
                #[trigger] self.prio_of(self.stack_seq()[a])) < (#[trigger] self.prio_of(
                self.stack_seq()[b],
            )) by {
                assert(self.stack_seq()[a] == pre.stack_seq()[a]);
                assert(self.stack_seq()[b] == pre.stack_seq()[b]);
                assert(pre.prio_of(pre.stack_seq()[a]) < pre.prio_of(pre.stack_seq()[b]));
            }
        }
        id
    }

    /// Re-establishes the invariant after task `id` went from a state
    /// outside both lists to `Pending` and joined the pending list.
    proof fn lemma_wf_after_list_entry(self, pre: Dispatcher, id: TaskId)
        requires
            pre.wf(),
            id < pre.n_tasks(),
            !(pre.task(id).state is Pending) && !(pre.task(id).state is Running),
            self.task(id).state is Pending,
            self.tasks_seq().len() == pre.tasks_seq().len(),
            forall|t: int|
                0 <= t < pre.tasks_seq().len() && t != id ==> self.tasks_seq()[t]
                    == pre.tasks_seq()[t],
            self.pending_seq() == pre.pending_seq().push(id),
            self.stack_seq() == pre.stack_seq(),
        ensures
            self.wf(),
    {
        lemma_push_contains(pre.pending_seq(), id);
        assert forall|k: int| 0 <= k < self.pending_seq().len() implies (
            #[trigger] self.pending_seq()[k]) < self.n_tasks()
            && self.task(self.pending_seq()[k]).state is Pending by {
            if k < pre.pending_seq().len() {
                assert(self.pending_seq()[k] == pre.pending_seq()[k]);
                assert(pre.task(pre.pending_seq()[k]).state is Pending);
                assert(pre.pending_seq()[k] != id);
            } else {
                assert(self.pending_seq()[k] == id);
            }
        }
        assert forall|k: int| 0 <= k < self.stack_seq().len() implies (
            #[trigger] self.stack_seq()[k]) < self.n_tasks()
            && self.task(self.stack_seq()[k]).state is Running by {
            assert(pre.task(pre.stack_seq()[k]).state is Running);
            assert(pre.stack_seq()[k] != id);
        }
        assert forall|t2: TaskId|
            t2 < self.n_tasks() && (#[trigger] self.task(t2).state) is Pending implies self
            .pending_seq().contains(t2) by {
            if t2 != id {
                assert(pre.task(t2).state is Pending);
                assert(pre.pending_seq().contains(t2));
            }
        }
        assert forall|t2: TaskId|
            t2 < self.n_tasks() && (#[trigger] self.task(t2).state) is Running implies self
            .stack_seq().contains(t2) by {
            assert(t2 != id);
            assert(pre.task(t2).state is Running);
        }
        assert forall|i: int, j: int| 0 <= i < j < self.pending_seq().len() implies (
            #[trigger] self.pending_seq()[i]) != (#[trigger] self.pending_seq()[j]) by {
            if j < pre.pending_seq().len() {
                assert(self.pending_seq()[i] == pre.pending_seq()[i]);
                assert(self.pending_seq()[j] == pre.pending_seq()[j]);
            } else {
                assert(self.pending_seq()[j] == id);
                assert(self.pending_seq()[i] == pre.pending_seq()[i]);
                assert(pre.task(pre.pending_seq()[i]).state is Pending);
            }
        }
        assert forall|i: int, j: int| 0 <= i < j < self.stack_seq().len() implies (
            #[trigger] self.prio_of(self.stack_seq()[i])) < (#[trigger] self.prio_of(
            self.stack_seq()[j],
        )) by {
            assert(pre.stack_seq()[i] != id && pre.stack_seq()[j] != id);
            assert(pre.prio_of(pre.stack_seq()[i]) < pre.prio_of(pre.stack_seq()[j]));
        }
    }

    /// Re-establishes the invariant after only a non-state field of task
    /// `id` changed.
    proof fn lemma_wf_after_flag_only(self, pre: Dispatcher, id: TaskId)
        requires
            pre.wf(),
            id < pre.n_tasks(),
            self.task(id).state == pre.task(id).state,
            self.task(id).priority == pre.task(id).priority,
            self.tasks_seq().len() == pre.tasks_seq().len(),
            forall|t: int|
                0 <= t < pre.tasks_seq().len() && t != id ==> self.tasks_seq()[t]
                    == pre.tasks_seq()[t],
            self.pending_seq() == pre.pending_seq(),
            self.stack_seq() == pre.stack_seq(),
        ensures
            self.wf(),
    {
        assert forall|t2: TaskId| t2 < self.n_tasks() implies self.task(t2).state == pre.task(
            t2,
        ).state && self.prio_of(t2) == pre.prio_of(t2) by {
            if t2 != id {
                assert(self.tasks_seq()[t2 as int] == pre.tasks_seq()[t2 as int]);
            }
        }
        assert forall|k: int| 0 <= k < self.pending_seq().len() implies (
            #[trigger] self.pending_seq()[k]) < self.n_tasks()
            && self.task(self.pending_seq()[k]).state is Pending by {
            assert(pre.task(pre.pending_seq()[k]).state is Pending);
        }
        assert forall|k: int| 0 <= k < self.stack_seq().len() implies (
            #[trigger] self.stack_seq()[k]) < self.n_tasks()
            && self.task(self.stack_seq()[k]).state is Running by {
            assert(pre.task(pre.stack_seq()[k]).state is Running);
        }
        assert forall|t2: TaskId|
            t2 < self.n_tasks() && (#[trigger] self.task(t2).state) is Pending implies self
            .pending_seq().contains(t2) by {
            assert(pre.task(t2).state is Pending);
        }
        assert forall|t2: TaskId|
            t2 < self.n_tasks() && (#[trigger] self.task(t2).state) is Running implies self
            .stack_seq().contains(t2) by {
            assert(pre.task(t2).state is Running);
        }
        assert forall|i: int, j: int| 0 <= i < j < self.stack_seq().len() implies (
            #[trigger] self.prio_of(self.stack_seq()[i])) < (#[trigger] self.prio_of(
            self.stack_seq()[j],
        )) by {
            assert(pre.prio_of(pre.stack_seq()[i]) < pre.prio_of(pre.stack_seq()[j]));
        }
    }
}

/// Law: mutual exclusion. No two tasks of equal priority are ever on the
/// run stack together, so work at one priority level runs one activation
/// at a time.
pub proof fn lemma_equal_priority_mutual_exclusion(d: Dispatcher, i: int, j: int)
    requires
        d.wf(),
        0 <= i < j < d.stack_seq().len(),
    ensures
        d.prio_of(d.stack_seq()[i]) != d.prio_of(d.stack_seq()[j]),
{
}

/// Law: preemption. A task with strictly higher-priority work above it
/// on the run stack is not the one executing; it resumes only once
/// everything above it has completed or suspended (the stack only ever
/// shrinks from the top).
pub proof fn lemma_preempted_not_current(d: Dispatcher, i: int)
    requires
        d.wf(),
        0 <= i < d.stack_seq().len() - 1,
    ensures
        d.spec_current() != Some(d.stack_seq()[i]),
{
    let last = d.stack_seq().len() - 1;
    assert(d.prio_of(d.stack_seq()[i]) < d.prio_of(d.stack_seq()[last]));
}

/// Law: no re-entry. While a hardware task's handler is on the run stack
/// it is not also awaiting dispatch, so the same activation cannot be
/// entered twice; a fresh interrupt only latches the pending condition,
/// which the next activation start clears, exactly once.
pub proof fn lemma_hw_no_reentry(d: Dispatcher, id: TaskId)
    requires
        d.wf(),
        id < d.n_tasks(),
        d.task(id).state is Running,
    ensures
        !d.pending_seq().contains(id),
{
    if d.pending_seq().contains(id) {
        let k = choose|k: int| 0 <= k < d.pending_seq().len() && d.pending_seq()[k] == id;
        assert(d.task(d.pending_seq()[k]).state is Pending);
    }
}

/// Pushing onto a sequence keeps every member and adds the new one.
proof fn lemma_push_contains(s: Seq<TaskId>, x: TaskId)
    ensures
        s.push(x).contains(x),
        forall|y: TaskId| s.contains(y) ==> #[trigger] s.push(x).contains(y),
        forall|y: TaskId| #[trigger] s.push(x).contains(y) ==> y == x || s.contains(y),
{
    assert(s.push(x)[s.len() as int] == x);
    assert forall|y: TaskId| s.contains(y) implies #[trigger] s.push(x).contains(y) by {
        let k = choose|k: int| 0 <= k < s.len() && s[k] == y;
        assert(s.push(x)[k] == y);
    }
    assert forall|y: TaskId| #[trigger] s.push(x).contains(y) implies y == x || s.contains(y) by {
        let k = choose|k: int| 0 <= k < s.push(x).len() && s.push(x)[k] == y;
        if k < s.len() {
            assert(s[k] == y);
        }
    }
}

/// Removing position `p` from a duplicate-free sequence keeps every other
/// member, drops `s[p]`, and stays duplicate-free.
proof fn lemma_remove_contains(s: Seq<TaskId>, p: int)
    requires
        0 <= p < s.len(),
        unique_ids(s),
    ensures
        unique_ids(s.remove(p)),
        !s.remove(p).contains(s[p]),
        forall|y: TaskId| #[trigger] s.remove(p).contains(y) ==> s.contains(y),
        forall|y: TaskId| s.contains(y) && y != s[p] ==> #[trigger] s.remove(p).contains(y),
{
    let r = s.remove(p);
    assert forall|i: int, j: int| 0 <= i < j < r.len() implies #[trigger] r[i] != #[trigger] r[j] by {
        let i0 = if i < p { i } else { i + 1 };
        let j0 = if j < p { j } else { j + 1 };
        assert(r[i] == s[i0] && r[j] == s[j0]);
    }
    assert forall|y: TaskId| #[trigger] r.contains(y) implies s.contains(y) by {
        let k = choose|k: int| 0 <= k < r.len() && r[k] == y;
        let k0 = if k < p { k } else { k + 1 };
        assert(s[k0] == y);
    }
    if r.contains(s[p]) {
        let k = choose|k: int| 0 <= k < r.len() && r[k] == s[p];
        let k0 = if k < p { k } else { k + 1 };
        assert(s[k0] == s[p] && k0 != p);
    }
    assert forall|y: TaskId| s.contains(y) && y != s[p] implies #[trigger] r.contains(y) by {
        let k = choose|k: int| 0 <= k < s.len() && s[k] == y;
        if k < p {
            assert(r[k] == y);
        } else {
            assert(r[k - 1] == y);
        }
    }
}

} // verus!
