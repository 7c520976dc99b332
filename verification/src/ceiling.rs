//! Priority-ceiling lock for state shared across priority levels.
//!
//! A resource touched by tasks at several priorities is guarded by a lock
//! whose ceiling is at least the priority of every task that may contend
//! for it. Acquiring the lock raises the holder's effective priority to
//! that ceiling, so no contender can preempt the holder while it works on
//! the shared state; releasing restores the saved priority. This prevents
//! priority inversion without unbounded blocking.

use vstd::prelude::*;

verus! {

use crate::{Priority, TaskId};
use crate::dispatch::Dispatcher;

/// A lock over one shared resource, with the ceiling of all its users.
pub struct CeilingLock {
    ceiling: Priority,
    held: bool,
    saved: Priority,
}

impl CeilingLock {
    /// The ceiling: at least the priority of every contending task.
    pub closed spec fn ceiling_prio(self) -> Priority {
        self.ceiling
    }

    /// Whether the lock is currently held.
    pub closed spec fn is_held(self) -> bool {
        self.held
    }

    /// The priority the holder entered with, restored on release.
    pub closed spec fn saved_prio(self) -> Priority {
        self.saved
    }

    /// A free lock with the given ceiling.
    pub fn new(ceiling: Priority) -> (c: Self)
        ensures
            c.ceiling_prio() == ceiling,
            !c.is_held(),
    {
        CeilingLock { ceiling, held: false, saved: 0 }
    }

    /// Acquires the lock from a task running at `current`, raising its
    /// effective priority to the ceiling. Callers declare every user of
    /// the resource when choosing the ceiling, so `current` never exceeds
    /// it.
    pub fn acquire(&mut self, current: Priority) -> (raised: Priority)
        requires
            !old(self).is_held(),
            current <= old(self).ceiling_prio(),
        ensures
            final(self).is_held(),
            final(self).ceiling_prio() == old(self).ceiling_prio(),
            final(self).saved_prio() == current,
            raised == old(self).ceiling_prio(),
            raised >= current,
    {
        self.saved = current;
        self.held = true;
        self.ceiling
    }

    /// Releases the lock, restoring the priority saved on acquisition.
    pub fn release(&mut self) -> (restored: Priority)
        requires
            old(self).is_held(),
        ensures
            !final(self).is_held(),
            final(self).ceiling_prio() == old(self).ceiling_prio(),
            restored == old(self).saved_prio(),
    {
        self.held = false;
        self.saved
    }
}

/// Law: the ceiling protocol prevents priority inversion. While the
/// holder runs at the lock's ceiling, no pending task that may contend
/// for the resource (priority at most the ceiling) exceeds the running
/// priority — and the dispatcher hands the processor over only to a
/// strictly higher pending priority, so none of them preempts the holder
/// while it works on the shared state.
pub proof fn lemma_ceiling_prevents_preemption(d: Dispatcher, lock: CeilingLock, holder: TaskId)
    requires
        d.wf(),
        holder < d.n_tasks(),
        d.spec_current() == Some(holder),
        d.prio_of(holder) == lock.ceiling_prio(),
        forall|k: int|
            0 <= k < d.pending_seq().len() ==> (#[trigger] d.prio_of(d.pending_seq()[k]))
                <= lock.ceiling_prio(),
    ensures
        forall|k: int|
            0 <= k < d.pending_seq().len() ==> (#[trigger] d.prio_of(d.pending_seq()[k])) as int
                <= d.running_priority(),
{
}

} // verus!
