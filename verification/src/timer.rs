//! Timer queue: pending delayed activations ordered by wake deadline.
//!
//! Each delayed spawn becomes a [`PendingActivation`] held here until its
//! deadline is reached. The queue is kept sorted by deadline ascending and
//! stable: an activation with a later deadline never stands before an
//! earlier one, and equal deadlines keep their insertion order. Due
//! entries are always popped from the front, so activation order follows
//! queue order.

use vstd::prelude::*;

verus! {

use crate::{SpawnError, TaskId, Tick};

/// One delayed activation: the task to activate and the tick at or after
/// which it must be dispatched.
#[derive(Clone, Copy, PartialEq, Eq, Structural, Debug)]
pub struct PendingActivation {
    /// The task to activate when the deadline is reached.
    pub task: TaskId,
    /// The tick at or after which the task must be dispatched.
    pub deadline: Tick,
}

/// Whether `q` is sorted by deadline, ascending.
pub open spec fn sorted_by_deadline(q: Seq<PendingActivation>) -> bool {
    forall|i: int, j: int| 0 <= i < j < q.len() ==> #[trigger] q[i].deadline <= #[trigger] q[j].deadline
}

/// Whether no task appears twice in `q` (each task is a singleton: it has
/// at most one pending delayed activation).
pub open spec fn tasks_unique(q: Seq<PendingActivation>) -> bool {
    forall|i: int, j: int| 0 <= i < j < q.len() ==> #[trigger] q[i].task != #[trigger] q[j].task
}

/// Whether some entry of `q` activates `task`.
pub open spec fn holds_task(q: Seq<PendingActivation>, task: TaskId) -> bool {
    exists|i: int| 0 <= i < q.len() && #[trigger] q[i].task == task
}

/// The position where an entry with deadline `d` is inserted: after every
/// entry with deadline at most `d` (so equal deadlines keep arrival
/// order), before every entry with a later deadline.
pub open spec fn insert_pos(q: Seq<PendingActivation>, d: Tick) -> int
    decreases q.len(),
{
    if q.len() == 0 {
        0
    } else if q[0].deadline <= d {
        1 + insert_pos(q.drop_first(), d)
    } else {
        0
    }
}

/// In a sorted queue, `insert_pos` splits the entries exactly: everything
/// before it has deadline at most `d`, everything from it on has a later
/// deadline.
pub proof fn lemma_insert_pos_splits(q: Seq<PendingActivation>, d: Tick)
    requires
        sorted_by_deadline(q),
    ensures
        0 <= insert_pos(q, d) <= q.len(),
        forall|k: int| 0 <= k < insert_pos(q, d) ==> #[trigger] q[k].deadline <= d,
        forall|k: int| insert_pos(q, d) <= k < q.len() ==> #[trigger] q[k].deadline > d,
    decreases q.len(),
{
    if q.len() == 0 {
    } else if q[0].deadline <= d {
        let rest = q.drop_first();
        assert forall|i: int, j: int| 0 <= i < j < rest.len() implies #[trigger] rest[i].deadline
            <= #[trigger] rest[j].deadline by {
            assert(rest[i] == q[i + 1]);
            assert(rest[j] == q[j + 1]);
            assert(q[i + 1].deadline <= q[j + 1].deadline);
        }
        lemma_insert_pos_splits(rest, d);
        let p = insert_pos(q, d);
        assert(p == 1 + insert_pos(rest, d));
        assert forall|k: int| 0 <= k < p implies #[trigger] q[k].deadline <= d by {
            if k > 0 {
                assert(q[k] == rest[k - 1]);
            }
        }
        assert forall|k: int| p <= k < q.len() implies #[trigger] q[k].deadline > d by {
            assert(q[k] == rest[k - 1]);
        }
    } else {
        assert forall|k: int| 0 <= k < q.len() implies #[trigger] q[k].deadline > d by {
            if k > 0 {
                assert(q[0].deadline <= q[k].deadline);
            }
        }
    }
}

/// The queue of pending delayed activations.
pub struct TimerQueue {
    entries: Vec<PendingActivation>,
}

impl TimerQueue {
    /// The pending activations, nearest deadline first.
    pub closed spec fn entries_seq(self) -> Seq<PendingActivation> {
        self.entries@
    }

    /// Sorted by deadline and at most one entry per task.
    pub open spec fn wf(self) -> bool {
        &&& sorted_by_deadline(self.entries_seq())
        &&& tasks_unique(self.entries_seq())
    }

    /// The nearest deadline: the one the clock must keep armed.
    pub open spec fn spec_next_deadline(self) -> Option<Tick> {
        if self.entries_seq().len() == 0 {
            None
        } else {
            Some(self.entries_seq()[0].deadline)
        }
    }

    /// An empty queue.
    pub fn new() -> (q: Self)
        ensures
            q.wf(),
            q.entries_seq() == Seq::<PendingActivation>::empty(),
    {
        TimerQueue { entries: Vec::new() }
    }

    /// The number of pending activations.
    pub fn len(&self) -> (n: usize)
        ensures
            n as nat == self.entries_seq().len(),
    {
        self.entries.len()
    }

    /// Whether `task` already has a pending delayed activation.
    pub fn contains(&self, task: TaskId) -> (r: bool)
        ensures
            r == holds_task(self.entries_seq(), task),
    {
        let n = self.entries.len();
        let mut i: usize = 0;
        while i < n
            invariant
                n as nat == self.entries_seq().len(),
                0 <= i <= n,
                forall|k: int| 0 <= k < i ==> #[trigger] self.entries_seq()[k].task != task,
            decreases n - i,
        {
            if self.entries[i].task == task {
                return true;
            }
            i = i + 1;
        }
        false
    }

    /// Inserts a delayed activation for `task` at `deadline`, keeping the
    /// queue sorted and stable; rejects a task that is already queued.
    pub fn insert(&mut self, task: TaskId, deadline: Tick) -> (r: Result<(), SpawnError>)
        requires
            old(self).wf(),
            old(self).entries_seq().len() < usize::MAX,
        ensures
            final(self).wf(),
            r is Err <==> holds_task(old(self).entries_seq(), task),
            r is Err ==> *final(self) == *old(self) && r == Err::<(), SpawnError>(
                SpawnError::AlreadyScheduled,
            ),
            r is Ok ==> final(self).entries_seq() == old(self).entries_seq().insert(
                insert_pos(old(self).entries_seq(), deadline),
                (PendingActivation { task, deadline }),
            ),
    {
        if self.contains(task) {
            return Err(SpawnError::AlreadyScheduled);
        }
        let q = Ghost(self.entries_seq());
        let n = self.entries.len();
        let mut i: usize = 0;
        while i < n
            invariant
                self.entries_seq() == q@,
                n as nat == q@.len(),
                0 <= i <= n,
                forall|k: int| 0 <= k < i ==> #[trigger] q@[k].deadline <= deadline,
            ensures
                self.entries_seq() == q@,
                0 <= i <= n,
                forall|k: int| 0 <= k < i ==> #[trigger] q@[k].deadline <= deadline,
                i < n ==> q@[i as int].deadline > deadline,
            decreases n - i,
        {
            if self.entries[i].deadline > deadline {
                break;
            }
            i = i + 1;
        }
        proof {
            lemma_insert_pos_splits(q@, deadline);
            let p = insert_pos(q@, deadline);
            if i < p {
                assert(q@[i as int].deadline <= deadline);
            }
            if p < i {
                assert(q@[p].deadline <= deadline);
            }
            assert(i as int == p);
        }
        let entry = PendingActivation { task, deadline };
        self.entries.insert(i, entry);
        proof {
            let old_q = q@;
            let p = i as int;
            let new_q = self.entries_seq();
            lemma_insert_pos_splits(old_q, deadline);
            assert forall|a: int, b: int| 0 <= a < b < new_q.len() implies #[trigger] new_q[a].deadline
                <= #[trigger] new_q[b].deadline by {
                if a < p && b < p {
                    assert(new_q[a] == old_q[a] && new_q[b] == old_q[b]);
                } else if a < p && b == p {
                    assert(new_q[a] == old_q[a]);
                } else if a < p && b > p {
                    assert(new_q[a] == old_q[a] && new_q[b] == old_q[b - 1]);
                } else if a == p {
                    assert(new_q[b] == old_q[b - 1]);
                } else {
                    assert(new_q[a] == old_q[a - 1] && new_q[b] == old_q[b - 1]);
                }
            }
            assert forall|a: int, b: int| 0 <= a < b < new_q.len() implies #[trigger] new_q[a].task
                != #[trigger] new_q[b].task by {
                if a < p && b < p {
                    assert(new_q[a] == old_q[a] && new_q[b] == old_q[b]);
                } else if a < p && b == p {
                    assert(new_q[a] == old_q[a]);
                    assert(!holds_task(old_q, task));
                    assert(old_q[a].task != task);
                } else if a < p && b > p {
                    assert(new_q[a] == old_q[a] && new_q[b] == old_q[b - 1]);
                } else if a == p {
                    assert(new_q[b] == old_q[b - 1]);
                    assert(old_q[b - 1].task != task);
                } else {
                    assert(new_q[a] == old_q[a - 1] && new_q[b] == old_q[b - 1]);
                }
            }
        }
        Ok(())
    }

    /// The nearest pending deadline, to be armed in the clock.
    pub fn next_deadline(&self) -> (r: Option<Tick>)
        requires
            self.wf(),
        ensures
            r == self.spec_next_deadline(),
            r matches Some(d) ==> forall|k: int|
                0 <= k < self.entries_seq().len() ==> d <= #[trigger] self.entries_seq()[k].deadline,
    {
        if self.entries.len() == 0 {
            None
        } else {
            let d = self.entries[0].deadline;
            proof {
                assert(forall|k: int|
                    0 < k < self.entries_seq().len() ==> self.entries_seq()[0].deadline
                        <= #[trigger] self.entries_seq()[k].deadline);
            }
            Some(d)
        }
    }

    /// Removes and returns the front entry when its deadline has been
    /// reached; leaves the queue unchanged when nothing is due.
    pub fn pop_due(&mut self, now: Tick) -> (r: Option<PendingActivation>)
        requires
            old(self).wf(),
        ensures
            final(self).wf(),
            r is None ==> *final(self) == *old(self) && (old(self).entries_seq().len() > 0 ==> old(
                self,
            ).entries_seq()[0].deadline > now),
            r matches Some(e) ==> old(self).entries_seq().len() > 0
                && e == old(self).entries_seq()[0]
                && e.deadline <= now
                && final(self).entries_seq() == old(self).entries_seq().drop_first(),
    {
        if self.entries.len() > 0 {
            if self.entries[0].deadline <= now {
                let e = self.entries.remove(0);
                proof {
                    assert(self.entries_seq() =~= old(self).entries_seq().drop_first());
                    assert forall|i: int, j: int| 0 <= i < j < self.entries_seq().len()
                        implies #[trigger] self.entries_seq()[i].deadline
                        <= #[trigger] self.entries_seq()[j].deadline by {
                        assert(self.entries_seq()[i] == old(self).entries_seq()[i + 1]);
                        assert(self.entries_seq()[j] == old(self).entries_seq()[j + 1]);
                    }
                    assert forall|i: int, j: int| 0 <= i < j < self.entries_seq().len()
                        implies #[trigger] self.entries_seq()[i].task
                        != #[trigger] self.entries_seq()[j].task by {
                        assert(self.entries_seq()[i] == old(self).entries_seq()[i + 1]);
                        assert(self.entries_seq()[j] == old(self).entries_seq()[j + 1]);
                    }
                }
                return Some(e);
            }
        }
        None
    }
}

/// Law: deadline ordering is total and stable. In a sorted queue an entry
/// with a strictly earlier deadline stands strictly nearer the front, and
/// since due entries are popped from the front, a task scheduled with an
/// earlier deadline is activated no later than one scheduled with a later
/// deadline.
pub proof fn lemma_deadline_order(q: Seq<PendingActivation>, i: int, j: int)
    requires
        sorted_by_deadline(q),
        0 <= i < q.len(),
        0 <= j < q.len(),
        q[i].deadline < q[j].deadline,
    ensures
        i < j,
{
    if j <= i {
        if j < i {
            assert(q[j].deadline <= q[i].deadline);
        }
    }
}

} // verus!
