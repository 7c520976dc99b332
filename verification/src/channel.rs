//! Fixed-capacity FIFO channel between an interrupt producer and a
//! deferred consumer task.
//!
//! Sending never blocks: when the queue is full the new value is rejected
//! with [`SendError::Full`] and nothing already queued is disturbed
//! (back-pressure toward the producer rather than silent loss of older
//! data). Receiving never busy-waits: when the queue is empty the outcome
//! tells the caller to suspend until a producer delivers a value.

use vstd::prelude::*;

verus! {

use crate::SendError;

/// Outcome of one receive attempt on a bounded channel.
#[derive(Debug)]
pub enum RecvOutcome<T> {
    /// The oldest queued value, removed from the queue.
    Item(T),
    /// The queue is empty and still open: the calling task must suspend
    /// until a producer delivers a value.
    Suspend,
    /// The queue is empty and permanently closed: no value will ever
    /// arrive and the caller must not wait.
    Closed,
}

/// The queue after one non-blocking send of `v` into a queue `q` of
/// capacity `cap`: appended when capacity remains, unchanged when full.
pub open spec fn send_step<T>(q: Seq<T>, cap: nat, v: T) -> Seq<T> {
    if q.len() < cap {
        q.push(v)
    } else {
        q
    }
}

/// Whether a non-blocking send into a queue `q` of capacity `cap` is
/// accepted.
pub open spec fn send_accepted<T>(q: Seq<T>, cap: nat) -> bool {
    q.len() < cap
}

/// The queue after sending each value of `vs` in order into a queue `q`
/// of capacity `cap`.
pub open spec fn send_all<T>(q: Seq<T>, cap: nat, vs: Seq<T>) -> Seq<T>
    decreases vs.len(),
{
    if vs.len() == 0 {
        q
    } else {
        send_all(send_step(q, cap, vs[0]), cap, vs.drop_first())
    }
}

/// How many of `vs` a queue that already holds `len` of `cap` slots will
/// accept: every value if they all fit, otherwise exactly the remaining
/// free slots.
pub open spec fn accepted_count<T>(len: nat, cap: nat, vs: Seq<T>) -> int {
    if len + vs.len() <= cap {
        vs.len() as int
    } else {
        cap - len
    }
}

/// Fixed-capacity FIFO queue of values. The capacity is chosen at
/// construction and never grows.
pub struct Channel<T> {
    queue: Vec<T>,
    capacity: usize,
    closed: bool,
}

impl<T> Channel<T> {
    /// The queued values, oldest first.
    pub closed spec fn contents(self) -> Seq<T> {
        self.queue@
    }

    /// The fixed capacity chosen at construction.
    pub closed spec fn cap(self) -> nat {
        self.capacity as nat
    }

    /// Whether the channel has been permanently closed.
    pub closed spec fn is_closed(self) -> bool {
        self.closed
    }

    /// The queue never holds more values than its capacity.
    pub open spec fn wf(self) -> bool {
        self.contents().len() <= self.cap()
    }

    /// An empty open channel of the given capacity.
    pub fn new(capacity: usize) -> (c: Self)
        ensures
            c.wf(),
            c.contents() == Seq::<T>::empty(),
            c.cap() == capacity as nat,
            !c.is_closed(),
    {
        Channel { queue: Vec::new(), capacity, closed: false }
    }

    /// The number of values currently queued.
    pub fn len(&self) -> (n: usize)
        ensures
            n as nat == self.contents().len(),
    {
        self.queue.len()
    }

    /// The fixed capacity.
    pub fn capacity(&self) -> (n: usize)
        ensures
            n as nat == self.cap(),
    {
        self.capacity
    }

    /// Non-blocking send: appends `v` when capacity remains, otherwise
    /// rejects it with `Full` and leaves every queued value in place.
    pub fn try_send(&mut self, v: T) -> (r: Result<(), SendError>)
        requires
            old(self).wf(),
        ensures
            final(self).wf(),
            final(self).cap() == old(self).cap(),
            final(self).is_closed() == old(self).is_closed(),
            final(self).contents() == send_step(old(self).contents(), old(self).cap(), v),
            r is Ok <==> send_accepted::<T>(old(self).contents(), old(self).cap()),
            r is Ok ==> final(self).contents() == old(self).contents().push(v),
            r is Err ==> final(self).contents() == old(self).contents()
                && r == Err::<(), SendError>(SendError::Full),
    {
        if self.queue.len() < self.capacity {
            self.queue.push(v);
            Ok(())
        } else {
            Err(SendError::Full)
        }
    }

    /// One receive attempt: removes and returns the oldest queued value;
    /// on an empty queue the caller is told to suspend (or, once the
    /// channel is closed, that no value will ever arrive).
    pub fn receive(&mut self) -> (r: RecvOutcome<T>)
        requires
            old(self).wf(),
        ensures
            final(self).wf(),
            final(self).cap() == old(self).cap(),
            final(self).is_closed() == old(self).is_closed(),
            old(self).contents().len() > 0 ==> r == RecvOutcome::Item(old(self).contents()[0])
                && final(self).contents() == old(self).contents().drop_first(),
            old(self).contents().len() == 0 ==> final(self).contents() == old(self).contents()
                && r == (if old(self).is_closed() {
                    RecvOutcome::Closed::<T>
                } else {
                    RecvOutcome::Suspend::<T>
                }),
    {
        if self.queue.len() > 0 {
            RecvOutcome::Item(self.queue.remove(0))
        } else if self.closed {
            RecvOutcome::Closed
        } else {
            RecvOutcome::Suspend
        }
    }

    /// Permanently closes the channel. Values already queued stay
    /// receivable; once drained, receives report `Closed`.
    pub fn close(&mut self)
        requires
            old(self).wf(),
        ensures
            final(self).wf(),
            final(self).cap() == old(self).cap(),
            final(self).contents() == old(self).contents(),
            final(self).is_closed(),
    {
        self.closed = true;
    }
}

/// Sending a sequence of values accepts exactly as many as fit, in order:
/// the queue ends up holding its old contents followed by the first
/// `accepted_count` values of `vs`, unchanged and unreordered.
pub proof fn lemma_send_all_fills_in_order<T>(q: Seq<T>, cap: nat, vs: Seq<T>)
    requires
        q.len() <= cap,
    ensures
        send_all(q, cap, vs) == q + vs.take(accepted_count(q.len(), cap, vs)),
    decreases vs.len(),
{
    if vs.len() == 0 {
        assert(send_all(q, cap, vs) =~= q + vs.take(accepted_count(q.len(), cap, vs)));
    } else {
        let q1 = send_step(q, cap, vs[0]);
        lemma_send_all_fills_in_order(q1, cap, vs.drop_first());
        let c = accepted_count(q.len(), cap, vs);
        let c1 = accepted_count(q1.len(), cap, vs.drop_first());
        if q.len() < cap {
            assert(q1 == q.push(vs[0]));
            assert(c1 == c - 1);
            assert(q.push(vs[0]) + vs.drop_first().take(c - 1) =~= q + vs.take(c));
        } else {
            assert(q1 == q);
            assert(c == 0 && c1 == 0);
            assert(q + vs.drop_first().take(0) =~= q + vs.take(0));
        }
    }
}

/// Law: for any run of sends exceeding the free capacity, exactly the
/// first `cap - q.len()` are accepted and every later one is rejected;
/// the accepted values are neither corrupted nor reordered.
pub proof fn lemma_sends_beyond_capacity<T>(q: Seq<T>, cap: nat, vs: Seq<T>)
    requires
        q.len() <= cap,
    ensures
        send_all(q, cap, vs) == q + vs.take(accepted_count(q.len(), cap, vs)),
        forall|i: int|
            0 <= i < vs.len() ==> (send_accepted::<T>(send_all(q, cap, vs.take(i)), cap)
                <==> q.len() + i < cap),
{
    lemma_send_all_fills_in_order(q, cap, vs);
    assert forall|i: int|
        0 <= i < vs.len() implies (send_accepted::<T>(send_all(q, cap, vs.take(i)), cap)
        <==> q.len() + i < cap) by {
        lemma_send_all_fills_in_order(q, cap, vs.take(i));
        let ci = accepted_count(q.len(), cap, vs.take(i));
        assert(send_all(q, cap, vs.take(i)).len() == q.len() + ci);
    }
}

/// Law: first-in, first-out. When a channel holding `q` accepts all of
/// `vs` (they fit within capacity), the queue becomes `q + vs`, and the
/// value accepted `i`-th among `vs` stands exactly `i` places behind the
/// previously queued values: successive receives, which always remove
/// index 0, return the accepted values in the exact order they were sent.
pub proof fn lemma_fifo_order<T>(q: Seq<T>, cap: nat, vs: Seq<T>)
    requires
        q.len() + vs.len() <= cap,
    ensures
        send_all(q, cap, vs) == q + vs,
        forall|i: int| 0 <= i < vs.len() ==> (q + vs)[q.len() + i] == vs[i],
{
    lemma_send_all_fills_in_order(q, cap, vs);
    assert(vs.take(accepted_count(q.len(), cap, vs)) =~= vs);
}

} // verus!
