//! A minimal interrupt-driven, priority-based task scheduler core for a
//! single-core microcontroller.
//!
//! The crate models the pieces such a system is built from: a monotonic
//! clock with a single armed wake deadline, a fixed-capacity FIFO channel
//! for handing values from an interrupt producer to a deferred consumer,
//! a dispatcher that enforces priority-based preemption over statically
//! declared tasks, a timer queue that orders delayed activations by
//! deadline, and a priority-ceiling lock for state shared across priority
//! levels. Board-specific work (pin configuration, interrupt controller
//! registers, log transport) stays outside: the scheduler hands its caller
//! explicit actions to perform and takes plain events back.

use vstd::prelude::*;

pub mod blinky;
pub mod ceiling;
pub mod channel;
pub mod clock;
pub mod dispatch;
pub mod scheduler;
pub mod timer;

verus! {

/// Identity of a statically declared task: its index in the dispatcher's
/// task table.
pub type TaskId = usize;

/// A monotonically increasing tick count of the system clock.
pub type Tick = u64;

/// Task urgency; a larger number is more urgent.
pub type Priority = u8;

/// A bounded channel rejected a value because the queue was full. The
/// newest value is the one turned away; queued values are never evicted.
#[derive(Clone, Copy, PartialEq, Eq, Structural, Debug)]
pub enum SendError {
    Full,
}

/// An activation was requested for a singleton task that is already
/// scheduled (pending, running, suspended, or waiting in the timer queue).
#[derive(Clone, Copy, PartialEq, Eq, Structural, Debug)]
pub enum SpawnError {
    AlreadyScheduled,
}

} // verus!
