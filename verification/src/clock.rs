//! Monotonic clock with a single armed wake deadline.
//!
//! The tick count only ever grows; wraparound is out of scope (the count
//! would wrap only after an astronomically long interval). The hardware
//! comparator can hold one outstanding deadline at a time, so arming
//! replaces whatever was armed before; the timer queue is responsible for
//! keeping the nearest pending deadline armed.

use vstd::prelude::*;

verus! {

use crate::Tick;

/// A free-running monotonic timer and its single compare register.
pub struct Clock {
    ticks: Tick,
    armed: Option<Tick>,
}

impl Clock {
    /// The current tick count.
    pub closed spec fn tick_now(self) -> Tick {
        self.ticks
    }

    /// The deadline currently armed in the compare register, if any.
    pub closed spec fn armed_deadline(self) -> Option<Tick> {
        self.armed
    }

    /// Whether the armed deadline has been reached, so the timer
    /// interrupt is due to fire.
    pub open spec fn spec_fired(self) -> bool {
        self.armed_deadline() matches Some(d) && d <= self.tick_now()
    }

    /// A clock at tick zero with nothing armed.
    pub fn new() -> (c: Self)
        ensures
            c.tick_now() == 0,
            c.armed_deadline() is None,
    {
        Clock { ticks: 0, armed: None }
    }

    /// The current tick count; safe to read from any priority level.
    pub fn now(&self) -> (t: Tick)
        ensures
            t == self.tick_now(),
    {
        self.ticks
    }

    /// Lets `dt` ticks elapse. The count never decreases.
    pub fn advance(&mut self, dt: Tick)
        requires
            old(self).tick_now() + dt <= Tick::MAX,
        ensures
            final(self).tick_now() == old(self).tick_now() + dt,
            final(self).tick_now() >= old(self).tick_now(),
            final(self).armed_deadline() == old(self).armed_deadline(),
    {
        self.ticks = self.ticks + dt;
    }

    /// Programs the compare register with `deadline`, replacing any
    /// previously armed deadline. A deadline at or before the current
    /// tick leaves the clock immediately fired.
    pub fn arm(&mut self, deadline: Tick)
        ensures
            final(self).tick_now() == old(self).tick_now(),
            final(self).armed_deadline() == Some(deadline),
    {
        self.armed = Some(deadline);
    }

    /// Clears the compare register: no wake deadline is outstanding.
    pub fn disarm(&mut self)
        ensures
            final(self).tick_now() == old(self).tick_now(),
            final(self).armed_deadline() is None,
    {
        self.armed = None;
    }

    /// Whether the armed deadline has been reached.
    pub fn fired(&self) -> (r: bool)
        ensures
            r == self.spec_fired(),
    {
        match self.armed {
            Some(d) => d <= self.ticks,
            None => false,
        }
    }
}

} // verus!
