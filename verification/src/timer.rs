//! Cooperative countdown timers.
//!
//! A timer is an explicit countdown decremented by the tick duration.  A
//! fire is detected at the first tick whose elapsed time consumes the
//! remainder; a repeating timer then rewinds to its full period, a one-shot
//! timer stays at zero and never fires again.

use vstd::prelude::*;

verus! {

#[derive(Clone, Copy, PartialEq, Eq, Structural, Debug)]
pub struct Timer {
    /// Milliseconds left until the timer fires.
    pub remaining_ms: u32,
    /// Full period of the timer in milliseconds.
    pub period_ms: u32,
    /// A repeating timer rewinds to the full period on every fire.
    pub repeating: bool,
}

impl Timer {
    pub open spec fn wf(self) -> bool {
        &&& self.remaining_ms <= self.period_ms
        &&& self.repeating ==> self.period_ms >= 1
    }

    pub open spec fn spec_repeating(period_ms: u32) -> Timer {
        Timer { remaining_ms: period_ms, period_ms, repeating: true }
    }

    pub open spec fn spec_once(period_ms: u32) -> Timer {
        Timer { remaining_ms: period_ms, period_ms, repeating: false }
    }

    /// An exhausted one-shot timer: already fired, never fires again.
    pub open spec fn spec_done() -> Timer {
        Timer { remaining_ms: 0, period_ms: 0, repeating: false }
    }

    pub fn repeating(period_ms: u32) -> (t: Timer)
        requires
            period_ms >= 1,
        ensures
            t == Timer::spec_repeating(period_ms),
            t.wf(),
    {
        Timer { remaining_ms: period_ms, period_ms, repeating: true }
    }

    pub fn once(period_ms: u32) -> (t: Timer)
        ensures
            t == Timer::spec_once(period_ms),
            t.wf(),
    {
        Timer { remaining_ms: period_ms, period_ms, repeating: false }
    }

    pub fn done() -> (t: Timer)
        ensures
            t == Timer::spec_done(),
            t.wf(),
    {
        Timer { remaining_ms: 0, period_ms: 0, repeating: false }
    }

    /// Whether a tick of `dt_ms` makes the timer fire: the countdown is
    /// still running and this tick consumes the remainder.
    pub open spec fn spec_fires(self, dt_ms: u32) -> bool {
        0 < self.remaining_ms <= dt_ms
    }

    /// The timer after a tick of `dt_ms`.
    pub open spec fn spec_tick(self, dt_ms: u32) -> Timer {
        if self.remaining_ms > dt_ms {
            Timer { remaining_ms: (self.remaining_ms - dt_ms) as u32, ..self }
        } else if self.repeating {
            Timer { remaining_ms: self.period_ms, ..self }
        } else {
            Timer { remaining_ms: 0, ..self }
        }
    }

    /// Advances the countdown by `dt_ms` and reports the fired edge.
    pub fn tick(&mut self, dt_ms: u32) -> (fired: bool)
        ensures
            *final(self) == old(self).spec_tick(dt_ms),
            fired == old(self).spec_fires(dt_ms),
            old(self).wf() ==> final(self).wf(),
    {
        if self.remaining_ms > dt_ms {
            let fired = false;
            self.remaining_ms = self.remaining_ms - dt_ms;
            fired
        } else {
            let fired = self.remaining_ms > 0;
            if self.repeating {
                self.remaining_ms = self.period_ms;
            } else {
                self.remaining_ms = 0;
            }
            fired
        }
    }

    /// A one-shot timer counts as finished once its countdown is spent.
    pub fn finished(&self) -> (r: bool)
        ensures
            r == (self.remaining_ms == 0),
    {
        self.remaining_ms == 0
    }
}

} // verus!
