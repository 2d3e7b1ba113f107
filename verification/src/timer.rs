//! A repeating timer driven by elapsed time.

use vstd::prelude::*;

verus! {

/// Accumulates elapsed time against an interval.
///
/// The timer fires on the update that carries the accumulated time past the
/// interval, and starts accumulating afresh from zero when it does.
#[derive(Clone, Copy, Debug, PartialEq, Eq, Structural)]
pub struct Timer {
    /// Time that has to be exceeded for the timer to fire.
    pub interval: u64,
    /// Time accumulated since the timer was created or last fired.
    pub elapsed: u64,
}

impl Timer {
    /// Whether adding `delta` carries the accumulated time past the interval.
    pub open spec fn fires(self, delta: u64) -> bool {
        self.elapsed + delta > self.interval
    }

    /// The timer after `delta` has elapsed.
    pub open spec fn advanced(self, delta: u64) -> Timer {
        if self.fires(delta) {
            Timer { interval: self.interval, elapsed: 0 }
        } else {
            Timer { interval: self.interval, elapsed: (self.elapsed + delta) as u64 }
        }
    }

    /// A timer with nothing accumulated yet.
    pub fn new(interval: u64) -> (timer: Timer)
        ensures
            timer.interval == interval,
            timer.elapsed == 0,
    {
        Timer { interval, elapsed: 0 }
    }

    /// Lets `delta` elapse and reports whether the timer fired.
    pub fn advance(&mut self, delta: u64) -> (fired: bool)
        ensures
            fired == old(self).fires(delta),
            *final(self) == old(self).advanced(delta),
    {
        if self.elapsed > self.interval || delta > self.interval - self.elapsed {
            self.elapsed = 0;
            true
        } else {
            self.elapsed = self.elapsed + delta;
            false
        }
    }
}

} // verus!
