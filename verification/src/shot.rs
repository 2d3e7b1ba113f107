//! Projectiles fired by the player.

use vstd::prelude::*;
use crate::frame::{Drawable, Frame, Grid, grid_put};
use crate::timer::Timer;

verus! {

/// Time a shot takes to climb one row.
pub const SHOT_INTERVAL: u64 = 50_000;

/// The glyph of a shot in flight.
pub const SHOT_GLYPH: char = '|';

/// A projectile on its way to the top of the playing field.
#[derive(Clone, Copy, Debug, PartialEq, Eq, Structural)]
pub struct Shot {
    /// Column of the shot.
    pub x: usize,
    /// Row of the shot; row 0 is the top of the playing field.
    pub y: usize,
    /// Paces the climb: the shot moves up one row whenever the timer fires.
    pub timer: Timer,
}

impl Shot {
    /// Whether the shot leaves the playing field through the top when
    /// `delta` elapses.
    pub open spec fn leaves(self, delta: u64) -> bool {
        self.timer.fires(delta) && self.y == 0
    }

    /// The shot after `delta` has elapsed: one row up if its timer fired and
    /// there is a row above, where it was otherwise.
    pub open spec fn advanced(self, delta: u64) -> Shot {
        Shot {
            x: self.x,
            y: if self.timer.fires(delta) && self.y > 0 {
                (self.y - 1) as usize
            } else {
                self.y
            },
            timer: self.timer.advanced(delta),
        }
    }

    /// A shot at `(x, y)` that has not moved yet.
    pub fn new(x: usize, y: usize) -> (shot: Shot)
        ensures
            shot.x == x,
            shot.y == y,
            shot.timer.interval == SHOT_INTERVAL,
            shot.timer.elapsed == 0,
    {
        Shot { x, y, timer: Timer::new(SHOT_INTERVAL) }
    }

    /// Lets `delta` elapse. Returns whether the shot is still in flight:
    /// `false` means that it has left the playing field through the top.
    pub fn update(&mut self, delta: u64) -> (in_flight: bool)
        ensures
            in_flight == !old(self).leaves(delta),
            *final(self) == old(self).advanced(delta),
    {
        if self.timer.advance(delta) {
            if self.y == 0 {
                false
            } else {
                self.y = self.y - 1;
                true
            }
        } else {
            true
        }
    }
}

impl Drawable for Shot {
    open spec fn drawn(&self, grid: Grid) -> Grid {
        grid_put(grid, self.x as int, self.y as int, SHOT_GLYPH)
    }

    fn draw(&self, frame: &mut Frame) {
        frame.put(self.x, self.y, SHOT_GLYPH);
    }
}

} // verus!
