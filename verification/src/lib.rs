//! Game logic for a terminal arcade shooter: a ship at the bottom of a
//! fixed grid defends against a swarm of invaders that marches sideways and
//! descends.
//!
//! The crate holds the simulation and the rendering decisions only. It reads
//! no keyboard, writes to no terminal and plays no sound: callers feed it key
//! presses and elapsed time, and carry out the actions and terminal commands
//! it hands back.
//!
//! Time is measured in microseconds throughout.

pub mod frame;
pub mod game;
pub mod invaders;
pub mod player;
pub mod render;
pub mod shot;
pub mod timer;

use vstd::prelude::*;

verus! {

/// Height of the playing field, in cells.
pub const NUM_ROWS: usize = 20;

/// Width of the playing field, in cells.
pub const NUM_COLS: usize = 40;

} // verus!
