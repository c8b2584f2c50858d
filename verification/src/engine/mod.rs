//! Deterministic game simulation.
//!
//! Game state and the rules that advance it. No rendering code and no I/O:
//! given the same start state and the same input, stepping produces the same
//! result every time.
pub mod animation;
pub mod block;
pub mod enemy;
pub mod entity;
pub mod level;
pub mod lift;
pub mod physics;
pub mod powerup;
pub mod superball;

use crate::input::Buttons;
use vstd::prelude::*;

verus! {

/// The whole game state at one instant.
#[derive(Debug, Clone, Copy, PartialEq, Eq, Structural)]
pub struct GameState {
    /// Frames advanced since the state was created.
    pub frame: u64,
}

impl GameState {
    pub fn new() -> (r: Self)
        ensures
            r.frame == 0,
    {
        GameState { frame: 0 }
    }

    /// Advance the simulation by one frame given the buttons held this frame.
    /// The frame counter wraps rather than overflowing.
    pub fn step(&mut self, _buttons: Buttons)
        ensures
            final(self).frame == (if old(self).frame == u64::MAX { 0 } else { old(self).frame + 1 }),
    {
        self.frame = self.frame.wrapping_add(1);
    }
}

impl Default for GameState {
    fn default() -> (r: Self)
        ensures
            r.frame == 0,
    {
        GameState { frame: 0 }
    }
}

} // verus!
