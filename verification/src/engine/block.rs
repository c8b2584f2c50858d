//! Interactive blocks: the ones Mario bumps from below.
//!
//! A block sits in the solid world like any other tile, but bumping it from
//! underneath does something. A question block gives up its contents once,
//! then is spent; a brick breaks under big Mario.
use super::level::TILE;
use vstd::prelude::*;

verus! {

#[derive(Debug, Clone, Copy, PartialEq, Eq, Structural)]
pub enum BlockKind {
    /// Gives a coin when bumped.
    Question,
    /// Gives a mushroom power-up when bumped.
    PowerUp,
    Brick,
}

#[derive(Debug, Clone, Copy, PartialEq, Eq, Structural)]
pub struct Block {
    /// Top-left pixel of the block's tile.
    pub x: i32,
    pub y: i32,
    pub kind: BlockKind,
    /// A block becomes used after it gives up its contents.
    pub used: bool,
}

impl Block {
    pub fn new(x: i32, y: i32, kind: BlockKind) -> (r: Self)
        ensures
            r == (Block { x, y, kind, used: false }),
    {
        Block { x, y, kind, used: false }
    }

    /// Pixel edges (left, top, right, bottom), inclusive.
    pub fn edges(&self) -> (r: (i32, i32, i32, i32))
        requires
            self.x < i32::MAX - 8,
            self.y < i32::MAX - 8,
        ensures
            r == (self.x, self.y, (self.x + 7) as i32, (self.y + 7) as i32),
    {
        (self.x, self.y, self.x + TILE - 1, self.y + TILE - 1)
    }
}

} // verus!
