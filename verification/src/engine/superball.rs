//! The superball: fire Mario's bouncing projectile.
//!
//! A thrown superball travels forward, falls under gravity, bounces off floors,
//! and reverses off walls. It lives for a fixed time and then fizzles.
use super::entity::{pixels, to_pixel, POSITION_LIMIT, SUBPIXEL, VELOCITY_LIMIT};
use super::level::{tile_of, Solids, TILE};
use super::physics::{GRAVITY, MAX_FALL_SPEED};
use crate::math::{div_floor, min_i, min_i32};
use vstd::prelude::*;

verus! {

/// A superball is a small square.
pub const SUPERBALL_SIZE: i32 = 6;
/// Horizontal speed in subpixels per frame.
pub const SUPERBALL_SPEED: i32 = 300;
/// Upward speed given by a floor bounce.
pub const SUPERBALL_BOUNCE: i32 = 400;
/// Frames a superball lives before fizzling.
pub const SUPERBALL_LIFE: u32 = 150;

#[derive(Debug, Clone, Copy, PartialEq, Eq, Structural)]
pub struct Superball {
    pub x: i32,
    pub y: i32,
    pub vx: i32,
    pub vy: i32,
    pub life: u32,
}

impl Superball {
    pub open spec fn px(self) -> int {
        to_pixel(self.x as int)
    }

    pub open spec fn py(self) -> int {
        to_pixel(self.y as int)
    }

    pub open spec fn body(self) -> (int, int, int, int) {
        (self.px(), self.py(), self.px() + 5, self.py() + 5)
    }

    pub open spec fn in_bounds(self) -> bool {
        &&& -POSITION_LIMIT <= self.x <= POSITION_LIMIT
        &&& -POSITION_LIMIT <= self.y <= POSITION_LIMIT
        &&& -VELOCITY_LIMIT <= self.vx <= VELOCITY_LIMIT
        &&& -VELOCITY_LIMIT <= self.vy <= VELOCITY_LIMIT
    }

    pub open spec fn thrown(pixel_x: int, pixel_y: int, going_left: bool) -> Superball {
        Superball {
            x: (pixel_x * 256) as i32,
            y: (pixel_y * 256) as i32,
            vx: if going_left { -300i32 } else { 300i32 },
            vy: 0,
            life: SUPERBALL_LIFE,
        }
    }

    /// Room enough to move a frame: positions within twice the simulation's
    /// limit and velocities within its limit.
    pub open spec fn roomy(self) -> bool {
        &&& -2 * POSITION_LIMIT <= self.x <= 2 * POSITION_LIMIT
        &&& -2 * POSITION_LIMIT <= self.y <= 2 * POSITION_LIMIT
        &&& -VELOCITY_LIMIT <= self.vx <= VELOCITY_LIMIT
        &&& -VELOCITY_LIMIT <= self.vy <= VELOCITY_LIMIT
    }

    pub fn new(pixel_x: i32, pixel_y: i32, going_left: bool) -> (r: Self)
        requires
            -0x0080_0000 < pixel_x < 0x0080_0000,
            -0x0080_0000 < pixel_y < 0x0080_0000,
        ensures
            r == Superball::thrown(pixel_x as int, pixel_y as int, going_left),
    {
        let speed = if going_left { -SUPERBALL_SPEED } else { SUPERBALL_SPEED };
        Superball { x: pixels(pixel_x), y: pixels(pixel_y), vx: speed, vy: 0, life: SUPERBALL_LIFE }
    }

    pub fn pixel_x(&self) -> (r: i32)
        ensures
            r == self.px(),
    {
        div_floor(self.x, SUBPIXEL)
    }

    pub fn pixel_y(&self) -> (r: i32)
        ensures
            r == self.py(),
    {
        div_floor(self.y, SUBPIXEL)
    }

    pub fn edges(&self) -> (r: (i32, i32, i32, i32))
        ensures
            (r.0 as int, r.1 as int, r.2 as int, r.3 as int) == self.body(),
    {
        let l = self.pixel_x();
        let t = self.pixel_y();
        (l, t, l + SUPERBALL_SIZE - 1, t + SUPERBALL_SIZE - 1)
    }
}

/// A superball's frame, when it still has life: one less life, move and
/// reverse at walls, fall, and bounce off a floor.
pub open spec fn superball_step(s: Superball, solids: Solids) -> Superball {
    let s0 = Superball { life: (s.life - 1) as u32, ..s };
    let s1 = Superball { x: (s0.x + s0.vx) as i32, ..s0 };
    let (l, t, r, b) = s1.body();
    let s2 = if s1.vx > 0 && solids.rect_solid(r, t, r, b) {
        Superball { x: ((tile_of(r) * 8 - 6) * 256) as i32, vx: -s1.vx as i32, ..s1 }
    } else if s1.vx < 0 && solids.rect_solid(l, t, l, b) {
        Superball { x: ((tile_of(l) * 8 + 8) * 256) as i32, vx: -s1.vx as i32, ..s1 }
    } else {
        s1
    };
    let s3 = Superball { vy: min_i(s2.vy + 76, 640) as i32, ..s2 };
    let s4 = Superball { y: (s3.y + s3.vy) as i32, ..s3 };
    let (l4, _t4, r4, b4) = s4.body();
    if s4.vy > 0 && solids.rect_solid(l4, b4, r4, b4) {
        Superball { y: ((tile_of(b4) * 8 - 6) * 256) as i32, vy: -400i32, ..s4 }
    } else {
        s4
    }
}

/// Advance a superball a frame. Returns false, without moving it, when it has
/// fizzled and should be removed; a fizzled ball may be anywhere.
pub fn update_superball(s: &mut Superball, solids: &Solids) -> (alive: bool)
    requires
        old(s).life != 0 ==> old(s).roomy(),
        solids.wf(),
    ensures
        alive == (old(s).life != 0),
        alive ==> *final(s) == superball_step(*old(s), *solids),
        !alive ==> *final(s) == *old(s),
{
    if s.life == 0 {
        return false;
    }
    s.life = s.life - 1;
    s.x = s.x + s.vx;
    let (l, t, r, b) = s.edges();
    if s.vx > 0 && solids.rect_hits_solid(r, t, r, b) {
        let wall_left = div_floor(r, TILE) * TILE;
        s.x = pixels(wall_left - SUPERBALL_SIZE);
        s.vx = -s.vx;
    } else if s.vx < 0 && solids.rect_hits_solid(l, t, l, b) {
        let wall_right = div_floor(l, TILE) * TILE + (TILE - 1);
        s.x = pixels(wall_right + 1);
        s.vx = -s.vx;
    }
    s.vy = min_i32(s.vy + GRAVITY, MAX_FALL_SPEED);
    s.y = s.y + s.vy;
    let (l, _t, r, b) = s.edges();
    if s.vy > 0 && solids.rect_hits_solid(l, b, r, b) {
        let floor_top = div_floor(b, TILE) * TILE;
        s.y = pixels(floor_top - SUPERBALL_SIZE);
        s.vy = -SUPERBALL_BOUNCE;
    }
    true
}

} // verus!
