//! Mario as a moving entity.
//!
//! Positions and velocities are kept in subpixels (fixed point) rather than
//! whole pixels, the way the Game Boy tracks fractional movement, so slow
//! acceleration and friction stay deterministic.
use crate::input::{Button, Buttons};
use crate::math::div_floor;
use vstd::prelude::*;

verus! {

/// Subpixels per pixel. Position and velocity are integers in these units.
pub const SUBPIXEL: i32 = 256;

/// Small Mario's collision width, measured off the cartridge.
pub const SMALL_WIDTH: i32 = 11;
/// Small Mario's collision height.
pub const SMALL_HEIGHT: i32 = 12;
/// Big Mario's collision height (a stand-in: twice the small sprite's tile height).
pub const BIG_HEIGHT: i32 = 16;

/// The largest subpixel magnitude the simulation keeps positions within: a
/// quarter of the `i32` range, so that a position plus a frame's movement and
/// collision pushes, each at most as large again, still fits in `i32`.
pub const POSITION_LIMIT: i32 = 0x2000_0000;
/// The largest magnitude a velocity is kept within: an eighth of
/// `POSITION_LIMIT`, so a position moved by twice this still stays well
/// inside the range a step is proved for.
pub const VELOCITY_LIMIT: i32 = 0x0400_0000;

/// `n` whole pixels in subpixels.
pub open spec fn pixels_spec(n: int) -> int {
    n * 256
}

/// Convert a whole-pixel value to subpixels.
pub fn pixels(n: i32) -> (r: i32)
    requires
        -0x0080_0000 < n < 0x0080_0000,
    ensures
        r == pixels_spec(n as int),
{
    n * SUBPIXEL
}

/// A subpixel coordinate's whole pixel, rounding toward negative infinity.
pub open spec fn to_pixel(sub: int) -> int {
    sub / 256
}

#[derive(Debug, Clone, Copy, PartialEq, Eq, Structural)]
pub enum Facing {
    Left,
    Right,
}

/// Mario's power level. Drives his height, what a hit does, and whether he can
/// throw a superball.
#[derive(Debug, Clone, Copy, PartialEq, Eq, Structural)]
pub enum Power {
    Small,
    Big,
    /// Big and able to throw superballs (from a flower).
    Fire,
}

#[derive(Debug, Clone, Copy, PartialEq, Eq, Structural)]
pub struct Mario {
    /// Position of the top-left of the sprite, in subpixels.
    pub x: i32,
    pub y: i32,
    /// Velocity in subpixels per frame.
    pub vx: i32,
    pub vy: i32,
    pub facing: Facing,
    pub on_ground: bool,
    pub power: Power,
    /// True while the jump button is held after a jump started, so holding it
    /// does not trigger a second jump.
    pub jump_latched: bool,
    /// Frames spent rising since the current jump started, while the button
    /// is still held.
    pub rise_frames: i32,
    /// True while rising from a stomp rather than from a jump.
    pub bouncing: bool,
    /// Cleared when Mario takes a fatal hit.
    pub alive: bool,
    /// Frames of invulnerability after shrinking.
    pub invuln: u32,
    /// Frames of star invincibility remaining.
    pub invincible: u32,
}

/// Collision box `(width, height)` in pixels for a power level.
pub open spec fn size_of_power(power: Power) -> (int, int) {
    match power {
        Power::Small => (11, 12),
        Power::Big | Power::Fire => (11, 16),
    }
}

/// Which way Mario faces after the buttons of a frame: toward a lone held
/// direction, unchanged when neither or both are held.
pub open spec fn facing_after(facing: Facing, buttons: Buttons) -> Facing {
    let left = buttons.held(Button::Left);
    let right = buttons.held(Button::Right);
    if left && !right {
        Facing::Left
    } else if !left && right {
        Facing::Right
    } else {
        facing
    }
}

impl Mario {
    /// Whole-pixel left edge.
    pub open spec fn px(self) -> int {
        to_pixel(self.x as int)
    }

    /// Whole-pixel top edge.
    pub open spec fn py(self) -> int {
        to_pixel(self.y as int)
    }

    /// Position and velocity are inside the limits the simulation works in.
    pub open spec fn in_bounds(self) -> bool {
        &&& -POSITION_LIMIT <= self.x <= POSITION_LIMIT
        &&& -POSITION_LIMIT <= self.y <= POSITION_LIMIT
        &&& -VELOCITY_LIMIT <= self.vx <= VELOCITY_LIMIT
        &&& -VELOCITY_LIMIT <= self.vy <= VELOCITY_LIMIT
        &&& -VELOCITY_LIMIT <= self.rise_frames <= VELOCITY_LIMIT
    }

    /// The state `new` gives: at a whole-pixel position, standing still,
    /// facing right, small, alive and airborne.
    pub open spec fn spawned(pixel_x: int, pixel_y: int) -> Mario {
        Mario {
            x: (pixel_x * 256) as i32,
            y: (pixel_y * 256) as i32,
            vx: 0,
            vy: 0,
            facing: Facing::Right,
            on_ground: false,
            power: Power::Small,
            jump_latched: false,
            rise_frames: 0,
            bouncing: false,
            alive: true,
            invuln: 0,
            invincible: 0,
        }
    }

    /// Place Mario at a whole-pixel position, standing still, facing right.
    pub fn new(pixel_x: i32, pixel_y: i32) -> (r: Self)
        requires
            -0x0080_0000 < pixel_x < 0x0080_0000,
            -0x0080_0000 < pixel_y < 0x0080_0000,
        ensures
            r == Mario::spawned(pixel_x as int, pixel_y as int),
            r.x == pixel_x * 256,
            r.y == pixel_y * 256,
    {
        Mario {
            x: pixels(pixel_x),
            y: pixels(pixel_y),
            vx: 0,
            vy: 0,
            facing: Facing::Right,
            on_ground: false,
            power: Power::Small,
            jump_latched: false,
            rise_frames: 0,
            bouncing: false,
            alive: true,
            invuln: 0,
            invincible: 0,
        }
    }

    /// Top-left pixel position, rounding toward negative infinity so movement
    /// is consistent on both sides of zero.
    pub fn pixel_x(&self) -> (r: i32)
        ensures
            r == self.px(),
    {
        div_floor(self.x, SUBPIXEL)
    }

    pub fn pixel_y(&self) -> (r: i32)
        ensures
            r == self.py(),
    {
        div_floor(self.y, SUBPIXEL)
    }

    /// Collision box in pixels, narrower than what gets drawn.
    pub fn size(&self) -> (r: (i32, i32))
        ensures
            (r.0 as int, r.1 as int) == size_of_power(self.power),
    {
        match self.power {
            Power::Small => (SMALL_WIDTH, SMALL_HEIGHT),
            Power::Big | Power::Fire => (SMALL_WIDTH, BIG_HEIGHT),
        }
    }

    /// Face toward the horizontal direction requested by the buttons. No held
    /// left/right leaves facing unchanged. Left and right together cancel.
    pub fn face_from_input(&mut self, buttons: Buttons)
        ensures
            *final(self) == (Mario { facing: facing_after(old(self).facing, buttons), ..*old(self) }),
    {
        let left = buttons.is_held(Button::Left);
        let right = buttons.is_held(Button::Right);
        if left && !right {
            self.facing = Facing::Left;
        } else if !left && right {
            self.facing = Facing::Right;
        }
    }
}

} // verus!
