//! A camera that follows Mario and stays inside the level.
//!
//! The camera is the top-left pixel of the visible 160x144 window over a
//! larger level. It keeps its focus centered, but clamps at the level edges so
//! it never scrolls past the world into blank space.
use crate::math::{clamp_i, clamp_i32, max_i, max_i32};
use crate::{SCREEN_HEIGHT, SCREEN_WIDTH};
use vstd::prelude::*;

verus! {

#[derive(Debug, Clone, Copy, PartialEq, Eq, Structural)]
pub struct Camera {
    pub x: i32,
    pub y: i32,
}

/// The view origin that centres `focus` in a `view`-wide window, clamped to a
/// level `level` wide (0 when the level is narrower than the view).
pub open spec fn centered(focus: int, view: int, level: int) -> int {
    clamp_i(focus - view / 2, 0, max_i(level - view, 0))
}

/// Coordinates the camera can work with without overflow: any `i32` but
/// the lowest 1024, so that taking half a view (or a whole one) off stays
/// inside `i32`.
pub open spec fn coord_ok(v: int) -> bool {
    -0x7fff_fc00 <= v <= 0x7fff_ffff
}

fn center_clamped(focus: i32, view: i32, level: i32) -> (r: i32)
    requires
        coord_ok(focus as int),
        coord_ok(level as int),
        0 < view <= 1000,
    ensures
        r == centered(focus as int, view as int, level as int),
{
    let target = focus - view / 2;
    let max = max_i32(level - view, 0);
    clamp_i32(target, 0, max)
}

impl Camera {
    pub fn new() -> (r: Self)
        ensures
            r == (Camera { x: 0, y: 0 }),
    {
        Camera { x: 0, y: 0 }
    }

    /// Center the view on a focus point, clamped so the view stays within a
    /// level of the given pixel size. If the level is smaller than the screen
    /// on an axis, that axis stays at 0.
    pub fn follow(&mut self, focus_x: i32, focus_y: i32, level_w: i32, level_h: i32)
        requires
            coord_ok(focus_x as int),
            coord_ok(focus_y as int),
            coord_ok(level_w as int),
            coord_ok(level_h as int),
        ensures
            final(self).x == centered(focus_x as int, 160, level_w as int),
            final(self).y == centered(focus_y as int, 144, level_h as int),
    {
        self.x = center_clamped(focus_x, SCREEN_WIDTH as i32, level_w);
        self.y = center_clamped(focus_y, SCREEN_HEIGHT as i32, level_h);
    }
}

impl Default for Camera {
    fn default() -> (r: Self)
        ensures
            r == (Camera { x: 0, y: 0 }),
    {
        Camera { x: 0, y: 0 }
    }
}

/// The camera never shows anything outside a level at least a screen wide:
/// its window starts at or after the level's left edge and ends at or before
/// its right edge.
pub proof fn lemma_camera_stays_inside(focus: int, level: int)
    requires
        level >= 160,
    ensures
        0 <= centered(focus, 160, level),
        centered(focus, 160, level) + 160 <= level,
{
}

} // verus!
