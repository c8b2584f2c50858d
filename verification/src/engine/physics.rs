//! Movement physics for Mario.
//!
//! All values are in subpixels (see [`super::entity::SUBPIXEL`]). Velocity is
//! subpixels per frame, acceleration is subpixels per frame per frame. The
//! constants are pinned to the cartridge: walking climbs by one sixth of a
//! pixel per frame to a cap of one pixel per frame, and a jump runs through
//! three regimes (a near-flat held rise capped at a frame count, a strong
//! deceleration once released, and real gravity while falling).
use super::entity::{facing_after, pixels, size_of_power, to_pixel, Mario, POSITION_LIMIT, VELOCITY_LIMIT};
use super::level::{tile_of, Solids, TILE};
use crate::input::{Button, Buttons};
use crate::math::{clamp_i, clamp_i32, max_i, max_i32, min_i, min_i32};
use crate::tuning::{Tuning, TUNING_LIMIT};
use vstd::prelude::*;

verus! {

/// Horizontal acceleration while a direction is held.
pub const WALK_ACCEL: i32 = 43;
/// Deceleration applied when no direction is held.
pub const FRICTION: i32 = 43;
/// Cap on horizontal speed while walking.
pub const MAX_WALK_SPEED: i32 = 256;
/// Downward acceleration per frame while falling.
pub const GRAVITY: i32 = 76;
/// Cap on downward speed, so falling does not tunnel through thin floors.
pub const MAX_FALL_SPEED: i32 = 640;
/// Upward speed given at the start of a jump.
pub const JUMP_VELOCITY: i32 = 602;
/// Tiny deceleration applied each frame while rising with the button held.
pub const RISE_DRIFT: i32 = 10;
/// How many frames a held rise can last before it is cut off.
pub const MAX_RISE_FRAMES: i32 = 12;
/// Deceleration once a rise is no longer sustained by a held button.
pub const JUMP_CUT: i32 = 76;
/// What a moving jump does at the rise cap instead of stopping dead.
pub const GLIDE_VELOCITY: i32 = 384;
/// Deceleration through the glide.
pub const GLIDE_CUT: i32 = 32;
/// How long the glide lasts.
pub const GLIDE_FRAMES: i32 = 12;
/// Deceleration applied to a stomp bounce.
pub const BOUNCE_CUT: i32 = 29;
/// Upward speed Mario gets from stomping an enemy.
pub const STOMP_BOUNCE: i32 = 360;
/// How much of Mario the terrain stops when he walks into it, measured up
/// from his feet.
pub const WALK_HEIGHT: i32 = 8;
/// How wide the part of Mario is that a ceiling stops, centred in his box.
pub const HEAD_WIDTH: i32 = 5;

/// The loose limits intermediate states of a frame stay within.
pub open spec fn loose(m: Mario) -> bool {
    &&& -2 * POSITION_LIMIT <= m.x <= 2 * POSITION_LIMIT
    &&& -2 * POSITION_LIMIT <= m.y <= 2 * POSITION_LIMIT
    &&& -2 * VELOCITY_LIMIT <= m.vx <= 2 * VELOCITY_LIMIT
    &&& -2 * VELOCITY_LIMIT <= m.vy <= 2 * VELOCITY_LIMIT
    &&& -2 * VELOCITY_LIMIT <= m.rise_frames <= 2 * VELOCITY_LIMIT
}

/// Move a velocity toward zero by `amount`, without overshooting past zero.
pub open spec fn coast(v: int, amount: int) -> int {
    if v > 0 {
        max_i(v - amount, 0)
    } else if v < 0 {
        min_i(v + amount, 0)
    } else {
        0
    }
}

/// Horizontal velocity after a frame of walking input.
pub open spec fn walk_vx(vx: int, buttons: Buttons, t: Tuning) -> int {
    let left = buttons.held(Button::Left);
    let right = buttons.held(Button::Right);
    let v = if left && !right {
        vx - t.walk_accel
    } else if !left && right {
        vx + t.walk_accel
    } else {
        coast(vx, t.friction as int)
    };
    clamp_i(v, -t.max_walk_speed, t.max_walk_speed as int)
}

/// Mario after this frame's walking input, before he moves.
#[verifier::opaque]
pub open spec fn walked(m: Mario, buttons: Buttons, t: Tuning) -> Mario {
    Mario { vx: walk_vx(m.vx as int, buttons, t) as i32, facing: facing_after(m.facing, buttons), ..m }
}

/// Pixel edges of Mario's box: (left, top, right, bottom), inclusive.
pub open spec fn edges_of(m: Mario) -> (int, int, int, int) {
    let (w, h) = size_of_power(m.power);
    (m.px(), m.py(), m.px() + w - 1, m.py() + h - 1)
}

/// Walls stop the part of Mario within `WALK_HEIGHT` of his feet.
#[verifier::opaque]
pub open spec fn resolved_horizontal(m: Mario, solids: Solids) -> Mario {
    let (w, _h) = size_of_power(m.power);
    let (left, _top, right, bottom) = edges_of(m);
    let top = bottom - (WALK_HEIGHT - 1);
    if m.vx > 0 && solids.rect_solid(right, top, right, bottom) {
        Mario { x: ((tile_of(right) * 8 - w) * 256) as i32, vx: 0, ..m }
    } else if m.vx < 0 && solids.rect_solid(left, top, left, bottom) {
        Mario { x: ((tile_of(left) * 8 + 8) * 256) as i32, vx: 0, ..m }
    } else {
        m
    }
}

/// Walls stop Mario, whichever way he walks. Moving left, when a solid tile
/// lies in his left pixel column within `WALK_HEIGHT` of his feet, he stops
/// with his left edge on the pixel just right of that tile; moving right,
/// when one lies in his right column, he stops with his right edge on the
/// pixel just left of it. Either way only his x and his speed change.
pub proof fn law_walls_stop_mario(m: Mario, solids: Solids, ty: int)
    requires
        loose(m),
        tile_of(m.py() + size_of_power(m.power).1 - WALK_HEIGHT) <= ty <= tile_of(m.py() + size_of_power(m.power).1 - 1),
    ensures
        m.vx < 0 && solids.solid_at(tile_of(m.px()), ty) ==> {
            let r = resolved_horizontal(m, solids);
            &&& r.vx == 0
            &&& r.px() == tile_of(m.px()) * 8 + 8
            &&& r == (Mario { x: r.x, vx: 0, ..m })
        },
        m.vx > 0 && solids.solid_at(tile_of(m.px() + size_of_power(m.power).0 - 1), ty) ==> {
            let r = resolved_horizontal(m, solids);
            &&& r.vx == 0
            &&& r.px() + size_of_power(m.power).0 - 1 == tile_of(m.px() + size_of_power(m.power).0 - 1) * 8 - 1
            &&& r == (Mario { x: r.x, vx: 0, ..m })
        },
{
    reveal(resolved_horizontal);
    let (w, h) = size_of_power(m.power);
    let left = m.px();
    let right = left + w - 1;
    let bottom = m.py() + h - 1;
    let top = bottom - (WALK_HEIGHT - 1);
    let r = resolved_horizontal(m, solids);
    assert(-0x40_0000 <= left <= 0x40_0000);
    if m.vx < 0 && solids.solid_at(tile_of(left), ty) {
        assert(solids.rect_solid(left, top, left, bottom));
        let v = tile_of(left) * 8 + 8;
        assert(-0x40_0010 <= v <= 0x40_0010);
        assert(r.x == v * 256);
        assert((v * 256) / 256 == v);
    }
    if m.vx > 0 && solids.solid_at(tile_of(right), ty) {
        assert(solids.rect_solid(right, top, right, bottom));
        let v = tile_of(right) * 8 - w;
        assert(-0x40_0010 <= v <= 0x40_0010);
        assert(r.x == v * 256);
        assert((v * 256) / 256 == v);
    }
}

/// A jump starts on the frame the button is pressed while grounded; the latch
/// keeps a held button from jumping again and is cleared on release.
#[verifier::opaque]
pub open spec fn jumped(m: Mario, buttons: Buttons, t: Tuning) -> Mario {
    let jump = buttons.held(Button::A);
    let m1 = if m.on_ground && jump && !m.jump_latched {
        Mario { vy: (-t.jump_velocity) as i32, on_ground: false, jump_latched: true, rise_frames: 0, bouncing: false, ..m }
    } else {
        m
    };
    if !jump {
        Mario { jump_latched: false, ..m1 }
    } else {
        m1
    }
}

/// The vertical velocity regimes of one airborne frame.
#[verifier::opaque]
pub open spec fn accelerated(m: Mario, buttons: Buttons, t: Tuning) -> Mario {
    if m.on_ground {
        m
    } else {
        let rising = m.vy < 0;
        let holding = buttons.held(Button::A) && !m.bouncing;
        if rising && holding && m.rise_frames < t.max_rise_frames {
            Mario { rise_frames: (m.rise_frames + 1) as i32, vy: (m.vy + t.rise_drift) as i32, ..m }
        } else if rising && holding && m.rise_frames == t.max_rise_frames {
            if m.vx != 0 {
                Mario { rise_frames: (m.rise_frames + 1) as i32, vy: (-t.glide_velocity) as i32, ..m }
            } else {
                Mario {
                    rise_frames: (m.rise_frames + 1) as i32,
                    vy: min_i(t.gravity as int, t.max_fall_speed as int) as i32,
                    ..m
                }
            }
        } else if holding && m.vy < 0 && m.rise_frames < t.max_rise_frames + t.glide_frames {
            Mario { rise_frames: (m.rise_frames + 1) as i32, vy: min_i(m.vy + t.glide_cut, 0) as i32, ..m }
        } else if rising {
            Mario { vy: (m.vy + if m.bouncing { t.bounce_cut } else { t.jump_cut }) as i32, ..m }
        } else {
            Mario { vy: min_i(m.vy + t.gravity, t.max_fall_speed as int) as i32, ..m }
        }
    }
}

/// Whether Mario lands on a one-way platform: one lies under his feet and his
/// feet were above its top before the frame's move.
pub open spec fn lands_on_platform(solids: Solids, left: int, right: int, bottom: int, was_above: int) -> bool {
    match solids.platform_row(left, right, bottom) {
        Some(ty) => was_above < ty * 8,
        None => false,
    }
}

/// Floors (and platforms crossed from above) stop a fall; a ceiling over the
/// middle `HEAD_WIDTH` pixels of his head stops a rise.
#[verifier::opaque]
pub open spec fn resolved_vertical(m: Mario, solids: Solids, was_above: int) -> Mario {
    let (_w, h) = size_of_power(m.power);
    let (left, top, right, bottom) = edges_of(m);
    let landed = solids.rect_solid(left, bottom, right, bottom) || lands_on_platform(
        solids,
        left,
        right,
        bottom,
        was_above,
    );
    let inset = (right - left + 1 - HEAD_WIDTH) / 2;
    if m.vy > 0 && landed {
        Mario { y: ((tile_of(bottom) * 8 - h) * 256) as i32, vy: 0, ..m }
    } else if m.vy < 0 && solids.rect_solid(left + inset, top, left + inset + HEAD_WIDTH - 1, top) {
        Mario { y: ((tile_of(top) * 8 + 8) * 256) as i32, vy: 0, ..m }
    } else {
        m
    }
}

/// Something sits directly under Mario's feet: a solid, or a platform while
/// he is not moving up.
#[verifier::opaque]
pub open spec fn is_grounded(m: Mario, solids: Solids) -> bool {
    let (left, _top, right, bottom) = edges_of(m);
    solids.rect_solid(left, bottom + 1, right, bottom + 1) || (m.vy >= 0 && solids.platform_row(
        left,
        right,
        bottom + 1,
    ) is Some)
}

/// One frame of Mario against the level.
pub open spec fn motion_step(m: Mario, buttons: Buttons, solids: Solids, t: Tuning) -> Mario {
    let m1 = walked(m, buttons, t);
    let m2 = Mario { x: (m1.x + m1.vx) as i32, ..m1 };
    let m3 = resolved_horizontal(m2, solids);
    let m4 = jumped(m3, buttons, t);
    let m5 = accelerated(m4, buttons, t);
    let was_above = edges_of(m5).3;
    let m6 = Mario { y: (m5.y + m5.vy) as i32, ..m5 };
    let m7 = resolved_vertical(m6, solids, was_above);
    let g = is_grounded(m7, solids);
    if g {
        Mario { on_ground: true, bouncing: false, vy: if m7.vy > 0 { 0 } else { m7.vy }, ..m7 }
    } else {
        Mario { on_ground: false, ..m7 }
    }
}

/// One frame of walking with no world: velocity and facing, then move.
pub open spec fn walk_step(m: Mario, buttons: Buttons, t: Tuning) -> Mario {
    let m1 = walked(m, buttons, t);
    Mario { x: (m1.x + m1.vx) as i32, ..m1 }
}

/// Move a velocity toward zero by `amount`, without overshooting past zero.
fn coast_to_zero(v: i32, amount: i32) -> (r: i32)
    requires
        -2 * VELOCITY_LIMIT <= v <= 2 * VELOCITY_LIMIT,
        -TUNING_LIMIT <= amount <= TUNING_LIMIT,
    ensures
        r == coast(v as int, amount as int),
{
    if v > 0 {
        max_i32(v - amount, 0)
    } else if v < 0 {
        min_i32(v + amount, 0)
    } else {
        0
    }
}

/// Update horizontal velocity and facing from the held buttons, without moving.
fn walk_velocity(mario: &mut Mario, buttons: Buttons, t: &Tuning)
    requires
        loose(*old(mario)),
        t.sane(),
    ensures
        *final(mario) == walked(*old(mario), buttons, *t),
        -TUNING_LIMIT <= final(mario).vx <= TUNING_LIMIT,
        final(mario).x == old(mario).x,
        final(mario).y == old(mario).y,
        final(mario).vy == old(mario).vy,
        final(mario).rise_frames == old(mario).rise_frames,
        final(mario).power == old(mario).power,
{
    reveal(walked);
    let left = buttons.is_held(Button::Left);
    let right = buttons.is_held(Button::Right);
    if left && !right {
        mario.vx = mario.vx - t.walk_accel;
    } else if !left && right {
        mario.vx = mario.vx + t.walk_accel;
    } else {
        mario.vx = coast_to_zero(mario.vx, t.friction);
    }
    mario.vx = clamp_i32(mario.vx, -t.max_walk_speed, t.max_walk_speed);
    mario.face_from_input(buttons);
}

/// Advance Mario's horizontal movement by one frame from the held buttons,
/// ignoring the world. Used where there is no level yet.
pub fn step_walk(mario: &mut Mario, buttons: Buttons, t: &Tuning)
    requires
        old(mario).in_bounds(),
        t.sane(),
    ensures
        *final(mario) == walk_step(*old(mario), buttons, *t),
{
    walk_velocity(mario, buttons, t);
    mario.x = mario.x + mario.vx;
}

/// Pixel edges of Mario's bounding box: (left, top, right, bottom), inclusive.
fn edges(mario: &Mario) -> (r: (i32, i32, i32, i32))
    requires
        loose(*mario),
    ensures
        (r.0 as int, r.1 as int, r.2 as int, r.3 as int) == edges_of(*mario),
{
    let (w, h) = mario.size();
    let left = mario.pixel_x();
    let top = mario.pixel_y();
    (left, top, left + w - 1, top + h - 1)
}

fn resolve_horizontal(mario: &mut Mario, solids: &Solids)
    requires
        loose(*old(mario)),
        solids.wf(),
    ensures
        *final(mario) == resolved_horizontal(*old(mario), *solids),
        -0x2000 <= final(mario).x - old(mario).x <= 0x2000,
        final(mario).y == old(mario).y,
        final(mario).vy == old(mario).vy,
        final(mario).rise_frames == old(mario).rise_frames,
        final(mario).power == old(mario).power,
        -2 * VELOCITY_LIMIT <= final(mario).vx <= 2 * VELOCITY_LIMIT,
        final(mario).vx == 0 || final(mario).vx == old(mario).vx,
{
    reveal(resolved_horizontal);
    let (w, _h) = mario.size();
    let (left, _full_top, right, bottom) = edges(mario);
    let top = bottom - (WALK_HEIGHT - 1);
    if mario.vx > 0 && solids.rect_hits_solid(right, top, right, bottom) {
        let wall_left = crate::math::div_floor(right, TILE) * TILE;
        mario.x = pixels(wall_left - w);
        mario.vx = 0;
    } else if mario.vx < 0 && solids.rect_hits_solid(left, top, left, bottom) {
        let wall_right = crate::math::div_floor(left, TILE) * TILE + (TILE - 1);
        mario.x = pixels(wall_right + 1);
        mario.vx = 0;
    }
}

/// Start a jump on the frame the jump button is pressed while grounded.
fn apply_jump(mario: &mut Mario, buttons: Buttons, t: &Tuning)
    requires
        t.sane(),
    ensures
        *final(mario) == jumped(*old(mario), buttons, *t),
        final(mario).x == old(mario).x,
        final(mario).y == old(mario).y,
        final(mario).vx == old(mario).vx,
        final(mario).power == old(mario).power,
        final(mario).vy == old(mario).vy || final(mario).vy == -t.jump_velocity,
        final(mario).rise_frames == old(mario).rise_frames || final(mario).rise_frames == 0,
{
    reveal(jumped);
    let jump = buttons.is_held(Button::A);
    if mario.on_ground && jump && !mario.jump_latched {
        mario.vy = -t.jump_velocity;
        mario.on_ground = false;
        mario.jump_latched = true;
        mario.rise_frames = 0;
        mario.bouncing = false;
    }
    if !jump {
        mario.jump_latched = false;
    }
}

/// Three regimes, not one constant acceleration: a near-flat rise while the
/// button is held, capped at a fixed frame count; a real deceleration if
/// released before that cap; and a real acceleration while falling.
fn apply_vertical_accel(mario: &mut Mario, buttons: Buttons, t: &Tuning)
    requires
        loose(*old(mario)),
        -VELOCITY_LIMIT <= old(mario).vy <= VELOCITY_LIMIT,
        -VELOCITY_LIMIT <= old(mario).rise_frames <= VELOCITY_LIMIT,
        t.sane(),
    ensures
        *final(mario) == accelerated(*old(mario), buttons, *t),
        final(mario).x == old(mario).x,
        final(mario).y == old(mario).y,
        final(mario).vx == old(mario).vx,
        final(mario).power == old(mario).power,
        -VELOCITY_LIMIT - TUNING_LIMIT <= final(mario).vy <= VELOCITY_LIMIT + TUNING_LIMIT,
        old(mario).rise_frames <= final(mario).rise_frames <= old(mario).rise_frames + 1,
{
    reveal(accelerated);
    if mario.on_ground {
        return;
    }
    let rising = mario.vy < 0;
    let holding_jump = buttons.is_held(Button::A) && !mario.bouncing;
    if rising && holding_jump && mario.rise_frames < t.max_rise_frames {
        mario.rise_frames = mario.rise_frames + 1;
        mario.vy = mario.vy + t.rise_drift;
        return;
    }
    if rising && holding_jump && mario.rise_frames == t.max_rise_frames {
        mario.rise_frames = mario.rise_frames + 1;
        if mario.vx != 0 {
            mario.vy = -t.glide_velocity;
            return;
        }
        mario.vy = 0;
    } else if holding_jump && mario.vy < 0 && mario.rise_frames < t.max_rise_frames + t.glide_frames {
        mario.rise_frames = mario.rise_frames + 1;
        mario.vy = min_i32(mario.vy + t.glide_cut, 0);
        return;
    } else if rising {
        mario.vy = mario.vy + if mario.bouncing {
            t.bounce_cut
        } else {
            t.jump_cut
        };
        return;
    }
    mario.vy = min_i32(mario.vy + t.gravity, t.max_fall_speed);
}

/// A one-way platform catches a fall only if the feet crossed its top edge
/// during this frame.
fn landed_on_platform(solids: &Solids, left: i32, right: i32, bottom: i32, was_above: i32) -> (r: bool)
    requires
        solids.wf(),
        -0x0100_0000 <= bottom <= 0x0100_0000,
    ensures
        r == lands_on_platform(*solids, left as int, right as int, bottom as int, was_above as int),
{
    match solids.platform_under(left, right, bottom) {
        Some(ty) => was_above < ty * TILE,
        None => false,
    }
}

/// `was_above` is Mario's bottom edge before this frame's move, which is what
/// decides a one-way platform: he lands on it only if his feet started above
/// its top.
fn resolve_vertical(mario: &mut Mario, solids: &Solids, was_above: i32)
    requires
        loose(*old(mario)),
        solids.wf(),
    ensures
        *final(mario) == resolved_vertical(*old(mario), *solids, was_above as int),
        -0x2000 <= final(mario).y - old(mario).y <= 0x2000,
        final(mario).x == old(mario).x,
        final(mario).vx == old(mario).vx,
        final(mario).rise_frames == old(mario).rise_frames,
        final(mario).power == old(mario).power,
        final(mario).vy == 0 || final(mario).vy == old(mario).vy,
{
    reveal(resolved_vertical);
    let (_w, h) = mario.size();
    let (left, top, right, bottom) = edges(mario);
    let landed = solids.rect_hits_solid(left, bottom, right, bottom) || landed_on_platform(
        solids,
        left,
        right,
        bottom,
        was_above,
    );
    let inset = (right - left + 1 - HEAD_WIDTH) / 2;
    if mario.vy > 0 && landed {
        let floor_top = crate::math::div_floor(bottom, TILE) * TILE;
        mario.y = pixels(floor_top - h);
        mario.vy = 0;
    } else if mario.vy < 0 && solids.rect_hits_solid(left + inset, top, left + inset + HEAD_WIDTH - 1, top) {
        let ceil_bottom = crate::math::div_floor(top, TILE) * TILE + (TILE - 1);
        mario.y = pixels(ceil_bottom + 1);
        mario.vy = 0;
    }
}

/// True when something sits directly under Mario's feet, solid or platform.
fn grounded(mario: &Mario, solids: &Solids) -> (r: bool)
    requires
        loose(*mario),
        solids.wf(),
    ensures
        r == is_grounded(*mario, *solids),
{
    reveal(is_grounded);
    let (left, _top, right, bottom) = edges(mario);
    solids.rect_hits_solid(left, bottom + 1, right, bottom + 1) || (mario.vy >= 0 && solids.platform_under(
        left,
        right,
        bottom + 1,
    ).is_some())
}

/// Advance Mario one frame against the level: walk sideways, fall under
/// gravity, and resolve collisions with solid tiles. Sets `on_ground` when
/// standing on a solid.
pub fn step_motion(mario: &mut Mario, buttons: Buttons, solids: &Solids, t: &Tuning)
    requires
        old(mario).in_bounds(),
        solids.wf(),
        t.sane(),
    ensures
        *final(mario) == motion_step(*old(mario), buttons, *solids, *t),
        loose(*final(mario)),
{
    walk_velocity(mario, buttons, t);
    mario.x = mario.x + mario.vx;
    resolve_horizontal(mario, solids);
    apply_jump(mario, buttons, t);
    apply_vertical_accel(mario, buttons, t);
    let was_above = edges(mario).3;
    mario.y = mario.y + mario.vy;
    resolve_vertical(mario, solids, was_above);
    mario.on_ground = grounded(mario, solids);
    if mario.on_ground {
        mario.bouncing = false;
        if mario.vy > 0 {
            mario.vy = 0;
        }
    }
}

} // verus!
