//! Enemies: things that move and can be defeated.
//!
//! An enemy walks, falls, and collides with the world much like Mario, with
//! simpler behavior. This module owns the entity, one physics step per kind,
//! and despawning enemies that have scrolled off screen.
use super::entity::{pixels, to_pixel, POSITION_LIMIT, SUBPIXEL, VELOCITY_LIMIT};
use super::level::{tile_of, Solids, TILE};
use super::physics::GRAVITY;
use crate::math::{div_floor, min_i, min_i32};
use crate::SCREEN_WIDTH;
use vstd::prelude::*;

verus! {

/// Enemies are one tile square: the body that walks into walls and stands on floors.
pub const ENEMY_SIZE: i32 = 8;
/// How much of an enemy hurts Mario, centred in its body.
pub const ENEMY_CONTACT: i32 = 5;
/// Horizontal walk speed in subpixels per frame: one pixel per three frames,
/// as near as 256 subpixels allow.
pub const ENEMY_WALK_SPEED: i32 = 85;
/// Downward speed of a falling enemy: one pixel per frame, flat.
pub const ENEMY_FALL_SPEED: i32 = 256;
/// How far past the screen edges an enemy may be before it despawns.
pub const DESPAWN_MARGIN: i32 = 32;
/// Upward speed a Bouncer gets on each hop.
pub const HOP_VELOCITY: i32 = 520;
/// Frames a Bouncer waits on the ground between hops.
pub const HOP_INTERVAL: u32 = 40;
/// The jumper's whole cycle in frames.
pub const HOP_CYCLE: u32 = 102;
/// Frames between position updates while it is in the air.
pub const HOP_STEP_FRAMES: u32 = 3;
/// Pixels it covers sideways on each update.
pub const HOP_STEP: i32 = 2;
/// Frames of a cycle spent in the air: sixteen updates three frames apart.
pub const HOP_FRAMES: u32 = 48;
/// The peak of the arc.
pub const HOP_HEIGHT: i32 = 15;
/// Frames World 1-3's faller waits before it drops.
pub const FALL_DELAY: u32 = 175;
/// Frames Bunbun spends moving in each cycle, one pixel a frame.
pub const FLIGHT_FRAMES: u32 = 41;
/// Frames it holds still between bursts.
pub const FLIGHT_HOLD: u32 = 33;
/// The whole cycle.
pub const FLIGHT_CYCLE: u32 = 74;

/// How far the jumper rises on each of the sixteen updates of a hop: a table
/// read off the cartridge's trace.
pub open spec fn hop_rise_spec(step: int) -> int {
    if step == 0 || step == 1 { 4 }
    else if step == 2 || step == 3 { 2 }
    else if step == 4 || step == 5 || step == 6 { 1 }
    else if step == 7 || step == 8 { 0 }
    else if step == 9 || step == 10 || step == 11 { -1 }
    else if step == 12 || step == 13 { -2 }
    else { -4 }
}

/// The rise table, computed.
pub fn hop_rise(step: u32) -> (r: i32)
    requires
        step < 16,
    ensures
        r == hop_rise_spec(step as int),
{
    if step <= 1 { 4 }
    else if step <= 3 { 2 }
    else if step <= 6 { 1 }
    else if step <= 8 { 0 }
    else if step <= 11 { -1 }
    else if step <= 13 { -2 }
    else { -4 }
}

#[derive(Debug, Clone, Copy, PartialEq, Eq, Structural)]
pub enum EnemyKind {
    /// Walks along the ground, turns at walls, and walks off ledges.
    Goomba,
    /// Walks the same way but turns at a ledge instead of walking off it.
    LedgeTurner,
    /// Walks but hops on a timer. Ours, not the cartridge's.
    Bouncer,
    /// Holds its position for 175 frames and then drops a pixel a frame.
    Faller,
    /// The cartridge's jumper: still for 54 frames, then a 32 px hop.
    Fly,
    /// Flies level, in bursts, and ignores everything.
    Bunbun,
}

#[derive(Debug, Clone, Copy, PartialEq, Eq, Structural)]
pub struct Enemy {
    /// Top-left, in subpixels.
    pub x: i32,
    pub y: i32,
    pub vx: i32,
    pub vy: i32,
    pub on_ground: bool,
    pub alive: bool,
    pub kind: EnemyKind,
    /// Countdown to the next hop, for a Bouncer.
    pub hop_timer: u32,
    /// Frames into the current cycle, for a Fly, a Bunbun or a Faller.
    pub phase: u32,
}

impl Enemy {
    pub open spec fn px(self) -> int {
        to_pixel(self.x as int)
    }

    pub open spec fn py(self) -> int {
        to_pixel(self.y as int)
    }

    /// Pixel edges of the body, inclusive.
    pub open spec fn body(self) -> (int, int, int, int) {
        (self.px(), self.py(), self.px() + 7, self.py() + 7)
    }

    /// Position and velocity inside the limits the simulation works in.
    pub open spec fn in_bounds(self) -> bool {
        &&& -POSITION_LIMIT <= self.x <= POSITION_LIMIT
        &&& -POSITION_LIMIT <= self.y <= POSITION_LIMIT
        &&& -VELOCITY_LIMIT <= self.vx <= VELOCITY_LIMIT
        &&& -VELOCITY_LIMIT <= self.vy <= VELOCITY_LIMIT
        &&& self.phase < u32::MAX
    }

    /// A fresh enemy of `kind` at a whole-pixel position.
    pub open spec fn made(pixel_x: int, pixel_y: int, going_left: bool, kind: EnemyKind) -> Enemy {
        Enemy {
            x: (pixel_x * 256) as i32,
            y: (pixel_y * 256) as i32,
            vx: if going_left { -85i32 } else { 85i32 },
            vy: 0,
            on_ground: false,
            alive: true,
            kind,
            hop_timer: HOP_INTERVAL,
            phase: 0,
        }
    }

    fn new(pixel_x: i32, pixel_y: i32, going_left: bool, kind: EnemyKind) -> (r: Self)
        requires
            -0x0080_0000 < pixel_x < 0x0080_0000,
            -0x0080_0000 < pixel_y < 0x0080_0000,
        ensures
            r == Enemy::made(pixel_x as int, pixel_y as int, going_left, kind),
    {
        let speed = if going_left { -ENEMY_WALK_SPEED } else { ENEMY_WALK_SPEED };
        Enemy {
            x: pixels(pixel_x),
            y: pixels(pixel_y),
            vx: speed,
            vy: 0,
            on_ground: false,
            alive: true,
            kind,
            hop_timer: HOP_INTERVAL,
            phase: 0,
        }
    }

    /// A Goomba at a whole-pixel position, walking left or right.
    pub fn goomba(pixel_x: i32, pixel_y: i32, going_left: bool) -> (r: Self)
        requires
            -0x0080_0000 < pixel_x < 0x0080_0000,
            -0x0080_0000 < pixel_y < 0x0080_0000,
        ensures
            r == Enemy::made(pixel_x as int, pixel_y as int, going_left, EnemyKind::Goomba),
    {
        Self::new(pixel_x, pixel_y, going_left, EnemyKind::Goomba)
    }

    /// The walker that turns at a ledge rather than walking off it.
    pub fn ledge_turner(pixel_x: i32, pixel_y: i32, going_left: bool) -> (r: Self)
        requires
            -0x0080_0000 < pixel_x < 0x0080_0000,
            -0x0080_0000 < pixel_y < 0x0080_0000,
        ensures
            r == Enemy::made(pixel_x as int, pixel_y as int, going_left, EnemyKind::LedgeTurner),
    {
        Self::new(pixel_x, pixel_y, going_left, EnemyKind::LedgeTurner)
    }

    /// A Bouncer at a whole-pixel position: it walks and hops.
    pub fn bouncer(pixel_x: i32, pixel_y: i32, going_left: bool) -> (r: Self)
        requires
            -0x0080_0000 < pixel_x < 0x0080_0000,
            -0x0080_0000 < pixel_y < 0x0080_0000,
        ensures
            r == Enemy::made(pixel_x as int, pixel_y as int, going_left, EnemyKind::Bouncer),
    {
        Self::new(pixel_x, pixel_y, going_left, EnemyKind::Bouncer)
    }

    /// World 1-3's faller, at the start of its wait, never moving sideways.
    pub fn faller(pixel_x: i32, pixel_y: i32) -> (r: Self)
        requires
            -0x0080_0000 < pixel_x < 0x0080_0000,
            -0x0080_0000 < pixel_y < 0x0080_0000,
        ensures
            r == (Enemy { vx: 0, ..Enemy::made(pixel_x as int, pixel_y as int, true, EnemyKind::Faller) }),
    {
        let mut faller = Self::new(pixel_x, pixel_y, true, EnemyKind::Faller);
        faller.vx = 0;
        faller
    }

    /// The cartridge's jumper, resting at the start of the still part of its
    /// cycle so it has a moment on the ground before its first hop.
    pub fn fly(pixel_x: i32, pixel_y: i32, going_left: bool) -> (r: Self)
        requires
            -0x0080_0000 < pixel_x < 0x0080_0000,
            -0x0080_0000 < pixel_y < 0x0080_0000,
        ensures
            r == (Enemy { phase: HOP_FRAMES, ..Enemy::made(pixel_x as int, pixel_y as int, going_left, EnemyKind::Fly) }),
    {
        let mut hopper = Self::new(pixel_x, pixel_y, going_left, EnemyKind::Fly);
        hopper.phase = HOP_FRAMES;
        hopper
    }

    /// Bunbun, at the start of a burst, setting off left.
    pub fn bunbun(pixel_x: i32, pixel_y: i32) -> (r: Self)
        requires
            -0x0080_0000 < pixel_x < 0x0080_0000,
            -0x0080_0000 < pixel_y < 0x0080_0000,
        ensures
            r == Enemy::made(pixel_x as int, pixel_y as int, true, EnemyKind::Bunbun),
    {
        Self::new(pixel_x, pixel_y, true, EnemyKind::Bunbun)
    }

    pub fn pixel_x(&self) -> (r: i32)
        ensures
            r == self.px(),
    {
        div_floor(self.x, SUBPIXEL)
    }

    pub fn pixel_y(&self) -> (r: i32)
        ensures
            r == self.py(),
    {
        div_floor(self.y, SUBPIXEL)
    }

    /// Pixel edges (left, top, right, bottom), inclusive.
    pub fn edges(&self) -> (r: (i32, i32, i32, i32))
        ensures
            (r.0 as int, r.1 as int, r.2 as int, r.3 as int) == self.body(),
    {
        let l = self.pixel_x();
        let t = self.pixel_y();
        (l, t, l + ENEMY_SIZE - 1, t + ENEMY_SIZE - 1)
    }

    /// The smaller box that decides whether Mario is hurt or stomps, centred
    /// in the body.
    pub fn contact_edges(&self) -> (r: (i32, i32, i32, i32))
        ensures
            (r.0 as int, r.1 as int, r.2 as int, r.3 as int) == (self.px() + 1, self.py() + 1, self.px() + 5, self.py() + 5),
    {
        let inset = (ENEMY_SIZE - ENEMY_CONTACT) / 2;
        let l = self.pixel_x() + inset;
        let t = self.pixel_y() + inset;
        (l, t, l + ENEMY_CONTACT - 1, t + ENEMY_CONTACT - 1)
    }
}

/// The loose limits an enemy stays within while a frame is worked out.
pub open spec fn loose(e: Enemy) -> bool {
    &&& -2 * POSITION_LIMIT <= e.x <= 2 * POSITION_LIMIT
    &&& -2 * POSITION_LIMIT <= e.y <= 2 * POSITION_LIMIT
    &&& -2 * VELOCITY_LIMIT <= e.vx <= 2 * VELOCITY_LIMIT
    &&& -2 * VELOCITY_LIMIT <= e.vy <= 2 * VELOCITY_LIMIT
}

/// Sideways, reversing at a wall: the move an enemy makes along `dx` pixels
/// worth of subpixels.
pub open spec fn after_wall(e: Enemy, solids: Solids, moving_right: bool, moving_left: bool) -> Enemy {
    let (l, t, r, b) = e.body();
    if moving_right && solids.rect_solid(r, t, r, b) {
        Enemy { x: ((tile_of(r) * 8 - 8) * 256) as i32, vx: -e.vx as i32, ..e }
    } else if moving_left && solids.rect_solid(l, t, l, b) {
        Enemy { x: ((tile_of(l) * 8 + 8) * 256) as i32, vx: -e.vx as i32, ..e }
    } else {
        e
    }
}

/// Walkers turn at walls, whichever way they walk. An enemy moving left
/// whose left pixel column touches a solid tile beside its body ends with
/// its left edge on the pixel just right of that tile and its speed
/// reversed; moving right, with its right edge on the pixel just left of
/// the tile. Nothing else about it changes.
pub proof fn law_walls_turn_enemies(e: Enemy, solids: Solids, ty: int)
    requires
        loose(e),
        tile_of(e.py()) <= ty <= tile_of(e.py() + 7),
    ensures
        e.vx < 0 && solids.solid_at(tile_of(e.px()), ty) ==> {
            let r = after_wall(e, solids, e.vx > 0, e.vx < 0);
            &&& r.vx == -e.vx
            &&& r.px() == tile_of(e.px()) * 8 + 8
            &&& r == (Enemy { x: r.x, vx: r.vx, ..e })
        },
        e.vx > 0 && solids.solid_at(tile_of(e.px() + 7), ty) ==> {
            let r = after_wall(e, solids, e.vx > 0, e.vx < 0);
            &&& r.vx == -e.vx
            &&& r.px() + 7 == tile_of(e.px() + 7) * 8 - 1
            &&& r == (Enemy { x: r.x, vx: r.vx, ..e })
        },
{
    let (l, t, rt, b) = e.body();
    let r = after_wall(e, solids, e.vx > 0, e.vx < 0);
    assert(-0x40_0000 <= l <= 0x40_0000);
    if e.vx < 0 && solids.solid_at(tile_of(l), ty) {
        assert(solids.rect_solid(l, t, l, b));
        let v = tile_of(l) * 8 + 8;
        assert(r.x == v * 256);
        assert((v * 256) / 256 == v);
    }
    if e.vx > 0 && solids.solid_at(tile_of(rt), ty) {
        assert(solids.rect_solid(rt, t, rt, b));
        let v = tile_of(rt) * 8 - 8;
        assert(r.x == v * 256);
        assert((v * 256) / 256 == v);
    }
}

/// One position update of a hop: sideways, then the table's rise or fall,
/// landing on a floor when coming down.
pub open spec fn hop_update(e: Enemy, solids: Solids, rise: int) -> Enemy {
    let dx = if e.vx < 0 { -2 } else { 2 };
    let e1 = Enemy { x: (e.x + dx * 256) as i32, ..e };
    let e2 = after_wall(e1, solids, dx > 0, dx < 0);
    let e3 = Enemy { y: (e2.y - rise * 256) as i32, ..e2 };
    let (l, _t, r, b) = e3.body();
    if rise < 0 && solids.rect_solid(l, b, r, b) {
        Enemy { y: ((tile_of(b) * 8 - 8) * 256) as i32, ..e3 }
    } else {
        e3
    }
}

/// Whether there is ground directly under the body.
pub open spec fn supported(e: Enemy, solids: Solids) -> bool {
    let (l, _t, r, b) = e.body();
    solids.rect_solid(l, b + 1, r, b + 1)
}

/// The jumper's frame: a hop update every third frame of the first 48, then
/// standing still (or dropping a pixel a frame over a pit).
#[verifier::opaque]
pub open spec fn hopper_step(e: Enemy, solids: Solids) -> Enemy {
    let e1 = if e.phase < HOP_FRAMES {
        if e.phase % 3 == 0 {
            hop_update(e, solids, hop_rise_spec((e.phase / 3) as int))
        } else {
            e
        }
    } else if !supported(e, solids) {
        Enemy { y: (e.y + 256) as i32, ..e }
    } else {
        e
    };
    let e2 = Enemy { phase: ((e1.phase + 1) % (HOP_CYCLE as int)) as u32, ..e1 };
    Enemy { on_ground: supported(e2, solids), ..e2 }
}

/// Bunbun's frame: a pixel left during the burst, then still.
pub open spec fn flight_step(e: Enemy) -> Enemy {
    let e1 = if e.phase < FLIGHT_FRAMES { Enemy { x: (e.x - 256) as i32, ..e } } else { e };
    Enemy { phase: ((e1.phase + 1) % (FLIGHT_CYCLE as int)) as u32, ..e1 }
}

/// A ledge turner turns before stepping off the end of its floor.
#[verifier::opaque]
pub open spec fn ledge_turned(e: Enemy, solids: Solids) -> Enemy {
    if e.on_ground && e.kind == EnemyKind::LedgeTurner && e.vx != 0 {
        let (l, _t, r, b) = e.body();
        let ahead = if e.vx > 0 { r + 1 } else { l - 1 };
        if !solids.rect_solid(ahead, b + 1, ahead, b + 1) {
            Enemy { vx: -e.vx as i32, ..e }
        } else {
            e
        }
    } else {
        e
    }
}

/// Walking, which stops while airborne, then reversing at walls.
#[verifier::opaque]
pub open spec fn walked(e: Enemy, solids: Solids) -> Enemy {
    let e1 = if e.on_ground { Enemy { x: (e.x + e.vx) as i32, ..e } } else { e };
    after_wall(e1, solids, e1.vx > 0, e1.vx < 0)
}

/// A Bouncer hops on a timer while it is on the ground.
pub open spec fn bounced(e: Enemy) -> Enemy {
    if e.kind == EnemyKind::Bouncer && e.on_ground {
        if e.hop_timer == 0 {
            Enemy { vy: (-HOP_VELOCITY) as i32, on_ground: false, hop_timer: HOP_INTERVAL, ..e }
        } else {
            Enemy { hop_timer: (e.hop_timer - 1) as u32, ..e }
        }
    } else {
        e
    }
}

/// Falling at a flat rate (after finishing any hop's rise), landing on a
/// floor, and noting whether there is ground underneath.
#[verifier::opaque]
pub open spec fn fallen(e: Enemy, solids: Solids) -> Enemy {
    let e1 = if !e.on_ground {
        Enemy {
            vy: if e.vy < 0 { min_i(e.vy + GRAVITY, 256) as i32 } else { 256 },
            ..e
        }
    } else {
        e
    };
    let e2 = Enemy { y: (e1.y + e1.vy) as i32, ..e1 };
    let (l, _t, r, b) = e2.body();
    let e3 = if e2.vy > 0 && solids.rect_solid(l, b, r, b) {
        Enemy { y: ((tile_of(b) * 8 - 8) * 256) as i32, vy: 0, ..e2 }
    } else {
        e2
    };
    let g = supported(e3, solids);
    Enemy { on_ground: g, vy: if g && e3.vy > 0 { 0 } else { e3.vy }, ..e3 }
}

/// One frame of an enemy.
pub open spec fn enemy_step(e: Enemy, solids: Solids) -> Enemy {
    if !e.alive {
        e
    } else if e.kind == EnemyKind::Fly {
        hopper_step(e, solids)
    } else if e.kind == EnemyKind::Bunbun {
        flight_step(e)
    } else if e.kind == EnemyKind::Faller && e.phase < FALL_DELAY {
        Enemy { phase: (e.phase + 1) as u32, ..e }
    } else {
        fallen(bounced(walked(ledge_turned(e, solids), solids)), solids)
    }
}

fn bounce_off_walls(enemy: &mut Enemy, solids: &Solids, moving_right: bool, moving_left: bool)
    requires
        loose(*old(enemy)),
        solids.wf(),
    ensures
        *final(enemy) == after_wall(*old(enemy), *solids, moving_right, moving_left),
        -0x1000 <= final(enemy).x - old(enemy).x <= 0x1000,
{
    let (l, t, r, b) = enemy.edges();
    if moving_right && solids.rect_hits_solid(r, t, r, b) {
        enemy.x = pixels(div_floor(r, TILE) * TILE - ENEMY_SIZE);
        enemy.vx = -enemy.vx;
    } else if moving_left && solids.rect_hits_solid(l, t, l, b) {
        enemy.x = pixels(div_floor(l, TILE) * TILE + TILE);
        enemy.vx = -enemy.vx;
    }
}

/// One position update of a hop: sideways, then the table's rise or fall.
fn step_hop(enemy: &mut Enemy, solids: &Solids, rise: i32)
    requires
        old(enemy).in_bounds(),
        solids.wf(),
        -4 <= rise <= 4,
    ensures
        *final(enemy) == hop_update(*old(enemy), *solids, rise as int),
        -0x2000 <= final(enemy).x - old(enemy).x <= 0x2000,
        -0x2000 <= final(enemy).y - old(enemy).y <= 0x2000,
        final(enemy).vy == old(enemy).vy,
        final(enemy).vx == old(enemy).vx || final(enemy).vx == -old(enemy).vx,
{
    let dx = if enemy.vx < 0 { -HOP_STEP } else { HOP_STEP };
    enemy.x = enemy.x + pixels(dx);
    bounce_off_walls(enemy, solids, dx > 0, dx < 0);
    enemy.y = enemy.y - pixels(rise);
    if rise < 0 {
        let (l, _t, r, b) = enemy.edges();
        if solids.rect_hits_solid(l, b, r, b) {
            enemy.y = pixels(div_floor(b, TILE) * TILE - ENEMY_SIZE);
        }
    }
}

fn on_solid_ground(enemy: &Enemy, solids: &Solids) -> (r: bool)
    requires
        loose(*enemy),
        solids.wf(),
    ensures
        r == supported(*enemy, *solids),
{
    let (l, _t, r, b) = enemy.edges();
    solids.rect_hits_solid(l, b + 1, r, b + 1)
}

/// Advance the cartridge's jumper a frame. It ignores the velocity model the
/// walkers use: a fixed table of rises applied every third frame.
fn update_hopper(enemy: &mut Enemy, solids: &Solids)
    requires
        old(enemy).in_bounds(),
        solids.wf(),
    ensures
        *final(enemy) == hopper_step(*old(enemy), *solids),
        loose(*final(enemy)),
{
    reveal(hopper_step);
    if enemy.phase < HOP_FRAMES {
        if enemy.phase % HOP_STEP_FRAMES == 0 {
            let step = enemy.phase / HOP_STEP_FRAMES;
            let rise = hop_rise(step);
            step_hop(enemy, solids, rise);
        }
    } else {
        if !on_solid_ground(enemy, solids) {
            enemy.y = enemy.y + ENEMY_FALL_SPEED;
        }
    }
    enemy.phase = (enemy.phase + 1) % HOP_CYCLE;
    enemy.on_ground = on_solid_ground(enemy, solids);
}

fn turn_at_ledge(enemy: &mut Enemy, solids: &Solids)
    requires
        old(enemy).in_bounds(),
        solids.wf(),
    ensures
        *final(enemy) == ledge_turned(*old(enemy), *solids),
        final(enemy).phase == old(enemy).phase,
        final(enemy).x == old(enemy).x,
        final(enemy).y == old(enemy).y,
        final(enemy).vy == old(enemy).vy,
        final(enemy).vx == old(enemy).vx || final(enemy).vx == -old(enemy).vx,
{
    reveal(ledge_turned);
    if enemy.on_ground && enemy.kind == EnemyKind::LedgeTurner && enemy.vx != 0 {
        let (l, _t, r, b) = enemy.edges();
        let ahead = if enemy.vx > 0 { r + 1 } else { l - 1 };
        if !solids.rect_hits_solid(ahead, b + 1, ahead, b + 1) {
            enemy.vx = -enemy.vx;
        }
    }
}

fn walk(enemy: &mut Enemy, solids: &Solids)
    requires
        old(enemy).in_bounds(),
        solids.wf(),
    ensures
        *final(enemy) == walked(*old(enemy), *solids),
        -0x2000 - VELOCITY_LIMIT <= final(enemy).x - old(enemy).x <= 0x2000 + VELOCITY_LIMIT,
        final(enemy).y == old(enemy).y,
        final(enemy).vy == old(enemy).vy,
        final(enemy).vx == old(enemy).vx || final(enemy).vx == -old(enemy).vx,
{
    reveal(walked);
    if enemy.on_ground {
        enemy.x = enemy.x + enemy.vx;
    }
    let moving_right = enemy.vx > 0;
    let moving_left = enemy.vx < 0;
    bounce_off_walls(enemy, solids, moving_right, moving_left);
}

fn bounce(enemy: &mut Enemy)
    ensures
        *final(enemy) == bounced(*old(enemy)),
{
    if enemy.kind == EnemyKind::Bouncer && enemy.on_ground {
        if enemy.hop_timer == 0 {
            enemy.vy = -HOP_VELOCITY;
            enemy.on_ground = false;
            enemy.hop_timer = HOP_INTERVAL;
        } else {
            enemy.hop_timer = enemy.hop_timer - 1;
        }
    }
}

fn fall(enemy: &mut Enemy, solids: &Solids)
    requires
        loose(*old(enemy)),
        -POSITION_LIMIT - 0x4000 - VELOCITY_LIMIT <= old(enemy).y <= POSITION_LIMIT + 0x4000 + VELOCITY_LIMIT,
        -VELOCITY_LIMIT <= old(enemy).vy <= VELOCITY_LIMIT,
        solids.wf(),
    ensures
        *final(enemy) == fallen(*old(enemy), *solids),
        loose(*final(enemy)),
{
    reveal(fallen);
    if !enemy.on_ground {
        enemy.vy = if enemy.vy < 0 {
            min_i32(enemy.vy + GRAVITY, ENEMY_FALL_SPEED)
        } else {
            ENEMY_FALL_SPEED
        };
    }
    enemy.y = enemy.y + enemy.vy;
    let (l, _t, r, b) = enemy.edges();
    if enemy.vy > 0 && solids.rect_hits_solid(l, b, r, b) {
        let floor_top = div_floor(b, TILE) * TILE;
        enemy.y = pixels(floor_top - ENEMY_SIZE);
        enemy.vy = 0;
    }
    enemy.on_ground = on_solid_ground(enemy, solids);
    if enemy.on_ground && enemy.vy > 0 {
        enemy.vy = 0;
    }
}

/// Advance one enemy a frame: walk, reverse at walls, fall, land on floors.
/// A dead enemy and a waiting Faller are left as they are whatever their
/// position; a Bunbun only needs room for one pixel's flight to the left.
pub fn update_enemy(enemy: &mut Enemy, solids: &Solids)
    requires
        solids.wf(),
        old(enemy).alive && old(enemy).kind == EnemyKind::Bunbun ==> -0x7fff_ff00 <= old(enemy).x && old(enemy).phase
            < u32::MAX,
        old(enemy).alive && old(enemy).kind != EnemyKind::Bunbun && !(old(enemy).kind == EnemyKind::Faller
            && old(enemy).phase < FALL_DELAY) ==> old(enemy).in_bounds(),
    ensures
        *final(enemy) == enemy_step(*old(enemy), *solids),
        old(enemy).in_bounds() ==> loose(*final(enemy)),
{
    if !enemy.alive {
        return;
    }
    if enemy.kind == EnemyKind::Fly {
        update_hopper(enemy, solids);
        return;
    }
    if enemy.kind == EnemyKind::Bunbun {
        if enemy.phase < FLIGHT_FRAMES {
            enemy.x = enemy.x - SUBPIXEL;
        }
        enemy.phase = (enemy.phase + 1) % FLIGHT_CYCLE;
        return;
    }
    if enemy.kind == EnemyKind::Faller && enemy.phase < FALL_DELAY {
        enemy.phase = enemy.phase + 1;
        return;
    }
    turn_at_ledge(enemy, solids);
    walk(enemy, solids);
    bounce(enemy);
    fall(enemy, solids);
}

/// Whether an enemy survives despawning: alive, and its body within the
/// margin either side of the visible window.
pub open spec fn stays_on_screen(e: Enemy, camera_x: int) -> bool {
    let (l, _t, r, _b) = e.body();
    e.alive && r >= camera_x - DESPAWN_MARGIN && l <= camera_x + 160 + DESPAWN_MARGIN
}

/// The despawn test as a predicate over enemies.
pub open spec fn on_screen_pred(camera_x: int) -> spec_fn(Enemy) -> bool {
    |e: Enemy| stays_on_screen(e, camera_x)
}

/// Remove enemies that are dead or have scrolled off screen. `camera_x` is the
/// left edge of the visible window in pixels. The rest keep their order.
/// Any camera works whose margins either side are still an `i32`.
pub fn despawn_offscreen(enemies: &mut Vec<Enemy>, camera_x: i32)
    requires
        -0x7fff_ffe0 <= camera_x <= 0x7fff_ff3f,
    ensures
        final(enemies)@ == old(enemies)@.filter(on_screen_pred(camera_x as int)),
{
    let left_bound = camera_x - DESPAWN_MARGIN;
    let right_bound = camera_x + SCREEN_WIDTH as i32 + DESPAWN_MARGIN;
    let ghost pred = on_screen_pred(camera_x as int);
    let mut kept: Vec<Enemy> = Vec::new();
    let mut i: usize = 0;
    while i < enemies.len()
        invariant
            i <= enemies@.len(),
            enemies@ == old(enemies)@,
            left_bound == camera_x - 32,
            right_bound == camera_x + 192,
            pred == on_screen_pred(camera_x as int),
            kept@ == enemies@.take(i as int).filter(pred),
        decreases enemies@.len() - i,
    {
        let e = enemies[i];
        proof {
            assert(enemies@.take(i + 1) == enemies@.take(i as int).push(e));
            enemies@.take(i as int).lemma_filter_push(e, pred);
            assert(pred(e) == stays_on_screen(e, camera_x as int));
        }
        let mut keep = false;
        if e.alive {
            let (l, _t, r, _b) = e.edges();
            if r >= left_bound && l <= right_bound {
                keep = true;
            }
        }
        assert(keep == pred(e));
        if keep {
            kept.push(e);
        }
        i = i + 1;
    }
    proof {
        assert(enemies@.take(enemies@.len() as int) == enemies@);
    }
    *enemies = kept;
}

} // verus!
