//! The game loop as a headless, deterministic object.
//!
//! Everything the window would do lives here, minus the window. A [`Game`] holds
//! the level, Mario, and the camera, steps one frame from a button snapshot, and
//! renders to a [`Framebuffer`]. Because it never touches a window or the clock,
//! it can be driven by scripted input in tests and rendered to PNGs for visual
//! checks, so the game is fully testable without anyone opening a window.
pub mod limits;
pub mod picture;
mod step;
pub mod world;

use crate::camera::Camera;
use crate::engine::animation::Animator;
use crate::engine::block::Block;
use crate::engine::enemy::{Enemy, EnemyKind};
use crate::engine::entity::{pixels, Mario, Power, POSITION_LIMIT};
use crate::engine::level::TILE;
use crate::engine::powerup::ITEM_SIZE;
use crate::engine::level::Level;
use crate::engine::powerup::{Item, ItemKind};
use crate::engine::superball::Superball;
use crate::render::{Palette, TileMap};
use crate::sound::SoundEvent;
use crate::tiles::Tile;
use crate::tuning::Tuning;
use vstd::prelude::*;
use crate::engine::block::BlockKind;
use crate::engine::level::{
    block_marks, byte_mark, enemy_marks, grid_fits, grid_view, grid_width, item_marks, lemma_grid_marks_bounded,
    marks, Solids,
};
use world::{grown, respawned, ticked, with_coin, started, placed_block, spawned_enemies, spawned_enemy, spawned_item, World, TIMER_TICKS};

verus! {

/// How far from the origin, in pixels, anything placed in a level may be.
/// In subpixels this is three quarters of `POSITION_LIMIT`, which leaves a
/// frame room to move things past it and still be inside the positions a
/// step is proved for; `i32` itself ends at eight times `MAP_LIMIT`.
pub const MAP_LIMIT: i32 = 0x18_0000;
/// The most things of one kind a level may hold. A frame can collect every
/// item, coin and enemy at once, an item worth up to 1000 points; with at
/// most 2^20 of each, what one frame adds to a counter kept under 2^31 stays
/// inside `u32`.
pub const COUNT_LIMIT: usize = 0x10_0000;
/// The largest a counter may be before a frame could overflow it.
pub const COUNTER_LIMIT: u32 = 0x7fff_ffff;

/// A pixel position inside the map limits.
pub open spec fn on_map(x: i32, y: i32) -> bool {
    -MAP_LIMIT <= x <= MAP_LIMIT && -MAP_LIMIT <= y <= MAP_LIMIT
}

/// A level the game can be played on: its geometry is consistent, it is not
/// absurdly large, and everything in it sits inside the map limits.
pub open spec fn playable(level: Level) -> bool {
    &&& level.solids.wf()
    &&& level.solids.width < 0x0100_0000
    &&& level.solids.height < 0x0100_0000
    &&& on_map(level.spawn.0, level.spawn.1)
    &&& level.enemy_spawns@.len() <= COUNT_LIMIT
    &&& level.coins@.len() <= COUNT_LIMIT
    &&& level.blocks@.len() <= COUNT_LIMIT
    &&& level.items@.len() <= COUNT_LIMIT
    &&& forall|i: int| 0 <= i < level.enemy_spawns@.len() ==> on_map(#[trigger] level.enemy_spawns@[i].0, level.enemy_spawns@[i].1)
    &&& forall|i: int| 0 <= i < level.coins@.len() ==> on_map(#[trigger] level.coins@[i].0, level.coins@[i].1)
    &&& forall|i: int| 0 <= i < level.blocks@.len() ==> on_map(#[trigger] level.blocks@[i].0, level.blocks@[i].1)
    &&& forall|i: int| 0 <= i < level.items@.len() ==> on_map(#[trigger] level.items@[i].0, level.items@[i].1)
    &&& match level.end {
        Some(e) => on_map(e.0, e.1),
        None => true,
    }
}

/// A tile of `base` with the rectangle of rows `y0..y1` and columns `x0..x1`
/// in `ink`.
pub open spec fn is_rect_tile(t: Tile, base: u8, ink: u8, y0: int, y1: int, x0: int, x1: int) -> bool {
    forall|y: int, x: int|
        0 <= y < 8 && 0 <= x < 8 ==> #[trigger] t.pixels[y][x] == (if y0 <= y < y1 && x0 <= x < x1 { ink } else { base })
}

/// A tile of `base` with rows `a` and `b` and columns `a` and `b` in `ink`.
pub open spec fn is_cross_tile(t: Tile, base: u8, ink: u8, a: int, b: int) -> bool {
    forall|y: int, x: int|
        0 <= y < 8 && 0 <= x < 8 ==> #[trigger] t.pixels[y][x] == (if y == a || y == b || x == a || x == b { ink } else { base })
}

/// A tile of `base` with a rectangle in `ink`.
fn rect_tile(base: u8, ink: u8, y0: usize, y1: usize, x0: usize, x1: usize) -> (r: Tile)
    ensures
        is_rect_tile(r, base, ink, y0 as int, y1 as int, x0 as int, x1 as int),
{
    let mut pixels = [[base; 8]; 8];
    let mut y: usize = 0;
    while y < 8
        invariant
            y <= 8,
            forall|j: int, x: int|
                0 <= j < y && 0 <= x < 8 ==> #[trigger] pixels[j][x] == (if y0 <= j < y1 && x0 <= x < x1 { ink } else { base }),
        decreases 8 - y,
    {
        let mut line = [base; 8];
        let mut x: usize = 0;
        while x < 8
            invariant
                x <= 8,
                y < 8,
                forall|i: int| 0 <= i < x ==> #[trigger] line[i] == (if y0 <= y < y1 && x0 <= i < x1 { ink } else { base }),
            decreases 8 - x,
        {
            line[x] = if y0 <= y && y < y1 && x0 <= x && x < x1 { ink } else { base };
            x = x + 1;
        }
        pixels[y] = line;
        y = y + 1;
    }
    Tile { pixels }
}

/// A tile of `base` crossed by two rows and two columns of `ink`.
fn cross_tile(base: u8, ink: u8, a: usize, b: usize) -> (r: Tile)
    ensures
        is_cross_tile(r, base, ink, a as int, b as int),
{
    let mut pixels = [[base; 8]; 8];
    let mut y: usize = 0;
    while y < 8
        invariant
            y <= 8,
            forall|j: int, x: int|
                0 <= j < y && 0 <= x < 8 ==> #[trigger] pixels[j][x] == (if j == a || j == b || x == a || x == b { ink } else { base }),
        decreases 8 - y,
    {
        let mut line = [base; 8];
        let mut x: usize = 0;
        while x < 8
            invariant
                x <= 8,
                y < 8,
                forall|i: int| 0 <= i < x ==> #[trigger] line[i] == (if y == a || y == b || i == a || i == b { ink } else { base }),
            decreases 8 - x,
        {
            line[x] = if y == a || y == b || x == a || x == b { ink } else { base };
            x = x + 1;
        }
        pixels[y] = line;
        y = y + 1;
    }
    Tile { pixels }
}

/// One level being played. Every field is public so that contracts can
/// speak of the whole state.
pub struct Game {
    pub level: Level,
    pub mario: Mario,
    pub enemies: Vec<Enemy>,
    pub camera: Camera,
    pub animator: Animator,
    /// How many times Mario has died and respawned this session.
    pub deaths: u32,
    /// Set once Mario reaches the level-end trigger. The scene freezes.
    pub completed: bool,
    /// Set when the last life is spent. The scene freezes.
    pub game_over: bool,
    /// Interactive blocks Mario can bump from below.
    pub blocks: Vec<Block>,
    /// Active power-up items (mushrooms, stars, flowers).
    pub items: Vec<Item>,
    /// Superballs currently in flight.
    pub superballs: Vec<Superball>,
    /// Tracks the throw button so a held press throws only once.
    pub throw_latched: bool,
    /// Uncollected coins, top-left pixel.
    pub coins: Vec<(i32, i32)>,
    /// Coins collected (wraps every 100, which grants a life).
    pub coins_collected: u32,
    pub lives: u32,
    pub score: u32,
    /// Countdown shown on the HUD.
    pub timer: u32,
    pub timer_ticks: u32,
    /// Tunable movement values (walk, jump, gravity, stomp, timer).
    pub tuning: Tuning,
    /// Sound events emitted this frame, for a frontend to play. Cleared each step.
    pub sounds: Vec<SoundEvent>,
    pub bg_map: TileMap,
    pub bg_tiles: Vec<Tile>,
    pub mario_tile: Tile,
    pub enemy_tile: Tile,
    pub coin_tile: Tile,
    pub question_tile: Tile,
    pub used_tile: Tile,
    pub brick_tile: Tile,
    pub mushroom_tile: Tile,
    pub star_tile: Tile,
    pub flower_tile: Tile,
    pub superball_tile: Tile,
    pub end_tile: Tile,
    pub palette: Palette,
}

impl Game {
    /// The state play changes, as a value.
    pub open spec fn view(&self) -> World {
        World {
            mario: self.mario,
            enemies: self.enemies@,
            blocks: self.blocks@,
            items: self.items@,
            superballs: self.superballs@,
            coins: self.coins@,
            camera: self.camera,
            animator: self.animator,
            deaths: self.deaths,
            completed: self.completed,
            game_over: self.game_over,
            throw_latched: self.throw_latched,
            coins_collected: self.coins_collected,
            lives: self.lives,
            score: self.score,
            timer: self.timer,
            timer_ticks: self.timer_ticks,
            sounds: self.sounds@,
        }
    }

    /// What holds of every game between frames: the geometry and the drawing
    /// resources match the level, the tuning is usable, and the internal
    /// counters are inside their cycles.
    pub open spec fn settled(&self) -> bool {
        &&& self.level.solids.wf()
        &&& self.level.solids.width < 0x0100_0000
        &&& self.level.solids.height < 0x0100_0000
        &&& self.bg_map.wf()
        &&& self.bg_map.width == self.level.solids.width
        &&& self.bg_map.height == self.level.solids.height
        &&& self.tuning.sane()
        &&& self.animator.wf()
        &&& self.timer_ticks < TIMER_TICKS
        &&& -0x1000_0000 <= self.camera.x <= 0x1000_0000
        &&& -0x1000_0000 <= self.camera.y <= 0x1000_0000
        &&& on_map(self.level.spawn.0, self.level.spawn.1)
        &&& self.level.enemy_spawns@.len() <= COUNT_LIMIT
        &&& forall|i: int| 0 <= i < self.level.enemy_spawns@.len() ==> on_map(#[trigger] self.level.enemy_spawns@[i].0, self.level.enemy_spawns@[i].1)
        &&& forall|i: int| 0 <= i < self.coins@.len() ==> on_map(#[trigger] self.coins@[i].0, self.coins@[i].1)
        &&& forall|i: int| 0 <= i < self.blocks@.len() ==> on_map(#[trigger] self.blocks@[i].x, self.blocks@[i].y)
        &&& match self.level.end {
            Some(e) => on_map(e.0, e.1),
            None => true,
        }
    }

    /// A game that can take a step: settled, with everything that moves
    /// inside the limits the simulation works in and every counter far from
    /// overflowing.
    pub open spec fn fits(&self) -> bool {
        &&& self.settled()
        &&& self.mario.in_bounds()
        &&& self.mario.invuln < u32::MAX
        &&& self.mario.invincible < u32::MAX
        &&& self.enemies@.len() <= COUNT_LIMIT
        &&& self.items@.len() <= COUNT_LIMIT
        &&& self.coins@.len() <= COUNT_LIMIT
        &&& self.blocks@.len() <= COUNT_LIMIT
        &&& self.superballs@.len() <= 2
        &&& forall|i: int| 0 <= i < self.enemies@.len() ==> (#[trigger] self.enemies@[i]).in_bounds()
        &&& forall|i: int| 0 <= i < self.items@.len() ==> (#[trigger] self.items@[i]).in_bounds()
        &&& forall|i: int| 0 <= i < self.superballs@.len() ==> (#[trigger] self.superballs@[i]).in_bounds()
        &&& self.score <= COUNTER_LIMIT
        &&& self.lives <= COUNTER_LIMIT
        &&& self.deaths <= COUNTER_LIMIT
        &&& self.coins_collected <= COUNTER_LIMIT
    }
}

/// The enemies the level's spawn points start as.
fn spawn_enemies(level: &Level) -> (r: Vec<Enemy>)
    requires
        forall|i: int| 0 <= i < level.enemy_spawns@.len() ==> on_map(#[trigger] level.enemy_spawns@[i].0, level.enemy_spawns@[i].1),
    ensures
        r@ == spawned_enemies(level.enemy_spawns@),
        forall|i: int| 0 <= i < r@.len() ==> (#[trigger] r@[i]).in_bounds(),
{
    let mut out: Vec<Enemy> = Vec::new();
    let mut i: usize = 0;
    while i < level.enemy_spawns.len()
        invariant
            i <= level.enemy_spawns@.len(),
            forall|j: int| 0 <= j < level.enemy_spawns@.len() ==> on_map(#[trigger] level.enemy_spawns@[j].0, level.enemy_spawns@[j].1),
            out@ == spawned_enemies(level.enemy_spawns@.take(i as int)),
            forall|j: int| 0 <= j < out@.len() ==> (#[trigger] out@[j]).in_bounds(),
        decreases level.enemy_spawns@.len() - i,
    {
        let (px, py, kind) = level.enemy_spawns[i];
        assert(on_map(level.enemy_spawns@[i as int].0, level.enemy_spawns@[i as int].1));
        let e = match kind {
            EnemyKind::Goomba => Enemy::goomba(px, py, true),
            EnemyKind::LedgeTurner => Enemy::ledge_turner(px, py, true),
            EnemyKind::Bouncer => Enemy::bouncer(px, py, true),
            EnemyKind::Faller => Enemy::faller(px, py),
            EnemyKind::Fly => Enemy::fly(px, py, true),
            EnemyKind::Bunbun => Enemy::bunbun(px, py),
        };
        assert(e == spawned_enemy(level.enemy_spawns@[i as int]));
        let ghost before = out@;
        out.push(e);
        proof {
            assert(level.enemy_spawns@.take(i + 1) =~= level.enemy_spawns@.take(i as int).push(level.enemy_spawns@[i as int]));
            assert(out@ =~= spawned_enemies(level.enemy_spawns@.take(i + 1)));
            assert forall|j: int| 0 <= j < out@.len() implies (#[trigger] out@[j]).in_bounds() by {
                if j < before.len() {
                    assert(out@[j] == before[j]);
                }
            }
        }
        i = i + 1;
    }
    assert(level.enemy_spawns@.take(i as int) =~= level.enemy_spawns@);
    out
}

/// The blocks the level places, none used yet.
fn spawn_blocks(level: &Level) -> (r: Vec<Block>)
    ensures
        r@ == level.blocks@.map_values(|s: (i32, i32, BlockKind)| placed_block(s)),
{
    let mut out: Vec<Block> = Vec::new();
    let mut i: usize = 0;
    while i < level.blocks.len()
        invariant
            i <= level.blocks@.len(),
            out@ == level.blocks@.take(i as int).map_values(|s: (i32, i32, BlockKind)| placed_block(s)),
        decreases level.blocks@.len() - i,
    {
        let (x, y, kind) = level.blocks[i];
        out.push(Block::new(x, y, kind));
        proof {
            assert(level.blocks@.take(i + 1) =~= level.blocks@.take(i as int).push(level.blocks@[i as int]));
            assert(out@ =~= level.blocks@.take(i + 1).map_values(|s: (i32, i32, BlockKind)| placed_block(s)));
        }
        i = i + 1;
    }
    assert(level.blocks@.take(i as int) =~= level.blocks@);
    out
}

/// The free-standing items the level places.
fn spawn_items(level: &Level) -> (r: Vec<Item>)
    requires
        playable(*level),
    ensures
        r@ == level.items@.map_values(|s: (i32, i32, ItemKind)| spawned_item(s)),
        forall|i: int| 0 <= i < r@.len() ==> (#[trigger] r@[i]).in_bounds(),
{
    let mut out: Vec<Item> = Vec::new();
    let mut i: usize = 0;
    while i < level.items.len()
        invariant
            i <= level.items@.len(),
            playable(*level),
            out@ == level.items@.take(i as int).map_values(|s: (i32, i32, ItemKind)| spawned_item(s)),
            forall|j: int| 0 <= j < out@.len() ==> (#[trigger] out@[j]).in_bounds(),
        decreases level.items@.len() - i,
    {
        let (x, y, kind) = level.items[i];
        assert(on_map(level.items@[i as int].0, level.items@[i as int].1));
        let item = match kind {
            ItemKind::Mushroom => Item::mushroom(x, y, false),
            ItemKind::Star => Item::star(x, y, false),
            ItemKind::Flower => Item::flower(x, y, false),
        };
        let ghost before = out@;
        out.push(item);
        proof {
            assert(level.items@.take(i + 1) =~= level.items@.take(i as int).push(level.items@[i as int]));
            assert(out@ =~= level.items@.take(i + 1).map_values(|s: (i32, i32, ItemKind)| spawned_item(s)));
            assert forall|j: int| 0 <= j < out@.len() implies (#[trigger] out@[j]).in_bounds() by {
                if j < before.len() {
                    assert(out@[j] == before[j]);
                }
            }
        }
        i = i + 1;
    }
    assert(level.items@.take(i as int) =~= level.items@);
    out
}

/// Copy a list of positions.
fn copy_positions(v: &Vec<(i32, i32)>) -> (r: Vec<(i32, i32)>)
    ensures
        r@ == v@,
{
    let mut out: Vec<(i32, i32)> = Vec::new();
    let mut i: usize = 0;
    while i < v.len()
        invariant
            i <= v@.len(),
            out@ == v@.take(i as int),
        decreases v@.len() - i,
    {
        out.push(v[i]);
        i = i + 1;
        assert(out@ =~= v@.take(i as int));
    }
    assert(v@.take(i as int) =~= v@);
    out
}

/// The background map of a grid of solids: tile 1 where solid, 0 elsewhere.
#[verifier::rlimit(40)]
fn background_cells(solids: &Solids) -> (r: Vec<u8>)
    requires
        solids.wf(),
        solids.width < 0x0100_0000,
        solids.height < 0x0100_0000,
    ensures
        r@.len() == solids.width * solids.height,
        forall|tx: int, ty: int|
            0 <= tx < solids.width && 0 <= ty < solids.height ==> #[trigger] r@[ty * solids.width + tx] == (if solids.solid_at(tx, ty) { 1u8 } else { 0u8 }),
{
    let w = solids.width;
    let h = solids.height;
    let mut cells: Vec<u8> = Vec::new();
    let mut ty: usize = 0;
    while ty < h
        invariant
            ty <= h,
            w == solids.width,
            h == solids.height,
            solids.wf(),
            w < 0x0100_0000,
            h < 0x0100_0000,
            cells@.len() == ty * w,
            forall|x: int, y: int|
                0 <= x < w && 0 <= y < ty ==> #[trigger] cells@[y * w + x] == (if solids.solid_at(x, y) { 1u8 } else { 0u8 }),
        decreases h - ty,
    {
        let mut tx: usize = 0;
        while tx < w
            invariant
                tx <= w,
                ty < h,
                w == solids.width,
                h == solids.height,
                solids.wf(),
                w < 0x0100_0000,
                h < 0x0100_0000,
                cells@.len() == ty * w + tx,
                forall|x: int, y: int|
                    0 <= x < w && 0 <= y < ty ==> #[trigger] cells@[y * w + x] == (if solids.solid_at(x, y) { 1u8 } else { 0u8 }),
                forall|x: int| 0 <= x < tx ==> #[trigger] cells@[ty * w + x] == (if solids.solid_at(x, ty as int) { 1u8 } else { 0u8 }),
            decreases w - tx,
        {
            let solid = solids.is_solid(tx as i32, ty as i32);
            let ghost before = cells@;
            cells.push(if solid { 1 } else { 0 });
            proof {
                assert forall|x: int, y: int|
                    0 <= x < w && 0 <= y < ty implies #[trigger] cells@[y * w + x] == (if solids.solid_at(x, y) { 1u8 } else { 0u8 }) by {
                    assert(y * w + x < ty * w) by (nonlinear_arith)
                        requires 0 <= x < w, 0 <= y < ty;
                    assert(cells@[y * w + x] == before[y * w + x]);
                }
                assert forall|x: int| 0 <= x < tx + 1 implies #[trigger] cells@[ty * w + x] == (if solids.solid_at(x, ty as int) { 1u8 } else { 0u8 }) by {
                    if x < tx {
                        assert(cells@[ty * w + x] == before[ty * w + x]);
                    }
                }
            }
            tx = tx + 1;
        }
        proof {
            assert((ty + 1) * w == ty * w + w) by (nonlinear_arith);
            assert forall|x: int, y: int|
                0 <= x < w && 0 <= y < ty + 1 implies #[trigger] cells@[y * w + x] == (if solids.solid_at(x, y) { 1u8 } else { 0u8 }) by {
                if y == ty {
                    assert(cells@[ty * w + x] == (if solids.solid_at(x, ty as int) { 1u8 } else { 0u8 }));
                }
            }
        }
        ty = ty + 1;
    }
    assert(ty * w == w * h) by (nonlinear_arith)
        requires ty == h;
    cells
}

impl Game {
    /// The drawing resources `new` sets up: the background map follows the
    /// level's solids, and each sprite tile has its fixed pattern.
    pub open spec fn drawn_as_built(&self) -> bool {
        &&& forall|tx: int, ty: int|
            0 <= tx < self.bg_map.width && 0 <= ty < self.bg_map.height ==> #[trigger] self.bg_map.cells@[ty * self.bg_map.width + tx]
                == (if self.level.solids.solid_at(tx, ty) { 1u8 } else { 0u8 })
        &&& self.bg_tiles@.len() == 2
        &&& is_rect_tile(self.bg_tiles@[0], 0, 0, 0, 0, 0, 0)
        &&& is_rect_tile(self.bg_tiles@[1], 2, 2, 0, 0, 0, 0)
        &&& is_rect_tile(self.mario_tile, 3, 3, 0, 0, 0, 0)
        &&& is_rect_tile(self.enemy_tile, 1, 1, 0, 0, 0, 0)
        &&& is_rect_tile(self.coin_tile, 0, 2, 2, 6, 3, 5)
        &&& is_rect_tile(self.question_tile, 2, 1, 2, 5, 3, 5)
        &&& is_rect_tile(self.used_tile, 2, 2, 0, 0, 0, 0)
        &&& is_cross_tile(self.brick_tile, 2, 0, 0, 4)
        &&& is_rect_tile(self.mushroom_tile, 1, 2, 0, 4, 0, 8)
        &&& is_rect_tile(self.star_tile, 1, 3, 2, 6, 2, 6)
        &&& is_cross_tile(self.flower_tile, 2, 0, 3, 4)
        &&& is_rect_tile(self.superball_tile, 0, 3, 1, 5, 1, 5)
        &&& is_rect_tile(self.end_tile, 0, 3, 0, 8, 3, 5)
        &&& self.palette.bgp == 0xE4
    }

    /// A game just started on a copy of `level`.
    pub open spec fn fresh_from(&self, level: Level) -> bool {
        &&& self.fits()
        &&& self.level.same_as(level)
        &&& self.tuning == Tuning::pinned()
        &&& self@ == started(level.spawn, level.enemy_spawns@, level.blocks@, level.items@, level.coins@, 400)
        &&& self.drawn_as_built()
    }

    /// Start playing `level`: Mario at the spawn, everything as the level
    /// places it, three lives, the default tuning and a full timer.
    #[verifier::rlimit(40)]
    pub fn new(level: Level) -> (r: Self)
        requires
            playable(level),
        ensures
            r.fits(),
            r.level == level,
            r.tuning == Tuning::pinned(),
            r@ == started(level.spawn, level.enemy_spawns@, level.blocks@, level.items@, level.coins@, 400),
            r.drawn_as_built(),
    {
        let w = level.solids.width;
        let h = level.solids.height;
        let cells = background_cells(&level.solids);
        let mario = Mario::new(level.spawn.0, level.spawn.1);
        let enemies = spawn_enemies(&level);
        let coins = copy_positions(&level.coins);
        let blocks = spawn_blocks(&level);
        let items = spawn_items(&level);
        let tuning = Tuning::default();
        let bg_tiles = vec![rect_tile(0, 0, 0, 0, 0, 0), rect_tile(2, 2, 0, 0, 0, 0)];
        let game = Game {
            level,
            mario,
            enemies,
            blocks,
            items,
            superballs: Vec::new(),
            throw_latched: false,
            coins,
            coins_collected: 0,
            lives: 3,
            score: 0,
            timer: tuning.timer_start,
            timer_ticks: 0,
            tuning,
            sounds: Vec::new(),
            camera: Camera::new(),
            animator: Animator::new(),
            deaths: 0,
            completed: false,
            game_over: false,
            bg_map: TileMap::new(w, h, cells),
            bg_tiles,
            mario_tile: rect_tile(3, 3, 0, 0, 0, 0),
            enemy_tile: rect_tile(1, 1, 0, 0, 0, 0),
            coin_tile: rect_tile(0, 2, 2, 6, 3, 5),
            question_tile: rect_tile(2, 1, 2, 5, 3, 5),
            used_tile: rect_tile(2, 2, 0, 0, 0, 0),
            brick_tile: cross_tile(2, 0, 0, 4),
            mushroom_tile: rect_tile(1, 2, 0, 4, 0, 8),
            star_tile: rect_tile(1, 3, 2, 6, 2, 6),
            flower_tile: cross_tile(2, 0, 3, 4),
            superball_tile: rect_tile(0, 3, 1, 5, 1, 5),
            end_tile: rect_tile(0, 3, 0, 8, 3, 5),
            palette: Palette::new(0xE4),
        };
        proof {
            Animator::lemma_fresh_wf();
            assert(game@ =~= started(game.level.spawn, game.level.enemy_spawns@, game.level.blocks@, game.level.items@, game.level.coins@, 400));
            assert forall|i: int| 0 <= i < game.blocks@.len() implies on_map(#[trigger] game.blocks@[i].x, game.blocks@[i].y) by {
                assert(on_map(game.level.blocks@[i].0, game.level.blocks@[i].1));
            }
        }
        game
    }
}

/// A level read from a grid small enough that every position it names is
/// inside the map limits can be played.
pub proof fn lemma_small_level_playable(level: Level, grid: Seq<Seq<u8>>)
    requires
        level.parsed_from(grid),
        grid_fits(grid),
        grid.len() * 8 <= MAP_LIMIT,
        grid_width(grid) * 8 <= MAP_LIMIT,
        grid.len() * grid_width(grid) <= COUNT_LIMIT,
    ensures
        playable(level),
{
    let w = grid_width(grid);
    assert forall|i: int| 0 <= i < grid.len() implies #[trigger] grid[i].len() <= w by {}
    lemma_grid_marks_bounded(grid, grid.len() as int, enemy_marks(), w);
    lemma_grid_marks_bounded(grid, grid.len() as int, block_marks(), w);
    lemma_grid_marks_bounded(grid, grid.len() as int, item_marks(), w);
    lemma_grid_marks_bounded(grid, grid.len() as int, byte_mark(67), w);
    lemma_grid_marks_bounded(grid, grid.len() as int, byte_mark(77), w);
    lemma_grid_marks_bounded(grid, grid.len() as int, byte_mark(69), w);
    assert(grid.len() * w == w * grid.len()) by (nonlinear_arith);
    let coins = marks(grid, byte_mark(67));
    assert forall|i: int| 0 <= i < level.coins@.len() implies on_map(#[trigger] level.coins@[i].0, level.coins@[i].1) by {
        assert(level.coins@[i] == (coins[i].0, coins[i].1));
    }
    let spawns = marks(grid, byte_mark(77));
    if spawns.len() > 0 {
        assert(spawns.last() == spawns[spawns.len() - 1]);
    }
    let ends = marks(grid, byte_mark(69));
    if ends.len() > 0 {
        assert(ends.last() == ends[ends.len() - 1]);
    }
}

/// The byte at column `x`, row `y` of the demo level.
pub open spec fn demo_byte(x: int, y: int) -> u8 {
    let floor = y >= 16;
    let platform = (y == 13 && 10 <= x < 14) || (y == 10 && 20 <= x < 26);
    if floor || platform {
        35
    } else if x == 2 && y == 15 {
        77
    } else if x == 16 && y == 15 {
        71
    } else if x == 4 && y == 15 {
        67
    } else if x == 38 && y == 15 {
        69
    } else if x == 6 && y == 12 {
        63
    } else if x == 9 && y == 12 {
        80
    } else {
        46
    }
}

/// The demo level as rows of bytes: 40 wide and 18 tall.
pub open spec fn demo_grid() -> Seq<Seq<u8>> {
    Seq::new(18, |y: int| Seq::new(40, |x: int| demo_byte(x, y)))
}

impl Game {
    /// A small hand-made test level: a floor, two platforms, Mario near the left.
    /// This is our own content, safe to render in CI and commit as a golden.
    #[verifier::rlimit(40)]
    pub fn demo_level() -> (r: Level)
        ensures
            r.parsed_from(demo_grid()),
            playable(r),
    {
        let w: usize = 40;
        let h: usize = 18;
        let mut rows: Vec<Vec<u8>> = Vec::new();
        let mut y: usize = 0;
        while y < h
            invariant
                y <= h,
                h == 18,
                w == 40,
                rows@.len() == y,
                forall|j: int| 0 <= j < y ==> (#[trigger] rows@[j])@ == demo_grid()[j],
            decreases h - y,
        {
            let mut row: Vec<u8> = Vec::new();
            let mut x: usize = 0;
            while x < w
                invariant
                    x <= w,
                    y < h,
                    h == 18,
                    w == 40,
                    row@.len() == x,
                    forall|i: int| 0 <= i < x ==> #[trigger] row@[i] == demo_byte(i, y as int),
                decreases w - x,
            {
                let floor = y >= h - 2;
                let platform = (y == h - 5 && 10 <= x && x < 14) || (y == h - 8 && 20 <= x && x < 26);
                let c: u8 = if floor || platform {
                    35
                } else if x == 2 && y == h - 3 {
                    77
                } else if x == 16 && y == h - 3 {
                    71
                } else if x == 4 && y == h - 3 {
                    67
                } else if x == 38 && y == h - 3 {
                    69
                } else if x == 6 && y == h - 6 {
                    63
                } else if x == 9 && y == h - 6 {
                    80
                } else {
                    46
                };
                row.push(c);
                x = x + 1;
            }
            assert(row@ =~= demo_grid()[y as int]);
            let ghost before = rows@;
            rows.push(row);
            proof {
                assert forall|j: int| 0 <= j < y + 1 implies (#[trigger] rows@[j])@ == demo_grid()[j] by {
                    if j < y {
                        assert(rows@[j] == before[j]);
                    }
                }
            }
            y = y + 1;
        }
        proof {
            assert(grid_view(rows@) =~= demo_grid());
            assert(grid_fits(demo_grid())) by {
                assert forall|i: int| 0 <= i < demo_grid().len() implies #[trigger] demo_grid()[i].len() == grid_width(demo_grid()) by {}
            }
        }
        let level = Level::from_grid(&rows);
        proof {
            lemma_small_level_playable(level, demo_grid());
        }
        level
    }
}

impl Game {
    /// Everything but the level's solid cells and the world is as in `other`.
    pub open spec fn scenery_kept(&self, other: &Game) -> bool {
        &&& self.level.solids.width == other.level.solids.width
        &&& self.level.solids.height == other.level.solids.height
        &&& self.level.solids.platforms@ == other.level.solids.platforms@
        &&& self.level.spawn == other.level.spawn
        &&& self.level.enemy_spawns == other.level.enemy_spawns
        &&& self.level.coins == other.level.coins
        &&& self.level.blocks == other.level.blocks
        &&& self.level.end == other.level.end
        &&& self.level.items == other.level.items
        &&& self.level.lifts == other.level.lifts
        &&& self.level.graphics == other.level.graphics
        &&& self.level.number == other.level.number
        &&& self.tuning == other.tuning
        &&& self.bg_map == other.bg_map
        &&& self.bg_tiles == other.bg_tiles
        &&& self.mario_tile == other.mario_tile
        &&& self.enemy_tile == other.enemy_tile
        &&& self.coin_tile == other.coin_tile
        &&& self.question_tile == other.question_tile
        &&& self.used_tile == other.used_tile
        &&& self.brick_tile == other.brick_tile
        &&& self.mushroom_tile == other.mushroom_tile
        &&& self.star_tile == other.star_tile
        &&& self.flower_tile == other.flower_tile
        &&& self.superball_tile == other.superball_tile
        &&& self.end_tile == other.end_tile
        &&& self.palette == other.palette
    }

    /// Everything but the world is as in `other`.
    pub open spec fn kept(&self, other: &Game) -> bool {
        &&& self.scenery_kept(other)
        &&& self.level.solids == other.level.solids
    }

    /// The level size in pixels.
    fn level_size(&self) -> (r: (i32, i32))
        requires
            self.level.solids.width < 0x0100_0000,
            self.level.solids.height < 0x0100_0000,
        ensures
            r.0 == self.level.solids.width * 8,
            r.1 == self.level.solids.height * 8,
    {
        (self.level.solids.width as i32 * TILE, self.level.solids.height as i32 * TILE)
    }

    /// Sound events emitted on the most recent step, drained by a frontend.
    pub fn drain_sounds(&mut self) -> (r: Vec<SoundEvent>)
        ensures
            r@ == old(self)@.sounds,
            final(self)@ == (World { sounds: seq![], ..old(self)@ }),
            final(self).kept(old(self)),
    {
        let mut out: Vec<SoundEvent> = Vec::new();
        std::mem::swap(&mut out, &mut self.sounds);
        proof {
            assert(self@ =~= (World { sounds: seq![], ..old(self)@ }));
        }
        out
    }

    /// Make small Mario big, lifting him so his feet stay on the ground. No
    /// effect if he is already big. Public so tools can capture the big state.
    pub fn grow_mario(&mut self)
        requires
            old(self).mario.y >= i32::MIN + 2048,
        ensures
            final(self)@ == (World { mario: grown(old(self)@.mario), ..old(self)@ }),
            final(self).kept(old(self)),
    {
        if self.mario.power == Power::Small {
            self.mario.power = Power::Big;
            self.mario.y = self.mario.y - pixels(ITEM_SIZE);
        }
        proof {
            assert(self@ =~= (World { mario: grown(old(self)@.mario), ..old(self)@ }));
        }
    }

    /// One coin more: 100 points, a coin sound, and every hundredth coin a life.
    pub fn gain_coin(&mut self)
        requires
            old(self).coins_collected < u32::MAX,
            old(self).score <= u32::MAX - 100,
            old(self).lives < u32::MAX,
        ensures
            final(self)@ == with_coin(old(self)@),
            final(self).kept(old(self)),
    {
        self.coins_collected = self.coins_collected + 1;
        self.score = self.score + 100;
        self.sounds.push(SoundEvent::Coin);
        if self.coins_collected >= 100 {
            self.coins_collected = self.coins_collected - 100;
            self.lives = self.lives + 1;
            self.sounds.push(SoundEvent::OneUp);
        }
        proof {
            assert(self@ =~= with_coin(old(self)@));
        }
    }

    /// Count down the level timer, one unit every 24 frames.
    fn tick_timer(&mut self)
        requires
            old(self).timer_ticks < TIMER_TICKS,
        ensures
            final(self)@ == ticked(old(self)@),
            final(self).kept(old(self)),
            final(self).timer_ticks < TIMER_TICKS,
    {
        self.timer_ticks = self.timer_ticks + 1;
        if self.timer_ticks >= TIMER_TICKS {
            self.timer_ticks = 0;
            self.timer = self.timer.saturating_sub(1);
        }
        proof {
            assert(self@ =~= ticked(old(self)@));
        }
    }

    /// Put Mario back at the spawn and restore the enemies. Collected coins,
    /// lives, and the death count carry over. The camera snaps back on the next
    /// step via follow.
    fn respawn(&mut self)
        requires
            old(self).settled(),
        ensures
            final(self)@ == respawned(old(self)@, old(self).level.spawn, old(self).level.enemy_spawns@, old(self).tuning.timer_start),
            final(self).kept(old(self)),
            final(self).mario.in_bounds(),
            forall|i: int| 0 <= i < final(self).enemies@.len() ==> (#[trigger] final(self).enemies@[i]).in_bounds(),
            final(self).enemies@.len() <= COUNT_LIMIT,
    {
        self.mario = Mario::new(self.level.spawn.0, self.level.spawn.1);
        self.enemies = spawn_enemies(&self.level);
        self.animator = Animator::new();
        self.camera = Camera::new();
        self.timer = self.tuning.timer_start;
        self.timer_ticks = 0;
        proof {
            assert(self@ =~= respawned(old(self)@, old(self).level.spawn, old(self).level.enemy_spawns@, old(self).tuning.timer_start));
        }
    }
}

} // verus!
