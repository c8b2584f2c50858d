//! The game as a value: what a frame changes, stated over plain data.
//!
//! [`World`] holds everything that moves or counts during play. Each step of
//! a frame is a function from one world to the next; the frame is their
//! composition, in the order the game runs them.
use crate::camera::{centered, Camera};
use crate::engine::animation::Animator;
use crate::engine::block::{Block, BlockKind};
use crate::engine::enemy::{Enemy, EnemyKind, HOP_FRAMES};
use crate::engine::entity::{size_of_power, Mario, Power};
use crate::engine::powerup::{Item, ItemKind};
use crate::engine::superball::Superball;
use crate::engine::level::Solids;
use crate::engine::physics::motion_step;
use crate::engine::enemy::{enemy_step, on_screen_pred};
use crate::engine::entity::Facing;
use crate::engine::powerup::item_step;
use crate::engine::superball::superball_step;
use crate::input::{Button, Buttons};
use crate::math::div_trunc;
use crate::sound::SoundEvent;
use crate::tuning::Tuning;
use vstd::prelude::*;

verus! {

/// Frames of star invincibility.
pub const STAR_DURATION: u32 = 600;
/// Frames of invulnerability after shrinking.
pub const SHRINK_INVULN: u32 = 90;
/// Frames per unit of the level timer.
pub const TIMER_TICKS: u32 = 24;

/// The state that play changes.
pub struct World {
    pub mario: Mario,
    pub enemies: Seq<Enemy>,
    pub blocks: Seq<Block>,
    pub items: Seq<Item>,
    pub superballs: Seq<Superball>,
    pub coins: Seq<(i32, i32)>,
    pub camera: Camera,
    pub animator: Animator,
    pub deaths: u32,
    pub completed: bool,
    pub game_over: bool,
    pub throw_latched: bool,
    pub coins_collected: u32,
    pub lives: u32,
    pub score: u32,
    pub timer: u32,
    pub timer_ticks: u32,
    pub sounds: Seq<SoundEvent>,
}

/// An inclusive pixel box: left, top, right, bottom.
pub type PixelBox = (int, int, int, int);

/// Two inclusive boxes share at least one pixel.
pub open spec fn overlaps(a: PixelBox, b: PixelBox) -> bool {
    a.0 <= b.2 && a.2 >= b.0 && a.1 <= b.3 && a.3 >= b.1
}

/// The box of the tile whose top-left pixel is `(x, y)`.
pub open spec fn tile_box(x: int, y: int) -> PixelBox {
    (x, y, x + 7, y + 7)
}

/// Mario's collision box in pixels.
pub open spec fn mario_box(m: Mario) -> PixelBox {
    (m.px(), m.py(), m.px() + size_of_power(m.power).0 - 1, m.py() + size_of_power(m.power).1 - 1)
}

/// Mario one size up: small Mario becomes big, lifted a tile so his feet stay
/// where they were. Big and fire Mario are unchanged.
pub open spec fn grown(m: Mario) -> Mario {
    if m.power == Power::Small {
        Mario { power: Power::Big, y: (m.y - 2048) as i32, ..m }
    } else {
        m
    }
}

/// One coin more: a point bonus and a sound, and every hundredth coin turns
/// into a life.
pub open spec fn with_coin(w: World) -> World {
    let c = w.coins_collected + 1;
    let got = World { coins_collected: c as u32, score: (w.score + 100) as u32, sounds: w.sounds.push(SoundEvent::Coin), ..w };
    if c >= 100 {
        World { coins_collected: (c - 100) as u32, lives: (w.lives + 1) as u32, sounds: got.sounds.push(SoundEvent::OneUp), ..got }
    } else {
        got
    }
}

/// `n` coins more, one after another.
pub open spec fn with_coins(w: World, n: nat) -> World
    decreases n,
{
    if n == 0 { w } else { with_coin(with_coins(w, (n - 1) as nat)) }
}

/// The level timer one frame on: every 24th frame it drops by one, stopping
/// at zero.
pub open spec fn ticked(w: World) -> World {
    if w.timer_ticks + 1 >= TIMER_TICKS {
        World { timer_ticks: 0, timer: if w.timer == 0 { 0 } else { (w.timer - 1) as u32 }, ..w }
    } else {
        World { timer_ticks: (w.timer_ticks + 1) as u32, ..w }
    }
}

/// The enemy a level spawn point starts as. Walkers start walking left.
pub open spec fn spawned_enemy(s: (i32, i32, EnemyKind)) -> Enemy {
    let made = Enemy::made(s.0 as int, s.1 as int, true, s.2);
    match s.2 {
        EnemyKind::Faller => Enemy { vx: 0, ..made },
        EnemyKind::Fly => Enemy { phase: HOP_FRAMES, ..made },
        _ => made,
    }
}

/// The enemies a level's spawn points start as, in order.
pub open spec fn spawned_enemies(spawns: Seq<(i32, i32, EnemyKind)>) -> Seq<Enemy> {
    spawns.map_values(|s: (i32, i32, EnemyKind)| spawned_enemy(s))
}

/// The item a level's item marker starts as, at rest facing right.
pub open spec fn spawned_item(s: (i32, i32, ItemKind)) -> Item {
    Item::made(s.0 as int, s.1 as int, false, s.2)
}

/// Mario back at the spawn with the enemies restored, the animation and
/// camera reset and a full timer. Coins, lives, score and deaths carry over.
pub open spec fn respawned(w: World, spawn: (i32, i32), spawns: Seq<(i32, i32, EnemyKind)>, timer_start: u32) -> World {
    World {
        mario: Mario::spawned(spawn.0 as int, spawn.1 as int),
        enemies: spawned_enemies(spawns),
        animator: Animator::fresh(),
        camera: Camera { x: 0, y: 0 },
        timer: timer_start,
        timer_ticks: 0,
        ..w
    }
}

/// A block as a level's block marker places it, not yet used.
pub open spec fn placed_block(s: (i32, i32, BlockKind)) -> Block {
    Block { x: s.0, y: s.1, kind: s.2, used: false }
}

/// The world at the start of a level: Mario at the spawn, everything as the
/// level places it, three lives and a full timer.
pub open spec fn started(
    spawn: (i32, i32),
    enemy_spawns: Seq<(i32, i32, EnemyKind)>,
    blocks: Seq<(i32, i32, BlockKind)>,
    items: Seq<(i32, i32, ItemKind)>,
    coins: Seq<(i32, i32)>,
    timer_start: u32,
) -> World {
    World {
        mario: Mario::spawned(spawn.0 as int, spawn.1 as int),
        enemies: spawned_enemies(enemy_spawns),
        blocks: blocks.map_values(|s: (i32, i32, BlockKind)| placed_block(s)),
        items: items.map_values(|s: (i32, i32, ItemKind)| spawned_item(s)),
        superballs: seq![],
        coins: coins,
        camera: Camera { x: 0, y: 0 },
        animator: Animator::fresh(),
        deaths: 0,
        completed: false,
        game_over: false,
        throw_latched: false,
        coins_collected: 0,
        lives: 3,
        score: 0,
        timer: timer_start,
        timer_ticks: 0,
        sounds: seq![],
    }
}

/// Mario moved through one frame of physics; leaving the ground upward is a
/// jump and makes a sound.
pub open spec fn moved(w: World, buttons: Buttons, solids: Solids, t: Tuning) -> World {
    let m = motion_step(w.mario, buttons, solids, t);
    World {
        mario: m,
        sounds: if w.mario.on_ground && !m.on_ground && m.vy < 0 { w.sounds.push(SoundEvent::Jump) } else { w.sounds },
        ..w
    }
}

/// Block `b` is hit from below: it is unused and Mario's head is flush
/// against its underside with some horizontal overlap.
pub open spec fn bumped_by(m: Mario, b: Block) -> bool {
    let mb = mario_box(m);
    !b.used && mb.1 == b.y + 8 && mb.0 <= b.x + 7 && mb.2 >= b.x
}

/// Big or fire Mario breaks bricks; small Mario only bumps them.
pub open spec fn breaks_bricks(m: Mario) -> bool {
    m.power != Power::Small
}

/// The tile a pixel coordinate is in, by Rust's division.
pub open spec fn tile_index(v: i32) -> i32 {
    div_trunc(v as int, 8) as i32
}

/// What bumping from below does to a run of blocks, front to back.
pub struct Bump {
    /// The blocks afterwards, in the same order.
    pub blocks: Seq<Block>,
    /// A question block gave a coin.
    pub coin: bool,
    /// Where the item of the last power block bumped emerges.
    pub item_at: Option<(i32, i32)>,
    /// The tiles of the bricks broken, in order.
    pub breaks: Seq<(i32, i32)>,
    /// How many blocks were bumped.
    pub bumps: nat,
}

/// Bump the blocks `bs` with Mario `m`: a question block is spent for a coin,
/// a power block is spent for an item one tile above it, a brick is spent
/// and broken only by big Mario. Every block hit counts as a bump.
pub open spec fn bump_scan(m: Mario, bs: Seq<Block>) -> Bump
    decreases bs.len(),
{
    if bs.len() == 0 {
        Bump { blocks: seq![], coin: false, item_at: None, breaks: seq![], bumps: 0 }
    } else {
        let p = bump_scan(m, bs.drop_last());
        let b = bs.last();
        let spent = Block { used: true, ..b };
        if !bumped_by(m, b) {
            Bump { blocks: p.blocks.push(b), ..p }
        } else {
            match b.kind {
                BlockKind::Question => Bump { blocks: p.blocks.push(spent), coin: true, bumps: p.bumps + 1, ..p },
                BlockKind::PowerUp => Bump {
                    blocks: p.blocks.push(spent),
                    item_at: Some((b.x, (b.y - 8) as i32)),
                    bumps: p.bumps + 1,
                    ..p
                },
                BlockKind::Brick => if breaks_bricks(m) {
                    Bump {
                        blocks: p.blocks.push(spent),
                        breaks: p.breaks.push((tile_index(b.x), tile_index(b.y))),
                        bumps: p.bumps + 1,
                        ..p
                    }
                } else {
                    Bump { blocks: p.blocks.push(b), bumps: p.bumps + 1, ..p }
                },
            }
        }
    }
}

/// `n` block-bump sounds.
pub open spec fn bump_sounds(n: nat) -> Seq<SoundEvent> {
    Seq::new(n, |i: int| SoundEvent::BlockBump)
}

/// A brick whose tile is among `breaks`.
pub open spec fn broken_brick(breaks: Seq<(i32, i32)>) -> spec_fn(Block) -> bool {
    |b: Block| b.kind == BlockKind::Brick && breaks.contains((tile_index(b.x), tile_index(b.y)))
}

/// Mario bumped the blocks above his head: each bump sounds, a coin counts,
/// a power block's item appears (a mushroom for small Mario, a flower
/// otherwise), and broken bricks are gone.
pub open spec fn bumped(w: World) -> World {
    let s = bump_scan(w.mario, w.blocks);
    let hit = World { blocks: s.blocks, sounds: w.sounds + bump_sounds(s.bumps), ..w };
    let coined = if s.coin { with_coin(hit) } else { hit };
    let kind = if w.mario.power == Power::Small { ItemKind::Mushroom } else { ItemKind::Flower };
    let stocked = match s.item_at {
        Some(p) => World { items: coined.items.push(Item::made(p.0 as int, p.1 as int, false, kind)), ..coined },
        None => coined,
    };
    World { blocks: stocked.blocks.filter(|b: Block| !broken_brick(s.breaks)(b)), ..stocked }
}

/// What a bumped power block gives depends on Mario alone: a mushroom when
/// he is small, a fire flower when he is big or has fire power. A bump adds
/// at most one item, after the ones already out, and leaves those alone.
pub proof fn law_power_block_gives_by_size(w: World)
    ensures
        bumped(w).items.len() <= w.items.len() + 1,
        bumped(w).items.take(w.items.len() as int) == w.items,
        forall|i: int|
            w.items.len() <= i < bumped(w).items.len() ==> (#[trigger] bumped(w).items[i]).kind == (if w.mario.power
                == Power::Small {
                ItemKind::Mushroom
            } else {
                ItemKind::Flower
            }),
{
    let s = bump_scan(w.mario, w.blocks);
    let hit = World { blocks: s.blocks, sounds: w.sounds + bump_sounds(s.bumps), ..w };
    let coined = if s.coin { with_coin(hit) } else { hit };
    assert(coined.items == w.items);
    assert(bumped(w).items.take(w.items.len() as int) =~= w.items);
}

/// Tile `(x, y)` is one of `tiles`.
pub open spec fn names_tile(tiles: Seq<(i32, i32)>, x: int, y: int) -> bool {
    exists|q: int| 0 <= q < tiles.len() && tiles[q].0 == x && tiles[q].1 == y
}

/// A fresh press of B throws a superball when Mario has fire power and fewer
/// than two are in flight. Holding B throws only once.
pub open spec fn thrown(w: World, buttons: Buttons) -> World {
    let b = buttons.held(Button::B);
    let latched = World { throw_latched: b, ..w };
    if b && !w.throw_latched && w.mario.power == Power::Fire && w.superballs.len() < 2 {
        let ball = Superball::thrown(w.mario.px(), w.mario.py(), w.mario.facing == Facing::Left);
        World { superballs: w.superballs.push(ball), ..latched }
    } else {
        latched
    }
}

/// The walk animation advanced for Mario's current movement.
pub open spec fn animated(w: World) -> World {
    World { animator: w.animator.advanced(w.mario), ..w }
}

/// Every enemy and every item moved a frame.
pub open spec fn crowd_moved(w: World, solids: Solids) -> World {
    World {
        enemies: w.enemies.map_values(|e: Enemy| enemy_step(e, solids)),
        items: w.items.map_values(|i: Item| item_step(i, solids)),
        ..w
    }
}

/// What one superball does to the enemies: each live enemy it overlaps is
/// defeated, and counts as a hit.
pub struct Strike {
    pub enemies: Seq<Enemy>,
    pub hits: nat,
}

/// Superball `b` against the enemies `es`, front to back.
pub open spec fn strikes(b: Superball, es: Seq<Enemy>) -> Strike
    decreases es.len(),
{
    if es.len() == 0 {
        Strike { enemies: seq![], hits: 0 }
    } else {
        let p = strikes(b, es.drop_last());
        let e = es.last();
        if e.alive && overlaps(b.body(), e.body()) {
            Strike { enemies: p.enemies.push(Enemy { alive: false, ..e }), hits: p.hits + 1 }
        } else {
            Strike { enemies: p.enemies.push(e), ..p }
        }
    }
}

/// What the superballs do to the enemies, one ball after another: which balls
/// connected, and how many enemies fell.
pub struct Volley {
    pub enemies: Seq<Enemy>,
    pub spent: Seq<bool>,
    pub hits: nat,
}

/// The balls `bs`, in order, against the enemies `es`.
pub open spec fn volley(bs: Seq<Superball>, es: Seq<Enemy>) -> Volley
    decreases bs.len(),
{
    if bs.len() == 0 {
        Volley { enemies: es, spent: seq![], hits: 0 }
    } else {
        let p = volley(bs.drop_last(), es);
        let st = strikes(bs.last(), p.enemies);
        Volley { enemies: st.enemies, spent: p.spent.push(st.hits > 0), hits: p.hits + st.hits }
    }
}

/// The balls whose flag in `spent` is clear, in order.
pub open spec fn unspent(bs: Seq<Superball>, spent: Seq<bool>) -> Seq<Superball>
    decreases bs.len(),
{
    if bs.len() == 0 {
        seq![]
    } else if spent[bs.len() - 1] {
        unspent(bs.drop_last(), spent.drop_last())
    } else {
        unspent(bs.drop_last(), spent.drop_last()).push(bs.last())
    }
}

/// A coin at `c` is touched by one of the balls.
pub open spec fn coin_struck(c: (i32, i32), balls: Seq<Superball>) -> bool {
    exists|i: int| 0 <= i < balls.len() && overlaps(#[trigger] balls[i].body(), tile_box(c.0 as int, c.1 as int))
}

/// The superballs fly: fizzled ones go, the rest move; each defeats the
/// enemies it touches and is spent if it touched any; every hit scores 100
/// and any hit sounds; the balls left collect the coins they touch.
pub open spec fn balls_flown(w: World, solids: Solids) -> World {
    let flying = flight(w.superballs, solids);
    let v = volley(flying, w.enemies);
    let scored = if v.hits > 0 {
        World { score: (w.score + 100 * v.hits) as u32, sounds: w.sounds.push(SoundEvent::Stomp), ..w }
    } else {
        w
    };
    let left = unspent(flying, v.spent);
    let struck = |c: (i32, i32)| coin_struck(c, left);
    with_coins(
        World {
            enemies: v.enemies,
            superballs: left,
            coins: w.coins.filter(|c: (i32, i32)| !struck(c)),
            ..scored
        },
        w.coins.filter(struck).len(),
    )
}

/// Invulnerability and star time each run down by a frame.
pub open spec fn timers_run(w: World) -> World {
    World {
        mario: Mario {
            invuln: if w.mario.invuln > 0 { (w.mario.invuln - 1) as u32 } else { 0 },
            invincible: if w.mario.invincible > 0 { (w.mario.invincible - 1) as u32 } else { 0 },
            ..w.mario
        },
        ..w
    }
}

/// Mario picks up an item of `kind`: a mushroom grows him, a star makes him
/// invincible, a flower grows him and gives him fire. Any pickup scores 1000
/// and sounds.
pub open spec fn picked_up(w: World, kind: ItemKind) -> World {
    let m = match kind {
        ItemKind::Mushroom => grown(w.mario),
        ItemKind::Star => Mario { invincible: STAR_DURATION, ..w.mario },
        ItemKind::Flower => Mario { power: Power::Fire, ..grown(w.mario) },
    };
    World { mario: m, score: (w.score + 1000) as u32, sounds: w.sounds.push(SoundEvent::PowerUp), ..w }
}

/// Pickups of `kinds`, in order.
pub open spec fn picked_all(w: World, kinds: Seq<ItemKind>) -> World
    decreases kinds.len(),
{
    if kinds.len() == 0 { w } else { picked_up(picked_all(w, kinds.drop_last()), kinds.last()) }
}

/// The item `it` touches Mario's box `mb`.
pub open spec fn item_touches(mb: PixelBox) -> spec_fn(Item) -> bool {
    |it: Item| overlaps(mb, it.body())
}

/// Mario picks up every item he touches, in order.
pub open spec fn items_collected(w: World) -> World {
    let touch = item_touches(mario_box(w.mario));
    picked_all(
        World { items: w.items.filter(|it: Item| !touch(it)), ..w },
        w.items.filter(touch).map_values(|it: Item| it.kind),
    )
}

/// What Mario's contact with the enemies comes to.
pub struct Contact {
    pub enemies: Seq<Enemy>,
    pub stomped: bool,
    pub hit: bool,
    pub plowed: bool,
}

/// Mario `m` against the enemies `es`, front to back: with a star he defeats
/// every live enemy he touches; coming down onto an enemy's upper half
/// stomps it; any other touch is a hit.
pub open spec fn contacts(m: Mario, es: Seq<Enemy>) -> Contact
    decreases es.len(),
{
    if es.len() == 0 {
        Contact { enemies: seq![], stomped: false, hit: false, plowed: false }
    } else {
        let p = contacts(m, es.drop_last());
        let e = es.last();
        let mb = mario_box(m);
        if !e.alive || !overlaps(mb, e.body()) {
            Contact { enemies: p.enemies.push(e), ..p }
        } else if m.invincible > 0 {
            Contact { enemies: p.enemies.push(Enemy { alive: false, ..e }), plowed: true, ..p }
        } else if m.vy > 0 && mb.3 <= e.py() + 4 {
            Contact { enemies: p.enemies.push(Enemy { alive: false, ..e }), stomped: true, ..p }
        } else {
            Contact { enemies: p.enemies.push(e), hit: true, ..p }
        }
    }
}

/// Mario's contact with the enemies resolved: defeats score 100 and sound; a
/// stomp bounces Mario; a hit, unless a stomp saved him or he is
/// invulnerable, shrinks big Mario (feet kept, brief invulnerability) and
/// kills small Mario.
pub open spec fn interactions_resolved(w: World, t: Tuning) -> World {
    let c = contacts(w.mario, w.enemies);
    let met = World { enemies: c.enemies, ..w };
    let plowed = if c.plowed {
        World { score: (met.score + 100) as u32, sounds: met.sounds.push(SoundEvent::Stomp), ..met }
    } else {
        met
    };
    let stomped = if c.stomped {
        World {
            mario: Mario { vy: -t.stomp_bounce as i32, on_ground: false, ..plowed.mario },
            score: (plowed.score + 100) as u32,
            sounds: plowed.sounds.push(SoundEvent::Stomp),
            ..plowed
        }
    } else {
        plowed
    };
    if c.hit && !c.stomped && stomped.mario.invuln == 0 {
        if stomped.mario.power != Power::Small {
            World {
                mario: Mario { power: Power::Small, y: (stomped.mario.y + 2048) as i32, invuln: SHRINK_INVULN, ..stomped.mario },
                sounds: stomped.sounds.push(SoundEvent::Shrink),
                ..stomped
            }
        } else {
            World { mario: Mario { alive: false, ..stomped.mario }, ..stomped }
        }
    } else {
        stomped
    }
}

/// The coin at `c` touches Mario's box `mb`.
pub open spec fn coin_touches(mb: PixelBox) -> spec_fn((i32, i32)) -> bool {
    |c: (i32, i32)| overlaps(mb, tile_box(c.0 as int, c.1 as int))
}

/// Mario collects every coin he touches.
pub open spec fn coins_collected(w: World) -> World {
    let touch = coin_touches(mario_box(w.mario));
    with_coins(World { coins: w.coins.filter(|c: (i32, i32)| !touch(c)), ..w }, w.coins.filter(touch).len())
}

/// The balls that still have life, each moved a frame, in order.
pub open spec fn flight(bs: Seq<Superball>, solids: Solids) -> Seq<Superball>
    decreases bs.len(),
{
    if bs.len() == 0 {
        seq![]
    } else if bs.last().life != 0 {
        flight(bs.drop_last(), solids).push(superball_step(bs.last(), solids))
    } else {
        flight(bs.drop_last(), solids)
    }
}

/// Collecting coins changes only the counters and the sounds: the score
/// rises by 100 a coin, and the coin and life counts by at most one a coin.
pub proof fn lemma_with_coins(w: World, n: nat)
    requires
        w.score + 100 * n <= u32::MAX,
        w.coins_collected + n <= u32::MAX,
        w.lives + n <= u32::MAX,
    ensures
        with_coins(w, n).score == w.score + 100 * n,
        with_coins(w, n).coins_collected <= w.coins_collected + n,
        with_coins(w, n).lives <= w.lives + n,
        with_coins(w, n).lives >= w.lives,
        with_coins(w, n) == (World {
            score: with_coins(w, n).score,
            coins_collected: with_coins(w, n).coins_collected,
            lives: with_coins(w, n).lives,
            sounds: with_coins(w, n).sounds,
            ..w
        }),
    decreases n,
{
    if n > 0 {
        lemma_with_coins(w, (n - 1) as nat);
    }
}

/// A strike keeps the enemies' count and defeats at most all of them.
pub proof fn lemma_strikes(b: Superball, es: Seq<Enemy>)
    ensures
        strikes(b, es).enemies.len() == es.len(),
        strikes(b, es).hits <= es.len(),
    decreases es.len(),
{
    if es.len() > 0 {
        lemma_strikes(b, es.drop_last());
    }
}

/// A volley keeps the enemies' count, flags each ball, and defeats at most
/// every enemy once per ball.
pub proof fn lemma_volley(bs: Seq<Superball>, es: Seq<Enemy>)
    ensures
        volley(bs, es).enemies.len() == es.len(),
        volley(bs, es).spent.len() == bs.len(),
        volley(bs, es).hits <= bs.len() * es.len(),
    decreases bs.len(),
{
    if bs.len() > 0 {
        lemma_volley(bs.drop_last(), es);
        let p = volley(bs.drop_last(), es);
        lemma_strikes(bs.last(), p.enemies);
        assert((bs.len() - 1) * es.len() + es.len() == bs.len() * es.len()) by (nonlinear_arith);
    }
}

/// Flight keeps at most the balls there were.
pub proof fn lemma_flight_len(bs: Seq<Superball>, solids: Solids)
    ensures
        flight(bs, solids).len() <= bs.len(),
    decreases bs.len(),
{
    if bs.len() > 0 {
        lemma_flight_len(bs.drop_last(), solids);
    }
}

/// The unspent balls are at most the balls there were.
pub proof fn lemma_unspent_len(bs: Seq<Superball>, spent: Seq<bool>)
    ensures
        unspent(bs, spent).len() <= bs.len(),
    decreases bs.len(),
{
    if bs.len() > 0 {
        lemma_unspent_len(bs.drop_last(), spent.drop_last());
    }
}

/// Contact keeps the enemies' count.
pub proof fn lemma_contacts_len(m: Mario, es: Seq<Enemy>)
    ensures
        contacts(m, es).enemies.len() == es.len(),
    decreases es.len(),
{
    if es.len() > 0 {
        lemma_contacts_len(m, es.drop_last());
    }
}

/// The camera centred on the middle of Mario's sprite, inside a level
/// `level_w` by `level_h` pixels.
pub open spec fn followed(w: World, level_w: int, level_h: int) -> World {
    World {
        camera: Camera {
            x: centered(w.mario.px() + 4, 160, level_w) as i32,
            y: centered(w.mario.py() + 4, 144, level_h) as i32,
        },
        ..w
    }
}

/// Dead enemies and those well off screen are gone; the rest keep their order.
pub open spec fn despawned(w: World) -> World {
    World { enemies: w.enemies.filter(on_screen_pred(w.camera.x as int)), ..w }
}

/// Mario touches the level-end tile.
pub open spec fn reaches_end(m: Mario, end: Option<(i32, i32)>) -> bool {
    match end {
        Some(e) => overlaps(mario_box(m), tile_box(e.0 as int, e.1 as int)),
        None => false,
    }
}

/// How a frame ends: reaching the end completes the level; otherwise an
/// empty timer kills Mario, and a dead Mario costs a life, ending the game
/// with the last one and respawning him otherwise.
pub open spec fn concluded(
    w: World,
    end: Option<(i32, i32)>,
    spawn: (i32, i32),
    spawns: Seq<(i32, i32, EnemyKind)>,
    timer_start: u32,
) -> World {
    if reaches_end(w.mario, end) {
        World { completed: true, sounds: w.sounds.push(SoundEvent::LevelComplete), ..w }
    } else {
        let timed = if w.timer == 0 { World { mario: Mario { alive: false, ..w.mario }, ..w } } else { w };
        if timed.mario.alive {
            timed
        } else {
            let lives = if timed.lives == 0 { 0 } else { timed.lives - 1 };
            let died = World {
                deaths: (timed.deaths + 1) as u32,
                lives: lives as u32,
                sounds: timed.sounds.push(SoundEvent::Death),
                ..timed
            };
            if lives == 0 {
                World { game_over: true, sounds: died.sounds.push(SoundEvent::GameOver), ..died }
            } else {
                respawned(died, spawn, spawns, timer_start)
            }
        }
    }
}

/// Everything a frame does after Mario moves and the blocks are bumped, with
/// the level's solids as they are once any bricks are gone.
pub open spec fn played(
    w: World,
    buttons: Buttons,
    solids: Solids,
    t: Tuning,
    end: Option<(i32, i32)>,
    spawn: (i32, i32),
    spawns: Seq<(i32, i32, EnemyKind)>,
    level_w: int,
    level_h: int,
) -> World {
    let w1 = crowd_moved(animated(thrown(w, buttons)), solids);
    let w2 = interactions_resolved(items_collected(timers_run(balls_flown(w1, solids))), t);
    let w3 = despawned(followed(ticked(coins_collected(w2)), level_w, level_h));
    concluded(w3, end, spawn, spawns, t.timer_start)
}

/// The bricks a frame breaks: those Mario's rising head bumps, when he is
/// big. None when the scene is frozen or he was not rising.
pub open spec fn frame_breaks(w: World, buttons: Buttons, solids: Solids, t: Tuning) -> Seq<(i32, i32)> {
    if w.completed || w.game_over || w.mario.vy >= 0 {
        seq![]
    } else {
        bump_scan(moved(w, buttons, solids, t).mario, w.blocks).breaks
    }
}

/// One frame. The sounds start afresh; a completed or lost game stays as it
/// is. Otherwise Mario moves, bumps blocks if he was rising, and the rest of
/// the frame plays out on the level as the bump left it.
pub open spec fn stepped(
    w: World,
    buttons: Buttons,
    before: Solids,
    after: Solids,
    t: Tuning,
    end: Option<(i32, i32)>,
    spawn: (i32, i32),
    spawns: Seq<(i32, i32, EnemyKind)>,
    level_w: int,
    level_h: int,
) -> World {
    let quiet = World { sounds: seq![], ..w };
    if w.completed || w.game_over {
        quiet
    } else {
        let m = moved(quiet, buttons, before, t);
        let b = if w.mario.vy < 0 { bumped(m) } else { m };
        played(b, buttons, after, t, end, spawn, spawns, level_w, level_h)
    }
}

/// A completed or lost game stands still: a frame leaves everything as it
/// was but the sounds, which start afresh, and breaks no brick.
pub proof fn law_frozen_game_stays(
    w: World,
    buttons: Buttons,
    before: Solids,
    after: Solids,
    t: Tuning,
    end: Option<(i32, i32)>,
    spawn: (i32, i32),
    spawns: Seq<(i32, i32, EnemyKind)>,
    level_w: int,
    level_h: int,
)
    requires
        w.completed || w.game_over,
    ensures
        stepped(w, buttons, before, after, t, end, spawn, spawns, level_w, level_h) == (World { sounds: seq![], ..w }),
        frame_breaks(w, buttons, before, t) == Seq::<(i32, i32)>::empty(),
{
}

proof fn lemma_coins_below_hundred(w: World, n: nat)
    requires
        w.coins_collected == 0,
        n < 100,
        w.score + 100 * n <= u32::MAX,
    ensures
        with_coins(w, n).coins_collected == n,
        with_coins(w, n).lives == w.lives,
        with_coins(w, n).score == w.score + 100 * n,
    decreases n,
{
    if n > 0 {
        lemma_coins_below_hundred(w, (n - 1) as nat);
    }
}

/// A hundred coins, counted from none, are worth one life: the counter wraps
/// back to zero and every coin scores a hundred points.
pub proof fn law_hundred_coins_grant_a_life(w: World)
    requires
        w.coins_collected == 0,
        w.score + 10000 <= u32::MAX,
        w.lives < u32::MAX,
    ensures
        with_coins(w, 100).lives == w.lives + 1,
        with_coins(w, 100).coins_collected == 0,
        with_coins(w, 100).score == w.score + 10000,
{
    lemma_coins_below_hundred(w, 99);
}

/// Shrinking is not dying: when a hit lands on Mario while he is big or
/// fire powered, he stays as alive as he was, becomes small and gets a spell
/// of invulnerability; his lives and deaths do not change. Only a small
/// Mario dies of a hit.
pub proof fn law_a_hit_shrinks_before_it_kills(w: World, t: Tuning)
    requires
        contacts(w.mario, w.enemies).hit,
        !contacts(w.mario, w.enemies).stomped,
        w.mario.invuln == 0,
    ensures
        w.mario.power != Power::Small ==> {
            &&& interactions_resolved(w, t).mario.power == Power::Small
            &&& interactions_resolved(w, t).mario.alive == w.mario.alive
            &&& interactions_resolved(w, t).mario.invuln == SHRINK_INVULN
        },
        w.mario.power == Power::Small ==> !interactions_resolved(w, t).mario.alive,
        interactions_resolved(w, t).lives == w.lives,
        interactions_resolved(w, t).deaths == w.deaths,
{
}

/// A star makes Mario plow through enemies: while he is invincible, no
/// contact with an enemy is a hit.
pub proof fn law_a_star_is_never_hit(m: Mario, es: Seq<Enemy>)
    requires
        m.invincible > 0,
    ensures
        !contacts(m, es).hit,
    decreases es.len(),
{
    if es.len() > 0 {
        law_a_star_is_never_hit(m, es.drop_last());
    }
}

} // verus!
