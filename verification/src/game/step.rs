//! One frame of play, phase by phase.
use super::world::{picked_up, frame_breaks, stepped, ticked, despawned, followed, played, reaches_end, respawned, concluded, coin_touches, coins_collected, contacts, interactions_resolved, item_touches, items_collected, lemma_contacts_len, picked_all, timers_run, SHRINK_INVULN, STAR_DURATION, balls_flown, coin_struck, flight, lemma_flight_len, lemma_strikes, lemma_unspent_len, lemma_volley, lemma_with_coins, overlaps, strikes, tile_box, unspent, volley, with_coins, animated, crowd_moved, thrown, names_tile, bump_scan, bump_sounds, bumped, broken_brick, mario_box, moved, World};
use super::{on_map, Game, COUNT_LIMIT};
use crate::engine::animation::Animator;
use crate::engine::block::{Block, BlockKind};
use crate::engine::enemy::{despawn_offscreen, ENEMY_SIZE, loose as enemy_loose, update_enemy, enemy_step, Enemy};
use crate::engine::entity::{pixels, Facing, Mario, Power};
use crate::engine::level::TILE;
use crate::engine::powerup::ITEM_SIZE;
use crate::engine::superball::{update_superball, Superball};
use crate::engine::powerup::{update_item, item_step};
use crate::input::Button;
use crate::engine::level::Solids;
use crate::engine::physics::{loose, step_motion};
use crate::engine::powerup::{Item, ItemKind};
use crate::input::Buttons;
use crate::math::div_toward_zero;
use crate::sound::SoundEvent;
use vstd::prelude::*;

verus! {

/// Whether `p` is one of `v`.
fn contains_pos(v: &Vec<(i32, i32)>, p: (i32, i32)) -> (r: bool)
    ensures
        r == v@.contains(p),
{
    let mut i: usize = 0;
    while i < v.len()
        invariant
            i <= v@.len(),
            forall|j: int| 0 <= j < i ==> v@[j] != p,
        decreases v@.len() - i,
    {
        let q = v[i];
        if q.0 == p.0 && q.1 == p.1 {
            assert(v@[i as int] == p);
            return true;
        }
        i = i + 1;
    }
    false
}


/// Make every tile in `tiles` empty.
fn clear_tiles(solids: &mut Solids, tiles: &Vec<(i32, i32)>)
    requires
        old(solids).wf(),
    ensures
        final(solids).wf(),
        final(solids).width == old(solids).width,
        final(solids).height == old(solids).height,
        final(solids).platforms@ == old(solids).platforms@,
        forall|x: int, y: int| #[trigger] final(solids).solid_at(x, y) == (old(solids).solid_at(x, y) && !names_tile(tiles@, x, y)),
{
    let mut k: usize = 0;
    while k < tiles.len()
        invariant
            k <= tiles@.len(),
            solids.wf(),
            solids.width == old(solids).width,
            solids.height == old(solids).height,
            solids.platforms@ == old(solids).platforms@,
            forall|x: int, y: int| #[trigger] solids.solid_at(x, y) == (old(solids).solid_at(x, y) && !names_tile(tiles@.take(k as int), x, y)),
        decreases tiles@.len() - k,
    {
        let (tx, ty) = tiles[k];
        let ghost before = *solids;
        solids.clear(tx, ty);
        proof {
            let t = tiles@.take(k + 1);
            assert(t =~= tiles@.take(k as int).push((tx, ty)));
            assert forall|x: int, y: int| #[trigger] solids.solid_at(x, y) == (old(solids).solid_at(x, y) && !names_tile(t, x, y)) by {
                assert(solids.solid_at(x, y) == (before.solid_at(x, y) && !(x == tx && y == ty)));
                if names_tile(t, x, y) {
                    let q = choose|q: int| 0 <= q < t.len() && t[q].0 == x && t[q].1 == y;
                    if q < k {
                        assert(tiles@.take(k as int)[q] == t[q]);
                    }
                } else {
                    assert forall|q: int| 0 <= q < k implies !(#[trigger] tiles@.take(k as int)[q].0 == x && tiles@.take(k as int)[q].1 == y) by {
                        assert(t[q] == tiles@.take(k as int)[q]);
                    }
                    assert(t[k as int] == (tx, ty));
                }
            }
        }
        k = k + 1;
    }
    proof {
        assert(tiles@.take(k as int) =~= tiles@);
    }
}

/// The blocks without the bricks whose tiles are in `breaks`, in order.
fn without_broken(blocks: &Vec<Block>, breaks: &Vec<(i32, i32)>) -> (r: Vec<Block>)
    requires
        forall|q: int| 0 <= q < blocks@.len() ==> on_map(#[trigger] blocks@[q].x, blocks@[q].y),
    ensures
        r@ == blocks@.filter(|b: Block| !broken_brick(breaks@)(b)),
        forall|q: int| 0 <= q < r@.len() ==> on_map(#[trigger] r@[q].x, r@[q].y),
{
    let ghost pred = broken_brick(breaks@);
    let ghost keep = |b: Block| !pred(b);
    let mut kept: Vec<Block> = Vec::new();
    let mut j: usize = 0;
    while j < blocks.len()
        invariant
            j <= blocks@.len(),
            pred == broken_brick(breaks@),
            keep == (|b: Block| !pred(b)),
            kept@ == blocks@.take(j as int).filter(keep),
            forall|q: int| 0 <= q < blocks@.len() ==> on_map(#[trigger] blocks@[q].x, blocks@[q].y),
            forall|q: int| 0 <= q < kept@.len() ==> on_map(#[trigger] kept@[q].x, kept@[q].y),
        decreases blocks@.len() - j,
    {
        let b = blocks[j];
        proof {
            assert(blocks@.take(j + 1) == blocks@.take(j as int).push(b));
            blocks@.take(j as int).lemma_filter_push(b, keep);
        }
        let gone = b.kind == BlockKind::Brick && contains_pos(breaks, (div_toward_zero(b.x, 8), div_toward_zero(b.y, 8)));
        let ghost prev = kept@;
        if !gone {
            kept.push(b);
        }
        proof {
            assert forall|q: int| 0 <= q < kept@.len() implies on_map(#[trigger] kept@[q].x, kept@[q].y) by {
                if q < prev.len() {
                    assert(kept@[q] == prev[q]);
                }
            }
        }
        j = j + 1;
    }
    proof {
        assert(blocks@.take(j as int) =~= blocks@);
    }
    kept
}

impl Game {
    /// Move Mario through one frame of physics. Leaving the ground upward is
    /// a jump and makes a sound.
    pub(crate) fn apply_motion(&mut self, buttons: Buttons)
        requires
            old(self).fits(),
        ensures
            final(self)@ == moved(old(self)@, buttons, old(self).level.solids, old(self).tuning),
            final(self).kept(old(self)),
            loose(final(self).mario),
    {
        let was_grounded = self.mario.on_ground;
        step_motion(&mut self.mario, buttons, &self.level.solids, &self.tuning);
        if was_grounded && !self.mario.on_ground && self.mario.vy < 0 {
            self.sounds.push(SoundEvent::Jump);
        }
        proof {
            assert(self@ =~= moved(old(self)@, buttons, old(self).level.solids, old(self).tuning));
        }
    }

    /// Mario just moved up this frame. If his head is flush against an unused
    /// block, bump it. A question block gives a coin and becomes used; a power
    /// block gives an item; a brick breaks under big Mario and only takes the
    /// hit under small Mario.
    #[verifier::rlimit(40)]
    pub(crate) fn bump_blocks(&mut self)
        requires
            old(self).settled(),
            loose(old(self).mario),
            old(self).coins_collected < u32::MAX,
            old(self).score <= u32::MAX - 100,
            old(self).lives < u32::MAX,
            old(self).blocks@.len() <= COUNT_LIMIT,
        ensures
            final(self)@ == bumped(old(self)@),
            final(self).items@.len() <= old(self).items@.len() + 1,
            (forall|i: int| 0 <= i < old(self).items@.len() ==> (#[trigger] old(self).items@[i]).in_bounds())
                ==> (forall|i: int| 0 <= i < final(self).items@.len() ==> (#[trigger] final(self).items@[i]).in_bounds()),
            final(self).scenery_kept(old(self)),
            final(self).settled(),
            final(self).level.solids.wf(),
            forall|x: int, y: int| #[trigger] final(self).level.solids.solid_at(x, y) == (old(self).level.solids.solid_at(x, y)
                && !names_tile(bump_scan(old(self).mario, old(self).blocks@).breaks, x, y)),
    {
        let ghost m = self.mario;
        let ghost bs = self.blocks@;
        let (mw, _mh) = self.mario.size();
        let ml = self.mario.pixel_x();
        let mt = self.mario.pixel_y();
        let mr = ml + mw - 1;
        let small = self.mario.power == Power::Small;
        let mut got_coin = false;
        let mut item_at: Option<(i32, i32)> = None;
        let mut breaks: Vec<(i32, i32)> = Vec::new();
        let mut out: Vec<Block> = Vec::new();
        let mut bumps: usize = 0;
        let mut i: usize = 0;
        while i < self.blocks.len()
            invariant
                i <= bs.len(),
                bs == self.blocks@,
                m == self.mario,
                self.kept(old(self)),
                self@ == (World { sounds: old(self)@.sounds + bump_sounds(bumps as nat), ..old(self)@ }),
                old(self).settled(),
                bs.len() <= COUNT_LIMIT,
                bumps <= i,
                (ml as int, mt as int, mr as int) == (mario_box(m).0, mario_box(m).1, mario_box(m).2),
                small == (m.power == Power::Small),
                ({
                    let sc = bump_scan(m, bs.take(i as int));
                    &&& out@ == sc.blocks
                    &&& got_coin == sc.coin
                    &&& item_at == sc.item_at
                    &&& breaks@ == sc.breaks
                    &&& bumps == sc.bumps
                }),
                forall|j: int| 0 <= j < out@.len() ==> on_map(#[trigger] out@[j].x, out@[j].y),
                forall|j: int| 0 <= j < breaks@.len() ==> (#[trigger] breaks@[j]).0 <= 0x4_0000 && breaks@[j].1 <= 0x4_0000,
                item_at matches Some(p) ==> -0x18_0008 <= p.1 <= 0x18_0000 && -0x18_0000 <= p.0 <= 0x18_0000,
            decreases bs.len() - i,
        {
            let block = self.blocks[i];
            proof {
                assert(bs.take(i + 1).drop_last() =~= bs.take(i as int));
                assert(bs.take(i + 1).last() == block);
                assert(on_map(bs[i as int].x, bs[i as int].y));
            }
            let ghost prev_out = out@;
            let ghost prev_breaks = breaks@;
            let (bl, _bt, br, bb) = block.edges();
            let hit = !block.used && mt == bb + 1 && ml <= br && mr >= bl;
            if !hit {
                out.push(block);
            } else {
                match block.kind {
                    BlockKind::Question => {
                        out.push(Block { used: true, ..block });
                        got_coin = true;
                    },
                    BlockKind::PowerUp => {
                        out.push(Block { used: true, ..block });
                        item_at = Some((block.x, block.y - 8));
                    },
                    BlockKind::Brick => {
                        if !small {
                            out.push(Block { used: true, ..block });
                            breaks.push((div_toward_zero(block.x, 8), div_toward_zero(block.y, 8)));
                        } else {
                            out.push(block);
                        }
                    },
                }
                self.sounds.push(SoundEvent::BlockBump);
                bumps = bumps + 1;
                proof {
                    assert(old(self)@.sounds + bump_sounds(bumps as nat) =~= (old(self)@.sounds + bump_sounds((bumps - 1) as nat)).push(SoundEvent::BlockBump));
                }
            }
            proof {
                assert forall|j: int| 0 <= j < out@.len() implies on_map(#[trigger] out@[j].x, out@[j].y) by {
                    if j < prev_out.len() {
                        assert(out@[j] == prev_out[j]);
                    }
                }
                assert forall|j: int| 0 <= j < breaks@.len() implies (#[trigger] breaks@[j]).0 <= 0x4_0000 && breaks@[j].1 <= 0x4_0000 by {
                    if j < prev_breaks.len() {
                        assert(breaks@[j] == prev_breaks[j]);
                    }
                }
                assert(self@ =~= (World { sounds: old(self)@.sounds + bump_sounds(bumps as nat), ..old(self)@ }));
            }
            i = i + 1;
        }
        proof {
            assert(bs.take(i as int) =~= bs);
        }
        let ghost sc = bump_scan(m, bs);
        self.blocks = out;
        let ghost hit_world = self@;
        assert(hit_world =~= (World { blocks: sc.blocks, sounds: old(self)@.sounds + bump_sounds(sc.bumps), ..old(self)@ }));
        if got_coin {
            self.gain_coin();
        }
        let ghost coined = self@;
        let ghost items_before = self.items@;
        match item_at {
            Some((x, y)) => {
                let item = if small { Item::mushroom(x, y, false) } else { Item::flower(x, y, false) };
                self.items.push(item);
                proof {
                    assert(self.items@[self.items@.len() - 1] == item);
                    assert forall|q: int| 0 <= q < items_before.len() implies self.items@[q] == items_before[q] by {}
                }
            },
            None => {},
        }
        let ghost stocked = self@;
        proof {
            let kind = if m.power == Power::Small { ItemKind::Mushroom } else { ItemKind::Flower };
            match sc.item_at {
                Some(p) => {
                    assert(stocked =~= (World { items: coined.items.push(Item::made(p.0 as int, p.1 as int, false, kind)), ..coined }));
                },
                None => {
                    assert(stocked == coined);
                },
            }
        }
        // Clear the broken bricks' tiles so Mario can pass, and drop the bricks.
        clear_tiles(&mut self.level.solids, &breaks);
        let kept = without_broken(&self.blocks, &breaks);
        self.blocks = kept;
        proof {
            assert(self@ =~= bumped(old(self)@));
        }
    }
}

impl Game {
    /// Fire Mario throws a superball on a fresh press of B, up to two at a time.
    pub(crate) fn handle_throw(&mut self, buttons: Buttons)
        requires
            loose(old(self).mario),
            old(self).superballs@.len() <= 2,
            forall|i: int| 0 <= i < old(self).superballs@.len() ==> (#[trigger] old(self).superballs@[i]).roomy(),
        ensures
            final(self)@ == thrown(old(self)@, buttons),
            final(self).kept(old(self)),
            final(self).superballs@.len() <= 2,
            forall|i: int| 0 <= i < final(self).superballs@.len() ==> (#[trigger] final(self).superballs@[i]).roomy(),
    {
        let b = buttons.is_held(Button::B);
        let pressed = b && !self.throw_latched;
        self.throw_latched = b;
        if pressed && self.mario.power == Power::Fire && self.superballs.len() < 2 {
            let going_left = self.mario.facing == Facing::Left;
            let ball = Superball::new(self.mario.pixel_x(), self.mario.pixel_y(), going_left);
            let ghost before = self.superballs@;
            self.superballs.push(ball);
            proof {
                assert forall|i: int| 0 <= i < self.superballs@.len() implies (#[trigger] self.superballs@[i]).roomy() by {
                    if i < before.len() {
                        assert(self.superballs@[i] == before[i]);
                    }
                }
            }
        }
        proof {
            assert(self@ =~= thrown(old(self)@, buttons));
        }
    }

    /// Advance the walk animation for Mario's movement.
    pub(crate) fn animate(&mut self)
        requires
            old(self).animator.wf(),
            loose(old(self).mario),
        ensures
            final(self)@ == animated(old(self)@),
            final(self).kept(old(self)),
            final(self).animator.wf(),
    {
        self.animator.update(&self.mario);
        proof {
            assert(self@ =~= animated(old(self)@));
        }
    }

    /// Move every enemy and every item a frame.
    #[verifier::rlimit(40)]
    pub(crate) fn move_crowd(&mut self)
        requires
            old(self).level.solids.wf(),
            forall|i: int| 0 <= i < old(self).enemies@.len() ==> (#[trigger] old(self).enemies@[i]).in_bounds(),
            forall|i: int| 0 <= i < old(self).items@.len() ==> (#[trigger] old(self).items@[i]).in_bounds(),
        ensures
            final(self)@ == crowd_moved(old(self)@, old(self).level.solids),
            final(self).kept(old(self)),
            forall|i: int| 0 <= i < final(self).enemies@.len() ==> enemy_loose(#[trigger] final(self).enemies@[i]),
    {
        let ghost es = self.enemies@;
        let mut i: usize = 0;
        while i < self.enemies.len()
            invariant
                self.kept(old(self)),
                self@ == (World { enemies: self.enemies@, ..old(self)@ }),
                es == old(self).enemies@,
                self.enemies@.len() == es.len(),
                i <= es.len(),
                self.level.solids == old(self).level.solids,
                self.level.solids.wf(),
                forall|j: int| 0 <= j < es.len() ==> (#[trigger] es[j]).in_bounds(),
                forall|j: int| 0 <= j < i ==> #[trigger] self.enemies@[j] == enemy_step(es[j], self.level.solids) && enemy_loose(self.enemies@[j]),
                forall|j: int| i <= j < es.len() ==> #[trigger] self.enemies@[j] == es[j],
            decreases es.len() - i,
        {
            let mut e = self.enemies[i];
            update_enemy(&mut e, &self.level.solids);
            self.enemies.set(i, e);
            proof {
                assert(self@ =~= (World { enemies: self.enemies@, ..old(self)@ }));
            }
            i = i + 1;
        }
        assert(self.enemies@ =~= es.map_values(|e: Enemy| enemy_step(e, old(self).level.solids)));
        let ghost its = self.items@;
        let mut k: usize = 0;
        while k < self.items.len()
            invariant
                self.kept(old(self)),
                self@ == (World { enemies: self.enemies@, items: self.items@, ..old(self)@ }),
                self.enemies@ == es.map_values(|e: Enemy| enemy_step(e, old(self).level.solids)),
                forall|j: int| 0 <= j < self.enemies@.len() ==> enemy_loose(#[trigger] self.enemies@[j]),
                its == old(self).items@,
                self.items@.len() == its.len(),
                k <= its.len(),
                self.level.solids == old(self).level.solids,
                self.level.solids.wf(),
                forall|j: int| 0 <= j < its.len() ==> (#[trigger] its[j]).in_bounds(),
                forall|j: int| 0 <= j < k ==> #[trigger] self.items@[j] == item_step(its[j], self.level.solids),
                forall|j: int| k <= j < its.len() ==> #[trigger] self.items@[j] == its[j],
            decreases its.len() - k,
        {
            let mut it = self.items[k];
            update_item(&mut it, &self.level.solids);
            self.items.set(k, it);
            proof {
                assert(self@ =~= (World { enemies: self.enemies@, items: self.items@, ..old(self)@ }));
            }
            k = k + 1;
        }
        proof {
            assert(self.items@ =~= its.map_values(|it: Item| item_step(it, old(self).level.solids)));
            assert(self@ =~= crowd_moved(old(self)@, old(self).level.solids));
        }
    }
}

/// Whether any of the balls touches the tile at `c`.
fn struck_by(balls: &Vec<Superball>, c: (i32, i32)) -> (r: bool)
    requires
        -0x4000_0000 <= c.0 <= 0x4000_0000,
        -0x4000_0000 <= c.1 <= 0x4000_0000,
    ensures
        r == coin_struck(c, balls@),
{
    let (cl, ct, cr, cb) = (c.0, c.1, c.0 + 7, c.1 + 7);
    let mut k: usize = 0;
    while k < balls.len()
        invariant
            k <= balls@.len(),
            (cl as int, ct as int, cr as int, cb as int) == tile_box(c.0 as int, c.1 as int),
            forall|q: int| 0 <= q < k ==> !overlaps(#[trigger] balls@[q].body(), tile_box(c.0 as int, c.1 as int)),
        decreases balls@.len() - k,
    {
        let (bl, bt, br, bb) = balls[k].edges();
        if bl <= cr && br >= cl && bt <= cb && bb >= ct {
            assert(overlaps(balls@[k as int].body(), tile_box(c.0 as int, c.1 as int)));
            return true;
        }
        k = k + 1;
    }
    false
}

impl Game {
    /// Advance superballs, remove fizzled ones, and defeat any enemy a ball
    /// hits. A ball that connects is spent. Superballs also collect coins they
    /// pass through, without being spent.
    #[verifier::rlimit(40)]
    pub(crate) fn update_superballs(&mut self)
        requires
            old(self).level.solids.wf(),
            old(self).superballs@.len() <= 2,
            forall|i: int| 0 <= i < old(self).superballs@.len() ==> (#[trigger] old(self).superballs@[i]).roomy(),
            old(self).enemies@.len() <= COUNT_LIMIT,
            old(self).coins@.len() <= COUNT_LIMIT,
            forall|i: int| 0 <= i < old(self).coins@.len() ==> on_map(#[trigger] old(self).coins@[i].0, old(self).coins@[i].1),
            old(self).score + 100 * (2 * old(self).enemies@.len() + old(self).coins@.len()) <= u32::MAX,
            old(self).coins_collected + old(self).coins@.len() <= u32::MAX,
            old(self).lives + old(self).coins@.len() <= u32::MAX,
        ensures
            final(self)@ == balls_flown(old(self)@, old(self).level.solids),
            final(self)@ == (World {
                enemies: final(self).enemies@,
                superballs: final(self).superballs@,
                coins: final(self).coins@,
                score: final(self).score,
                coins_collected: final(self).coins_collected,
                lives: final(self).lives,
                sounds: final(self).sounds@,
                ..old(self)@
            }),
            final(self).kept(old(self)),
            final(self).score <= old(self).score + 100 * (2 * old(self).enemies@.len() + old(self).coins@.len()),
            final(self).coins_collected <= old(self).coins_collected + old(self).coins@.len(),
            old(self).lives <= final(self).lives <= old(self).lives + old(self).coins@.len(),
            final(self).superballs@.len() <= 2,
            final(self).enemies@.len() == old(self).enemies@.len(),
            final(self).mario == old(self).mario,
            final(self).items@ == old(self).items@,
            final(self).deaths == old(self).deaths,
            final(self).coins@.len() <= old(self).coins@.len(),
            forall|i: int| 0 <= i < final(self).coins@.len() ==> on_map(#[trigger] final(self).coins@[i].0, final(self).coins@[i].1),
    {
        let ghost w0 = self@;
        let ghost solids = self.level.solids;
        // Fly: fizzled balls go, the rest move.
        let mut flying: Vec<Superball> = Vec::new();
        let mut i: usize = 0;
        while i < self.superballs.len()
            invariant
                i <= self.superballs@.len(),
                self@ == w0,
                w0 == old(self)@,
                self.kept(old(self)),
                self.level.solids == solids,
                solids.wf(),
                forall|q: int| 0 <= q < self.superballs@.len() ==> (#[trigger] self.superballs@[q]).roomy(),
                flying@ == flight(self.superballs@.take(i as int), solids),
            decreases self.superballs@.len() - i,
        {
            let mut ball = self.superballs[i];
            proof {
                assert(self.superballs@.take(i + 1).drop_last() =~= self.superballs@.take(i as int));
            }
            if update_superball(&mut ball, &self.level.solids) {
                flying.push(ball);
            }
            i = i + 1;
        }
        proof {
            assert(self.superballs@.take(i as int) =~= self.superballs@);
            lemma_flight_len(w0.superballs, solids);
        }
        // Strike: each ball defeats the live enemies it touches.
        let ghost es = self.enemies@;
        let mut spent: Vec<bool> = Vec::new();
        let mut hits: u64 = 0;
        let mut bi: usize = 0;
        while bi < flying.len()
            invariant
                bi <= flying@.len(),
                flying@.len() <= 2,
                es == w0.enemies,
                es.len() <= COUNT_LIMIT,
                self@ == (World { enemies: self.enemies@, ..w0 }),
                self.kept(old(self)),
                self.level.solids == solids,
                ({
                    let v = volley(flying@.take(bi as int), es);
                    &&& self.enemies@ == v.enemies
                    &&& spent@ == v.spent
                    &&& hits == v.hits
                }),
                hits <= bi * es.len(),
            decreases flying@.len() - bi,
        {
            let ball = flying[bi];
            let (bl, bt, br, bb) = ball.edges();
            let ghost pe = self.enemies@;
            proof {
                lemma_volley(flying@.take(bi as int), es);
            }
            let mut struck: u64 = 0;
            let mut j: usize = 0;
            while j < self.enemies.len()
                invariant
                    j <= self.enemies@.len(),
                    self.enemies@.len() == pe.len(),
                    pe.len() == es.len(),
                    es.len() <= COUNT_LIMIT,
                    self@ == (World { enemies: self.enemies@, ..w0 }),
                    self.kept(old(self)),
                    self.level.solids == solids,
                    (bl as int, bt as int, br as int, bb as int) == ball.body(),
                    ({
                        let st = strikes(ball, pe.take(j as int));
                        &&& self.enemies@ == st.enemies + pe.skip(j as int)
                        &&& struck == st.hits
                    }),
                    struck <= j,
                decreases pe.len() - j,
            {
                let e = self.enemies[j];
                proof {
                    lemma_strikes(ball, pe.take(j as int));
                    assert(pe.take(j + 1).drop_last() =~= pe.take(j as int));
                    assert(pe.take(j + 1).last() == pe[j as int]);
                    assert(e == pe[j as int]);
                }
                let ghost st = strikes(ball, pe.take(j as int));
                if e.alive {
                    let (el, et, er, eb) = e.edges();
                    if bl <= er && br >= el && bt <= eb && bb >= et {
                        self.enemies.set(j, Enemy { alive: false, ..e });
                        struck = struck + 1;
                    }
                }
                proof {
                    assert(self.enemies@ =~= strikes(ball, pe.take(j + 1)).enemies + pe.skip(j + 1));
                    assert(self@ =~= (World { enemies: self.enemies@, ..w0 }));
                }
                j = j + 1;
            }
            proof {
                assert(pe.take(j as int) =~= pe);
                assert(pe.skip(j as int) =~= Seq::<Enemy>::empty());
                assert(self.enemies@ =~= strikes(ball, pe).enemies);
                assert(flying@.take(bi + 1).drop_last() =~= flying@.take(bi as int));
                assert(flying@.take(bi + 1).last() == ball);
                assert((bi + 1) * es.len() == bi * es.len() + es.len()) by (nonlinear_arith);
            }
            spent.push(struck > 0);
            hits = hits + struck;
            bi = bi + 1;
        }
        proof {
            assert(flying@.take(bi as int) =~= flying@);
            assert(hits <= 2 * es.len()) by (nonlinear_arith)
                requires hits <= bi * es.len(), bi <= 2;
            lemma_volley(flying@, es);
        }
        let ghost v = volley(flying@, es);
        if hits > 0 {
            self.score = self.score + 100 * (hits as u32);
            self.sounds.push(SoundEvent::Stomp);
        }
        let ghost scored = self@;
        // The balls that connected are spent.
        let mut left: Vec<Superball> = Vec::new();
        let mut k: usize = 0;
        while k < flying.len()
            invariant
                k <= flying@.len(),
                spent@.len() == flying@.len(),
                left@ == unspent(flying@.take(k as int), spent@.take(k as int)),
            decreases flying@.len() - k,
        {
            proof {
                assert(flying@.take(k + 1).drop_last() =~= flying@.take(k as int));
                assert(spent@.take(k + 1).drop_last() =~= spent@.take(k as int));
            }
            if !spent[k] {
                left.push(flying[k]);
            }
            k = k + 1;
        }
        proof {
            assert(flying@.take(k as int) =~= flying@);
            assert(spent@.take(k as int) =~= spent@);
            lemma_unspent_len(flying@, spent@);
        }
        // The balls left collect the coins they touch.
        let ghost struck_pred = |c: (i32, i32)| coin_struck(c, left@);
        let ghost keep_pred = |c: (i32, i32)| !struck_pred(c);
        let ghost cs = self.coins@;
        let mut kept: Vec<(i32, i32)> = Vec::new();
        let mut gone: usize = 0;
        let mut q: usize = 0;
        while q < self.coins.len()
            invariant
                q <= cs.len(),
                cs == self.coins@,
                cs == w0.coins,
                cs.len() <= COUNT_LIMIT,
                forall|n: int| 0 <= n < cs.len() ==> on_map(#[trigger] cs[n].0, cs[n].1),
                struck_pred == (|c: (i32, i32)| coin_struck(c, left@)),
                keep_pred == (|c: (i32, i32)| !struck_pred(c)),
                kept@ == cs.take(q as int).filter(keep_pred),
                gone == cs.take(q as int).filter(struck_pred).len(),
                gone <= q,
                forall|n: int| 0 <= n < kept@.len() ==> on_map(#[trigger] kept@[n].0, kept@[n].1),
            decreases cs.len() - q,
        {
            let c = self.coins[q];
            proof {
                assert(on_map(cs[q as int].0, cs[q as int].1));
                assert(cs.take(q + 1) == cs.take(q as int).push(c));
                cs.take(q as int).lemma_filter_push(c, keep_pred);
                cs.take(q as int).lemma_filter_push(c, struck_pred);
            }
            let ghost prev = kept@;
            if struck_by(&left, c) {
                gone = gone + 1;
            } else {
                kept.push(c);
            }
            proof {
                assert forall|n: int| 0 <= n < kept@.len() implies on_map(#[trigger] kept@[n].0, kept@[n].1) by {
                    if n < prev.len() {
                        assert(kept@[n] == prev[n]);
                    }
                }
            }
            q = q + 1;
        }
        proof {
            assert(cs.take(q as int) =~= cs);
        }
        self.superballs = left;
        self.coins = kept;
        proof {
            assert(self@ =~= World { enemies: v.enemies, superballs: left@, coins: cs.filter(keep_pred), ..scored });
        }
        let ghost base = self@;
        assert(base.score <= old(self).score + 100 * (2 * es.len()));
        assert(gone <= cs.len());
        let mut g: usize = 0;
        while g < gone
            invariant
                g <= gone,
                gone <= COUNT_LIMIT,
                base.score + 100 * gone <= u32::MAX,
                base.coins_collected + gone <= u32::MAX,
                base.lives + gone <= u32::MAX,
                self@ == with_coins(base, g as nat),
                self.kept(old(self)),
            decreases gone - g,
        {
            proof {
                lemma_with_coins(base, g as nat);
            }
            self.gain_coin();
            g = g + 1;
        }
        proof {
            lemma_with_coins(base, gone as nat);
        }
    }
}

impl Game {
    /// Invulnerability and star time run down by a frame.
    pub(crate) fn run_timers(&mut self)
        ensures
            final(self)@ == timers_run(old(self)@),
            final(self).kept(old(self)),
    {
        if self.mario.invuln > 0 {
            self.mario.invuln = self.mario.invuln - 1;
        }
        if self.mario.invincible > 0 {
            self.mario.invincible = self.mario.invincible - 1;
        }
        proof {
            assert(self@ =~= timers_run(old(self)@));
        }
    }

    /// Mario picks up an item of `kind`.
    fn pick_up(&mut self, kind: ItemKind)
        requires
            old(self).mario.y >= i32::MIN + 2048,
            old(self).score <= u32::MAX - 1000,
        ensures
            final(self)@ == picked_up(old(self)@, kind),
            final(self).kept(old(self)),
    {
        match kind {
            ItemKind::Mushroom => self.grow_mario(),
            ItemKind::Star => self.mario.invincible = STAR_DURATION,
            ItemKind::Flower => {
                self.grow_mario();
                self.mario.power = Power::Fire;
            },
        }
        self.score = self.score + 1000;
        self.sounds.push(SoundEvent::PowerUp);
        proof {
            assert(self@ =~= picked_up(old(self)@, kind));
        }
    }

    /// Pick up any item Mario overlaps: a mushroom grows small Mario, a star
    /// grants invincibility, a flower gives fire. Either way it is worth points.
    #[verifier::rlimit(40)]
    pub(crate) fn collect_items(&mut self)
        requires
            loose(old(self).mario),
            old(self).items@.len() <= COUNT_LIMIT + 1,
            old(self).score + 1000 * old(self).items@.len() <= u32::MAX,
        ensures
            final(self)@ == items_collected(old(self)@),
            final(self)@ == (World { mario: final(self).mario, score: final(self).score, sounds: final(self).sounds@, items: final(self).items@, ..old(self)@ }),
            final(self).kept(old(self)),
            final(self).score <= old(self).score + 1000 * old(self).items@.len(),
            final(self).items@.len() <= old(self).items@.len(),
            final(self).mario.x == old(self).mario.x,
            old(self).mario.y - 2048 <= final(self).mario.y <= old(self).mario.y,
    {
        let (mw, mh) = self.mario.size();
        let ml = self.mario.pixel_x();
        let mt = self.mario.pixel_y();
        let (mr, mb) = (ml + mw - 1, mt + mh - 1);
        let ghost w0 = self@;
        let ghost touch = item_touches(mario_box(w0.mario));
        let ghost away = |it: Item| !touch(it);
        let ghost kind_of = |it: Item| it.kind;
        let ghost its = self.items@;
        let mut picked: Vec<ItemKind> = Vec::new();
        let mut keep: Vec<Item> = Vec::new();
        let mut i: usize = 0;
        while i < self.items.len()
            invariant
                i <= its.len(),
                its == self.items@,
                (ml as int, mt as int, mr as int, mb as int) == mario_box(w0.mario),
                touch == item_touches(mario_box(w0.mario)),
                away == (|it: Item| !touch(it)),
                kind_of == (|it: Item| it.kind),
                keep@ == its.take(i as int).filter(away),
                picked@ == its.take(i as int).filter(touch).map_values(kind_of),
            decreases its.len() - i,
        {
            let it = self.items[i];
            proof {
                assert(its.take(i + 1) == its.take(i as int).push(it));
                its.take(i as int).lemma_filter_push(it, away);
                its.take(i as int).lemma_filter_push(it, touch);
            }
            let (el, et, er, eb) = it.edges();
            if ml <= er && mr >= el && mt <= eb && mb >= et {
                picked.push(it.kind);
                proof {
                    assert(its.take(i as int).filter(touch).push(it).map_values(kind_of) =~= its.take(i as int).filter(touch).map_values(kind_of).push(it.kind));
                }
            } else {
                keep.push(it);
            }
            i = i + 1;
        }
        proof {
            assert(its.take(i as int) =~= its);
            its.lemma_filter_len(touch);
            its.lemma_filter_len(away);
        }
        self.items = keep;
        let ghost w1 = self@;
        assert(w1 =~= (World { items: its.filter(away), ..w0 }));
        let mut k: usize = 0;
        while k < picked.len()
            invariant
                k <= picked@.len(),
                picked@.len() <= its.len(),
                its.len() <= COUNT_LIMIT + 1,
                w1.score + 1000 * its.len() <= u32::MAX,
                self@ == picked_all(w1, picked@.take(k as int)),
                self@ == (World { mario: self.mario, score: self.score, sounds: self.sounds@, ..w1 }),
                self.kept(old(self)),
                self.score == w1.score + 1000 * k,
                self.items@ == w1.items,
                w1.items.len() <= its.len(),
                self.mario.x == w1.mario.x,
                w1.mario.y - 2048 <= self.mario.y <= w1.mario.y,
                self.mario.power == Power::Small ==> self.mario.y == w1.mario.y,
                loose(w1.mario),
            decreases picked@.len() - k,
        {
            let kind = picked[k];
            proof {
                assert(picked@.take(k + 1).drop_last() =~= picked@.take(k as int));
                assert(picked@.take(k + 1).last() == kind);
            }
            self.pick_up(kind);
            k = k + 1;
        }
        proof {
            assert(picked@.take(k as int) =~= picked@);
        }
    }

    /// Resolve Mario touching enemies. With a star Mario defeats them; coming
    /// down onto an enemy's upper half is a stomp: the enemy dies and Mario
    /// bounces. Any other contact is a hit, which shrinks big Mario and kills
    /// small Mario.
    #[verifier::rlimit(40)]
    pub(crate) fn resolve_interactions(&mut self)
        requires
            -0x4800_0000 <= old(self).mario.y <= 0x4800_0000,
            -0x4800_0000 <= old(self).mario.x <= 0x4800_0000,
            old(self).score <= u32::MAX - 200,
            old(self).tuning.sane(),
        ensures
            final(self)@ == interactions_resolved(old(self)@, old(self).tuning),
            final(self)@ == (World { mario: final(self).mario, score: final(self).score, sounds: final(self).sounds@, enemies: final(self).enemies@, ..old(self)@ }),
            final(self).kept(old(self)),
            final(self).score <= old(self).score + 200,
            final(self).enemies@.len() == old(self).enemies@.len(),
            final(self).mario.x == old(self).mario.x,
            old(self).mario.y <= final(self).mario.y <= old(self).mario.y + 2048,
    {
        let (mw, mh) = self.mario.size();
        let ml = self.mario.pixel_x();
        let mt = self.mario.pixel_y();
        let (mr, mb) = (ml + mw - 1, mt + mh - 1);
        let descending = self.mario.vy > 0;
        let invincible = self.mario.invincible > 0;
        let ghost w0 = self@;
        let ghost m = self.mario;
        let ghost pe = self.enemies@;
        let mut stomped = false;
        let mut hit = false;
        let mut plowed = false;
        let mut j: usize = 0;
        while j < self.enemies.len()
            invariant
                j <= pe.len(),
                self.enemies@.len() == pe.len(),
                self@ == (World { enemies: self.enemies@, ..w0 }),
                self.kept(old(self)),
                m == w0.mario,
                (ml as int, mt as int, mr as int, mb as int) == mario_box(m),
                descending == (m.vy > 0),
                invincible == (m.invincible > 0),
                ({
                    let c = contacts(m, pe.take(j as int));
                    &&& self.enemies@ == c.enemies + pe.skip(j as int)
                    &&& stomped == c.stomped
                    &&& hit == c.hit
                    &&& plowed == c.plowed
                }),
            decreases pe.len() - j,
        {
            let e = self.enemies[j];
            proof {
                assert(pe.take(j + 1).drop_last() =~= pe.take(j as int));
                assert(pe.take(j + 1).last() == pe[j as int]);
                let c = contacts(m, pe.take(j as int));
                lemma_contacts_len(m, pe.take(j as int));
                assert(self.enemies@[j as int] == pe[j as int]);
            }
            if e.alive {
                let (el, et, er, eb) = e.edges();
                if ml <= er && mr >= el && mt <= eb && mb >= et {
                    if invincible {
                        self.enemies.set(j, Enemy { alive: false, ..e });
                        plowed = true;
                    } else if descending && mb <= et + ENEMY_SIZE / 2 {
                        self.enemies.set(j, Enemy { alive: false, ..e });
                        stomped = true;
                    } else {
                        hit = true;
                    }
                }
            }
            proof {
                lemma_contacts_len(m, pe.take(j as int));
                assert(self.enemies@ =~= contacts(m, pe.take(j + 1)).enemies + pe.skip(j + 1));
                assert(self@ =~= (World { enemies: self.enemies@, ..w0 }));
            }
            j = j + 1;
        }
        proof {
            assert(pe.take(j as int) =~= pe);
            assert(self.enemies@ =~= contacts(m, pe).enemies);
        }
        if plowed {
            self.score = self.score + 100;
            self.sounds.push(SoundEvent::Stomp);
        }
        if stomped {
            self.mario.vy = -self.tuning.stomp_bounce;
            self.mario.on_ground = false;
            self.score = self.score + 100;
            self.sounds.push(SoundEvent::Stomp);
        }
        if hit && !stomped && self.mario.invuln == 0 {
            if self.mario.power != Power::Small {
                self.mario.power = Power::Small;
                self.mario.y = self.mario.y + pixels(ITEM_SIZE);
                self.mario.invuln = SHRINK_INVULN;
                self.sounds.push(SoundEvent::Shrink);
            } else {
                self.mario.alive = false;
            }
        }
        proof {
            assert(self@ =~= interactions_resolved(old(self)@, old(self).tuning));
        }
    }

    /// Collect any coins Mario overlaps. Every 100 coins grants a life.
    #[verifier::rlimit(40)]
    pub(crate) fn collect_coins(&mut self)
        requires
            old(self).coins@.len() <= COUNT_LIMIT,
            forall|i: int| 0 <= i < old(self).coins@.len() ==> on_map(#[trigger] old(self).coins@[i].0, old(self).coins@[i].1),
            old(self).score + 100 * old(self).coins@.len() <= u32::MAX,
            old(self).coins_collected + old(self).coins@.len() <= u32::MAX,
            old(self).lives + old(self).coins@.len() <= u32::MAX,
        ensures
            final(self)@ == coins_collected(old(self)@),
            final(self)@ == (World {
                coins: final(self).coins@,
                score: final(self).score,
                coins_collected: final(self).coins_collected,
                lives: final(self).lives,
                sounds: final(self).sounds@,
                ..old(self)@
            }),
            final(self).kept(old(self)),
            final(self).score <= old(self).score + 100 * old(self).coins@.len(),
            final(self).coins_collected <= old(self).coins_collected + old(self).coins@.len(),
            old(self).lives <= final(self).lives <= old(self).lives + old(self).coins@.len(),
            final(self).coins@.len() <= old(self).coins@.len(),
            forall|i: int| 0 <= i < final(self).coins@.len() ==> on_map(#[trigger] final(self).coins@[i].0, final(self).coins@[i].1),
    {
        let (mw, mh) = self.mario.size();
        let ml = self.mario.pixel_x();
        let mt = self.mario.pixel_y();
        let (mr, mb) = (ml + mw - 1, mt + mh - 1);
        let ghost w0 = self@;
        let ghost touch = coin_touches(mario_box(w0.mario));
        let ghost away = |c: (i32, i32)| !touch(c);
        let ghost cs = self.coins@;
        let mut kept: Vec<(i32, i32)> = Vec::new();
        let mut got: usize = 0;
        let mut q: usize = 0;
        while q < self.coins.len()
            invariant
                q <= cs.len(),
                cs == self.coins@,
                cs.len() <= COUNT_LIMIT,
                forall|n: int| 0 <= n < cs.len() ==> on_map(#[trigger] cs[n].0, cs[n].1),
                (ml as int, mt as int, mr as int, mb as int) == mario_box(w0.mario),
                touch == coin_touches(mario_box(w0.mario)),
                away == (|c: (i32, i32)| !touch(c)),
                kept@ == cs.take(q as int).filter(away),
                got == cs.take(q as int).filter(touch).len(),
                got <= q,
                forall|n: int| 0 <= n < kept@.len() ==> on_map(#[trigger] kept@[n].0, kept@[n].1),
            decreases cs.len() - q,
        {
            let c = self.coins[q];
            proof {
                assert(on_map(cs[q as int].0, cs[q as int].1));
                assert(cs.take(q + 1) == cs.take(q as int).push(c));
                cs.take(q as int).lemma_filter_push(c, away);
                cs.take(q as int).lemma_filter_push(c, touch);
            }
            let (cl, ct, cr, cb) = (c.0, c.1, c.0 + TILE - 1, c.1 + TILE - 1);
            let ghost prev = kept@;
            if ml <= cr && mr >= cl && mt <= cb && mb >= ct {
                got = got + 1;
            } else {
                kept.push(c);
            }
            proof {
                assert forall|n: int| 0 <= n < kept@.len() implies on_map(#[trigger] kept@[n].0, kept@[n].1) by {
                    if n < prev.len() {
                        assert(kept@[n] == prev[n]);
                    }
                }
            }
            q = q + 1;
        }
        proof {
            assert(cs.take(q as int) =~= cs);
        }
        self.coins = kept;
        let ghost base = self@;
        assert(base =~= (World { coins: cs.filter(away), ..w0 }));
        let mut g: usize = 0;
        while g < got
            invariant
                g <= got,
                got <= COUNT_LIMIT,
                base.score + 100 * got <= u32::MAX,
                base.coins_collected + got <= u32::MAX,
                base.lives + got <= u32::MAX,
                self@ == with_coins(base, g as nat),
                self.kept(old(self)),
            decreases got - g,
        {
            proof {
                lemma_with_coins(base, g as nat);
            }
            self.gain_coin();
            g = g + 1;
        }
        proof {
            lemma_with_coins(base, got as nat);
        }
    }
}

impl Game {
    /// Whether Mario touches the level-end tile.
    fn at_end(&self) -> (r: bool)
        requires
            -0x5000_0000 <= self.mario.x <= 0x5000_0000,
            -0x5000_0000 <= self.mario.y <= 0x5000_0000,
            match self.level.end {
                Some(e) => on_map(e.0, e.1),
                None => true,
            },
        ensures
            r == reaches_end(self.mario, self.level.end),
    {
        match self.level.end {
            Some((ex, ey)) => {
                let (mw, mh) = self.mario.size();
                let (ml, mt) = (self.mario.pixel_x(), self.mario.pixel_y());
                let (mr, mb) = (ml + mw - 1, mt + mh - 1);
                let (el, et, er, eb) = (ex, ey, ex + TILE - 1, ey + TILE - 1);
                ml <= er && mr >= el && mt <= eb && mb >= et
            },
            None => false,
        }
    }

    /// A dead Mario costs a life: the last one ends the game, any other
    /// respawns him.
    fn lose_life(&mut self)
        requires
            old(self).settled(),
            old(self).deaths < u32::MAX,
        ensures
            final(self)@ == ({
                let w = old(self)@;
                let lives = if w.lives == 0 { 0 } else { w.lives - 1 };
                let died = World { deaths: (w.deaths + 1) as u32, lives: lives as u32, sounds: w.sounds.push(SoundEvent::Death), ..w };
                if lives == 0 {
                    World { game_over: true, sounds: died.sounds.push(SoundEvent::GameOver), ..died }
                } else {
                    respawned(died, old(self).level.spawn, old(self).level.enemy_spawns@, old(self).tuning.timer_start)
                }
            }),
            final(self).kept(old(self)),
            final(self).settled(),
    {
        self.deaths = self.deaths + 1;
        self.sounds.push(SoundEvent::Death);
        self.lives = self.lives.saturating_sub(1);
        if self.lives == 0 {
            self.game_over = true;
            self.sounds.push(SoundEvent::GameOver);
            proof {
                assert(self@ =~= (World { game_over: true, sounds: old(self)@.sounds.push(SoundEvent::Death).push(SoundEvent::GameOver), deaths: (old(self).deaths + 1) as u32, lives: 0, ..old(self)@ }));
            }
            return;
        }
        self.respawn();
        proof {
            Animator::lemma_fresh_wf();
        }
    }

    /// How a frame ends: reaching the end completes the level; otherwise an
    /// empty timer kills Mario, and a dead Mario costs a life.
    pub(crate) fn conclude(&mut self)
        requires
            old(self).settled(),
            old(self).deaths < u32::MAX,
            -0x5000_0000 <= old(self).mario.x <= 0x5000_0000,
            -0x5000_0000 <= old(self).mario.y <= 0x5000_0000,
        ensures
            final(self)@ == concluded(old(self)@, old(self).level.end, old(self).level.spawn, old(self).level.enemy_spawns@, old(self).tuning.timer_start),
            final(self).kept(old(self)),
            final(self).settled(),
    {
        if self.at_end() {
            self.completed = true;
            self.sounds.push(SoundEvent::LevelComplete);
            proof {
                assert(self@ =~= concluded(old(self)@, old(self).level.end, old(self).level.spawn, old(self).level.enemy_spawns@, old(self).tuning.timer_start));
            }
            return;
        }
        if self.timer == 0 {
            self.mario.alive = false;
        }
        let ghost timed = self@;
        if !self.mario.alive {
            self.lose_life();
        }
    }
}

impl Game {
    /// The state between Mario's move and the rest of a frame.
    pub open spec fn ready_to_play(&self) -> bool {
        &&& self.settled()
        &&& loose(self.mario)
        &&& self.superballs@.len() <= 2
        &&& forall|i: int| 0 <= i < self.superballs@.len() ==> (#[trigger] self.superballs@[i]).roomy()
        &&& self.enemies@.len() <= COUNT_LIMIT
        &&& forall|i: int| 0 <= i < self.enemies@.len() ==> (#[trigger] self.enemies@[i]).in_bounds()
        &&& self.items@.len() <= COUNT_LIMIT + 1
        &&& forall|i: int| 0 <= i < self.items@.len() ==> (#[trigger] self.items@[i]).in_bounds()
        &&& self.coins@.len() <= COUNT_LIMIT
        &&& self.score <= 0x8000_0063
        &&& self.coins_collected <= 0x8000_0000
        &&& self.lives <= 0x8000_0000
        &&& self.deaths <= 0x7fff_ffff
    }

    /// Everything a frame does after Mario moves and the blocks are bumped.
    #[verifier::rlimit(60)]
    pub(crate) fn play(&mut self, buttons: Buttons)
        requires
            old(self).ready_to_play(),
        ensures
            final(self)@ == played(
                old(self)@,
                buttons,
                old(self).level.solids,
                old(self).tuning,
                old(self).level.end,
                old(self).level.spawn,
                old(self).level.enemy_spawns@,
                old(self).level.solids.width * 8,
                old(self).level.solids.height * 8,
            ),
            final(self).kept(old(self)),
            final(self).settled(),
    {
        let ghost w0 = self@;
        let ghost solids = self.level.solids;
        self.handle_throw(buttons);
        let ghost w1 = self@;
        self.animate();
        let ghost w2 = self@;
        self.move_crowd();
        let ghost w3 = self@;
        assert(w3 == crowd_moved(animated(thrown(w0, buttons)), solids));
        self.update_superballs();
        let ghost w4 = self@;
        self.run_timers();
        let ghost w5 = self@;
        assert(loose(self.mario));
        self.collect_items();
        let ghost w6 = self@;
        self.resolve_interactions();
        let ghost w7 = self@;
        assert(w7 == interactions_resolved(items_collected(timers_run(balls_flown(w3, solids))), old(self).tuning));
        self.collect_coins();
        self.tick_timer();
        let (lw, lh) = self.level_size();
        let fx = self.mario.pixel_x() + 4;
        let fy = self.mario.pixel_y() + 4;
        self.camera.follow(fx, fy, lw, lh);
        let ghost w8 = self@;
        assert(w8 =~= followed(ticked(coins_collected(w7)), lw as int, lh as int));
        despawn_offscreen(&mut self.enemies, self.camera.x);
        let ghost w9 = self@;
        assert(w9 =~= despawned(w8));
        self.conclude();
    }
}

impl Game {
    /// `next` is what one frame with `buttons` makes of `self`.
    pub open spec fn steps_to(&self, buttons: Buttons, next: Game) -> bool {
        &&& next@ == stepped(
            self@,
            buttons,
            self.level.solids,
            next.level.solids,
            self.tuning,
            self.level.end,
            self.level.spawn,
            self.level.enemy_spawns@,
            self.level.solids.width * 8,
            self.level.solids.height * 8,
        )
        &&& next.level.solids.wf()
        &&& forall|x: int, y: int| #[trigger] next.level.solids.solid_at(x, y) == (self.level.solids.solid_at(x, y)
            && !names_tile(frame_breaks(self@, buttons, self.level.solids, self.tuning), x, y))
        &&& next.scenery_kept(self)
        &&& next.settled()
    }

    /// Advance one frame from the held buttons. A completed or lost game only
    /// clears its sounds. Otherwise Mario moves, bumps the blocks above him
    /// if he was rising, and the rest of the frame plays out: thrown
    /// superballs, animation, enemies and items, pickups, stomps and hits,
    /// coins, the timer, the camera, and finally the level's end, a death or
    /// the game's end.
    #[verifier::rlimit(40)]
    pub fn step(&mut self, buttons: Buttons)
        requires
            old(self).fits(),
        ensures
            final(self)@ == stepped(
                old(self)@,
                buttons,
                old(self).level.solids,
                final(self).level.solids,
                old(self).tuning,
                old(self).level.end,
                old(self).level.spawn,
                old(self).level.enemy_spawns@,
                old(self).level.solids.width * 8,
                old(self).level.solids.height * 8,
            ),
            final(self).level.solids.wf(),
            forall|x: int, y: int| #[trigger] final(self).level.solids.solid_at(x, y) == (old(self).level.solids.solid_at(x, y)
                && !names_tile(frame_breaks(old(self)@, buttons, old(self).level.solids, old(self).tuning), x, y)),
            final(self).scenery_kept(old(self)),
            final(self).settled(),
            old(self).steps_to(buttons, *final(self)),
    {
        self.sounds = Vec::new();
        if self.completed || self.game_over {
            proof {
                assert(self@ =~= (World { sounds: seq![], ..old(self)@ }));
            }
            return;
        }
        let ghost quiet = self@;
        assert(quiet =~= (World { sounds: seq![], ..old(self)@ }));
        let rising = self.mario.vy < 0;
        self.apply_motion(buttons);
        if rising {
            self.bump_blocks();
        }
        self.play(buttons);
    }
}

/// `trace` is a run of frames with `buttons` held: each game in it but the
/// last is inside the limits a step needs and steps to the next.
pub open spec fn frame_run(trace: Seq<Game>, buttons: Buttons) -> bool {
    forall|i: int| #![trigger trace[i]] 0 <= i < trace.len() - 1 ==> trace[i].fits() && trace[i].steps_to(buttons, trace[i + 1])
}

impl Game {
    /// Play up to `frames` frames with the same buttons held, stopping early
    /// only if the game leaves the limits a step needs. Returns how many
    /// frames were played.
    pub fn play_frames(&mut self, buttons: Buttons, frames: u32) -> (played: u32)
        ensures
            played <= frames,
            played < frames ==> !final(self).fits(),
            exists|trace: Seq<Game>|
                {
                    &&& #[trigger] trace.len() == played + 1
                    &&& trace[0] == *old(self)
                    &&& trace[played as int] == *final(self)
                    &&& frame_run(trace, buttons)
                },
    {
        let ghost mut trace: Seq<Game> = seq![*self];
        let mut n: u32 = 0;
        while n < frames && self.within_limits()
            invariant
                n <= frames,
                trace.len() == n + 1,
                trace[0] == *old(self),
                trace[n as int] == *self,
                frame_run(trace, buttons),
            decreases frames - n,
        {
            let ghost before = trace;
            self.step(buttons);
            proof {
                trace = trace.push(*self);
                assert forall|i: int| #![trigger trace[i]] 0 <= i < trace.len() - 1 implies trace[i].fits() && trace[i].steps_to(buttons, trace[i + 1]) by {
                    if i < n {
                        assert(trace[i] == before[i] && trace[i + 1] == before[i + 1]);
                        assert(before[i].fits());
                    }
                }
            }
            n = n + 1;
        }
        assert(trace.len() == n + 1);
        n
    }
}

/// Stepping is deterministic: two frames played from the same game with the
/// same buttons break the same bricks, so they agree on every solid tile and
/// on the level's size and platforms, and with the same solid grid they agree
/// on everything play changes.
pub proof fn law_stepping_is_deterministic(g: Game, buttons: Buttons, n1: Game, n2: Game)
    requires
        g.steps_to(buttons, n1),
        g.steps_to(buttons, n2),
    ensures
        forall|x: int, y: int| #[trigger] n1.level.solids.solid_at(x, y) == n2.level.solids.solid_at(x, y),
        n1.level.solids.width == n2.level.solids.width,
        n1.level.solids.height == n2.level.solids.height,
        n1.level.solids.platforms@ == n2.level.solids.platforms@,
        n1.level.solids == n2.level.solids ==> n1@ == n2@,
{
    assert forall|x: int, y: int| #[trigger] n1.level.solids.solid_at(x, y) == n2.level.solids.solid_at(x, y) by {
        assert(n1.level.solids.solid_at(x, y) == (g.level.solids.solid_at(x, y)
            && !names_tile(frame_breaks(g@, buttons, g.level.solids, g.tuning), x, y)));
        assert(n2.level.solids.solid_at(x, y) == (g.level.solids.solid_at(x, y)
            && !names_tile(frame_breaks(g@, buttons, g.level.solids, g.tuning), x, y)));
    }
}

} // verus!
