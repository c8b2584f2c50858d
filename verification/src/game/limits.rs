//! Checking, at run time, that a game is inside the limits a step needs.
use super::{on_map, Game, COUNTER_LIMIT, COUNT_LIMIT, MAP_LIMIT};
use crate::engine::entity::{POSITION_LIMIT, VELOCITY_LIMIT};
use crate::engine::level::Level;
use vstd::prelude::*;

verus! {

fn within(v: i32, limit: i32) -> (r: bool)
    requires
        limit >= 0,
    ensures
        r == (-limit <= v <= limit),
{
    -limit <= v && v <= limit
}

impl Game {
    /// Whether the game is settled: what every step keeps.
    #[verifier::rlimit(40)]
    pub fn is_settled(&self) -> (r: bool)
        ensures
            r == self.settled(),
    {
        let s = &self.level.solids;
        let area_ok = match s.width.checked_mul(s.height) {
            Some(n) => n == s.cells.len() && n == s.platforms.len(),
            None => false,
        };
        if !(area_ok && s.width < 0x0100_0000 && s.height < 0x0100_0000) {
            return false;
        }
        match self.bg_map.width.checked_mul(self.bg_map.height) {
            Some(n) => {
                if n != self.bg_map.cells.len() {
                    return false;
                }
            },
            None => {
                return false;
            },
        }
        if !(self.bg_map.width == s.width && self.bg_map.height == s.height && self.tuning.is_sane()
            && self.animator.in_cycle() && self.timer_ticks < 24) {
            return false;
        }
        if !(within(self.camera.x, 0x1000_0000) && within(self.camera.y, 0x1000_0000)) {
            return false;
        }
        if !(within(self.level.spawn.0, MAP_LIMIT) && within(self.level.spawn.1, MAP_LIMIT)) {
            return false;
        }
        if self.level.enemy_spawns.len() > COUNT_LIMIT {
            return false;
        }
        let mut i: usize = 0;
        while i < self.level.enemy_spawns.len()
            invariant
                i <= self.level.enemy_spawns@.len(),
                forall|j: int| 0 <= j < i ==> on_map(#[trigger] self.level.enemy_spawns@[j].0, self.level.enemy_spawns@[j].1),
            decreases self.level.enemy_spawns@.len() - i,
        {
            let (x, y, _) = self.level.enemy_spawns[i];
            if !(within(x, MAP_LIMIT) && within(y, MAP_LIMIT)) {
                return false;
            }
            i = i + 1;
        }
        self.fixtures_on_map()
    }

    /// Whether the coins, blocks and level end sit inside the map limits.
    fn fixtures_on_map(&self) -> (r: bool)
        ensures
            r == ({
                &&& forall|i: int| 0 <= i < self.coins@.len() ==> on_map(#[trigger] self.coins@[i].0, self.coins@[i].1)
                &&& forall|i: int| 0 <= i < self.blocks@.len() ==> on_map(#[trigger] self.blocks@[i].x, self.blocks@[i].y)
                &&& match self.level.end {
                    Some(e) => on_map(e.0, e.1),
                    None => true,
                }
            }),
    {
        let mut i: usize = 0;
        while i < self.coins.len()
            invariant
                i <= self.coins@.len(),
                forall|j: int| 0 <= j < i ==> on_map(#[trigger] self.coins@[j].0, self.coins@[j].1),
            decreases self.coins@.len() - i,
        {
            let (x, y) = self.coins[i];
            if !(within(x, MAP_LIMIT) && within(y, MAP_LIMIT)) {
                return false;
            }
            i = i + 1;
        }
        let mut i: usize = 0;
        while i < self.blocks.len()
            invariant
                i <= self.blocks@.len(),
                forall|j: int| 0 <= j < i ==> on_map(#[trigger] self.blocks@[j].x, self.blocks@[j].y),
            decreases self.blocks@.len() - i,
        {
            let b = self.blocks[i];
            if !(within(b.x, MAP_LIMIT) && within(b.y, MAP_LIMIT)) {
                return false;
            }
            i = i + 1;
        }
        match self.level.end {
            Some((x, y)) => within(x, MAP_LIMIT) && within(y, MAP_LIMIT),
            None => true,
        }
    }

    /// Whether the game can be drawn.
    pub fn is_drawable(&self) -> (r: bool)
        ensures
            r == self.drawable(),
    {
        let n_cells = self.bg_map.cells.len();
        let area_ok = match self.bg_map.width.checked_mul(self.bg_map.height) {
            Some(n) => n == n_cells,
            None => false,
        };
        area_ok && 0 < self.bg_map.width && self.bg_map.width < 0x1000_0000 && 0 < self.bg_map.height
            && self.bg_map.height < 0x1000_0000 && within(self.camera.x, 0x1000_0000) && within(self.camera.y, 0x1000_0000)
            && self.fixtures_on_map()
    }

    /// Whether the game can take a step: settled, with everything that moves
    /// inside the simulation's limits and the counters far from overflowing.
    #[verifier::rlimit(40)]
    pub fn within_limits(&self) -> (r: bool)
        ensures
            r == self.fits(),
    {
        if !self.is_settled() {
            return false;
        }
        let m = &self.mario;
        if !(within(m.x, POSITION_LIMIT) && within(m.y, POSITION_LIMIT) && within(m.vx, VELOCITY_LIMIT)
            && within(m.vy, VELOCITY_LIMIT) && within(m.rise_frames, VELOCITY_LIMIT) && m.invuln < u32::MAX
            && m.invincible < u32::MAX) {
            return false;
        }
        if !(self.enemies.len() <= COUNT_LIMIT && self.items.len() <= COUNT_LIMIT && self.coins.len()
            <= COUNT_LIMIT && self.blocks.len() <= COUNT_LIMIT && self.superballs.len() <= 2) {
            return false;
        }
        if !(self.score <= COUNTER_LIMIT && self.lives <= COUNTER_LIMIT && self.deaths <= COUNTER_LIMIT
            && self.coins_collected <= COUNTER_LIMIT) {
            return false;
        }
        let mut i: usize = 0;
        while i < self.enemies.len()
            invariant
                i <= self.enemies@.len(),
                forall|j: int| 0 <= j < i ==> (#[trigger] self.enemies@[j]).in_bounds(),
            decreases self.enemies@.len() - i,
        {
            let e = self.enemies[i];
            if !(within(e.x, POSITION_LIMIT) && within(e.y, POSITION_LIMIT) && within(e.vx, VELOCITY_LIMIT)
                && within(e.vy, VELOCITY_LIMIT) && e.phase < u32::MAX) {
                return false;
            }
            i = i + 1;
        }
        let mut i: usize = 0;
        while i < self.items.len()
            invariant
                i <= self.items@.len(),
                forall|j: int| 0 <= j < i ==> (#[trigger] self.items@[j]).in_bounds(),
            decreases self.items@.len() - i,
        {
            let it = self.items[i];
            if !(within(it.x, POSITION_LIMIT) && within(it.y, POSITION_LIMIT) && within(it.vx, VELOCITY_LIMIT)
                && within(it.vy, VELOCITY_LIMIT)) {
                return false;
            }
            i = i + 1;
        }
        let mut i: usize = 0;
        while i < self.superballs.len()
            invariant
                i <= self.superballs@.len(),
                forall|j: int| 0 <= j < i ==> (#[trigger] self.superballs@[j]).in_bounds(),
            decreases self.superballs@.len() - i,
        {
            let b = self.superballs[i];
            if !(within(b.x, POSITION_LIMIT) && within(b.y, POSITION_LIMIT) && within(b.vx, VELOCITY_LIMIT)
                && within(b.vy, VELOCITY_LIMIT)) {
                return false;
            }
            i = i + 1;
        }
        true
    }
}

/// Whether every `(x, y, _)` of `v` is on the map.
fn all_on_map<K: Copy>(v: &Vec<(i32, i32, K)>) -> (r: bool)
    ensures
        r == forall|i: int| 0 <= i < v@.len() ==> on_map(#[trigger] v@[i].0, v@[i].1),
{
    let mut i: usize = 0;
    while i < v.len()
        invariant
            i <= v@.len(),
            forall|j: int| 0 <= j < i ==> on_map(#[trigger] v@[j].0, v@[j].1),
        decreases v@.len() - i,
    {
        let (x, y, _) = v[i];
        if !(within(x, MAP_LIMIT) && within(y, MAP_LIMIT)) {
            return false;
        }
        i = i + 1;
    }
    true
}

/// Whether a level can be played: see [`super::playable`].
pub fn is_playable(level: &Level) -> (r: bool)
    ensures
        r == super::playable(*level),
{
    let s = &level.solids;
    let area_ok = match s.width.checked_mul(s.height) {
        Some(n) => n == s.cells.len() && n == s.platforms.len(),
        None => false,
    };
    if !(area_ok && s.width < 0x0100_0000 && s.height < 0x0100_0000) {
        return false;
    }
    if !(within(level.spawn.0, MAP_LIMIT) && within(level.spawn.1, MAP_LIMIT)) {
        return false;
    }
    if level.enemy_spawns.len() > COUNT_LIMIT || level.coins.len() > COUNT_LIMIT || level.blocks.len() > COUNT_LIMIT
        || level.items.len() > COUNT_LIMIT {
        return false;
    }
    if !all_on_map(&level.enemy_spawns) || !all_on_map(&level.blocks) || !all_on_map(&level.items) {
        return false;
    }
    let mut i: usize = 0;
    while i < level.coins.len()
        invariant
            i <= level.coins@.len(),
            forall|j: int| 0 <= j < i ==> on_map(#[trigger] level.coins@[j].0, level.coins@[j].1),
        decreases level.coins@.len() - i,
    {
        let (x, y) = level.coins[i];
        if !(within(x, MAP_LIMIT) && within(y, MAP_LIMIT)) {
            return false;
        }
        i = i + 1;
    }
    match level.end {
        Some((x, y)) => within(x, MAP_LIMIT) && within(y, MAP_LIMIT),
        None => true,
    }
}

} // verus!
