//! Power-ups: the mushroom that makes Mario big, the star, and the flower.
//!
//! An item emerges from a power block, then walks the ground like a slow
//! enemy: it moves in one direction, falls under gravity, reverses at walls,
//! and rides off ledges. Mario picks it up when he touches it.
use super::entity::{pixels, to_pixel, POSITION_LIMIT, SUBPIXEL, VELOCITY_LIMIT};
use super::level::{tile_of, Solids, TILE};
use super::physics::{GRAVITY, MAX_FALL_SPEED};
use crate::math::{div_floor, min_i, min_i32};
use vstd::prelude::*;

verus! {

/// Mushrooms are one tile square.
pub const MUSHROOM_SIZE: i32 = 8;
/// Items of every kind are one tile square.
pub const ITEM_SIZE: i32 = 8;
/// Horizontal speed in subpixels per frame.
pub const MUSHROOM_SPEED: i32 = 96;

#[derive(Debug, Clone, Copy, PartialEq, Eq, Structural)]
pub struct Mushroom {
    pub x: i32,
    pub y: i32,
    pub vx: i32,
    pub vy: i32,
    pub on_ground: bool,
}

/// What a free-standing item does when Mario picks it up.
#[derive(Debug, Clone, Copy, PartialEq, Eq, Structural)]
pub enum ItemKind {
    /// Makes small Mario big.
    Mushroom,
    /// Star invincibility.
    Star,
    /// Makes Mario fire-powered.
    Flower,
}

/// A power-up item in the level. It moves the way a mushroom does.
#[derive(Debug, Clone, Copy, PartialEq, Eq, Structural)]
pub struct Item {
    pub x: i32,
    pub y: i32,
    pub vx: i32,
    pub vy: i32,
    pub on_ground: bool,
    pub kind: ItemKind,
}

impl Mushroom {
    pub open spec fn px(self) -> int {
        to_pixel(self.x as int)
    }

    pub open spec fn py(self) -> int {
        to_pixel(self.y as int)
    }

    pub open spec fn body(self) -> (int, int, int, int) {
        (self.px(), self.py(), self.px() + 7, self.py() + 7)
    }

    pub open spec fn in_bounds(self) -> bool {
        &&& -POSITION_LIMIT <= self.x <= POSITION_LIMIT
        &&& -POSITION_LIMIT <= self.y <= POSITION_LIMIT
        &&& -VELOCITY_LIMIT <= self.vx <= VELOCITY_LIMIT
        &&& -VELOCITY_LIMIT <= self.vy <= VELOCITY_LIMIT
    }

    pub open spec fn made(pixel_x: int, pixel_y: int, going_left: bool) -> Mushroom {
        Mushroom {
            x: (pixel_x * 256) as i32,
            y: (pixel_y * 256) as i32,
            vx: if going_left { -96i32 } else { 96i32 },
            vy: 0,
            on_ground: false,
        }
    }

    pub fn new(pixel_x: i32, pixel_y: i32, going_left: bool) -> (r: Self)
        requires
            -0x0080_0000 < pixel_x < 0x0080_0000,
            -0x0080_0000 < pixel_y < 0x0080_0000,
        ensures
            r == Mushroom::made(pixel_x as int, pixel_y as int, going_left),
    {
        let speed = if going_left { -MUSHROOM_SPEED } else { MUSHROOM_SPEED };
        Mushroom { x: pixels(pixel_x), y: pixels(pixel_y), vx: speed, vy: 0, on_ground: false }
    }

    pub fn pixel_x(&self) -> (r: i32)
        ensures
            r == self.px(),
    {
        div_floor(self.x, SUBPIXEL)
    }

    pub fn pixel_y(&self) -> (r: i32)
        ensures
            r == self.py(),
    {
        div_floor(self.y, SUBPIXEL)
    }

    pub fn edges(&self) -> (r: (i32, i32, i32, i32))
        ensures
            (r.0 as int, r.1 as int, r.2 as int, r.3 as int) == self.body(),
    {
        let l = self.pixel_x();
        let t = self.pixel_y();
        (l, t, l + MUSHROOM_SIZE - 1, t + MUSHROOM_SIZE - 1)
    }
}

/// A mushroom's frame: walk, reverse at walls, fall, land.
pub open spec fn mushroom_step(m: Mushroom, solids: Solids) -> Mushroom {
    let m1 = Mushroom { x: (m.x + m.vx) as i32, ..m };
    let (l, t, r, b) = m1.body();
    let m2 = if m1.vx > 0 && solids.rect_solid(r, t, r, b) {
        Mushroom { x: ((tile_of(r) * 8 - 8) * 256) as i32, vx: -m1.vx as i32, ..m1 }
    } else if m1.vx < 0 && solids.rect_solid(l, t, l, b) {
        Mushroom { x: ((tile_of(l) * 8 + 8) * 256) as i32, vx: -m1.vx as i32, ..m1 }
    } else {
        m1
    };
    let m3 = if !m2.on_ground {
        Mushroom { vy: min_i(m2.vy + 76, 640) as i32, ..m2 }
    } else {
        m2
    };
    let m4 = Mushroom { y: (m3.y + m3.vy) as i32, ..m3 };
    let (l4, _t4, r4, b4) = m4.body();
    let m5 = if m4.vy > 0 && solids.rect_solid(l4, b4, r4, b4) {
        Mushroom { y: ((tile_of(b4) * 8 - 8) * 256) as i32, vy: 0, ..m4 }
    } else {
        m4
    };
    let (l5, _t5, r5, b5) = m5.body();
    let g = solids.rect_solid(l5, b5 + 1, r5, b5 + 1);
    Mushroom { on_ground: g, vy: if g && m5.vy > 0 { 0 } else { m5.vy }, ..m5 }
}

/// Advance a mushroom a frame: walk, reverse at walls, fall, land.
pub fn update_mushroom(m: &mut Mushroom, solids: &Solids)
    requires
        old(m).in_bounds(),
        solids.wf(),
    ensures
        *final(m) == mushroom_step(*old(m), *solids),
        -2 * POSITION_LIMIT <= final(m).x <= 2 * POSITION_LIMIT,
        -2 * POSITION_LIMIT <= final(m).y <= 2 * POSITION_LIMIT,
{
    m.x = m.x + m.vx;
    let (l, t, r, b) = m.edges();
    if m.vx > 0 && solids.rect_hits_solid(r, t, r, b) {
        let wall_left = div_floor(r, TILE) * TILE;
        m.x = pixels(wall_left - MUSHROOM_SIZE);
        m.vx = -m.vx;
    } else if m.vx < 0 && solids.rect_hits_solid(l, t, l, b) {
        let wall_right = div_floor(l, TILE) * TILE + (TILE - 1);
        m.x = pixels(wall_right + 1);
        m.vx = -m.vx;
    }
    if !m.on_ground {
        m.vy = min_i32(m.vy + GRAVITY, MAX_FALL_SPEED);
    }
    m.y = m.y + m.vy;
    let (l, _t, r, b) = m.edges();
    if m.vy > 0 && solids.rect_hits_solid(l, b, r, b) {
        let floor_top = div_floor(b, TILE) * TILE;
        m.y = pixels(floor_top - MUSHROOM_SIZE);
        m.vy = 0;
    }
    let (l, _t, r, b) = m.edges();
    m.on_ground = solids.rect_hits_solid(l, b + 1, r, b + 1);
    if m.on_ground && m.vy > 0 {
        m.vy = 0;
    }
}

impl Item {
    /// The moving body of the item, as a mushroom.
    pub open spec fn as_mushroom(self) -> Mushroom {
        Mushroom { x: self.x, y: self.y, vx: self.vx, vy: self.vy, on_ground: self.on_ground }
    }

    pub open spec fn px(self) -> int {
        to_pixel(self.x as int)
    }

    pub open spec fn py(self) -> int {
        to_pixel(self.y as int)
    }

    pub open spec fn body(self) -> (int, int, int, int) {
        (self.px(), self.py(), self.px() + 7, self.py() + 7)
    }

    pub open spec fn in_bounds(self) -> bool {
        self.as_mushroom().in_bounds()
    }

    pub open spec fn made(pixel_x: int, pixel_y: int, going_left: bool, kind: ItemKind) -> Item {
        Item {
            x: (pixel_x * 256) as i32,
            y: (pixel_y * 256) as i32,
            vx: if going_left { -96i32 } else { 96i32 },
            vy: 0,
            on_ground: false,
            kind,
        }
    }

    fn new(pixel_x: i32, pixel_y: i32, going_left: bool, kind: ItemKind) -> (r: Self)
        requires
            -0x0080_0000 < pixel_x < 0x0080_0000,
            -0x0080_0000 < pixel_y < 0x0080_0000,
        ensures
            r == Item::made(pixel_x as int, pixel_y as int, going_left, kind),
    {
        let m = Mushroom::new(pixel_x, pixel_y, going_left);
        Item { x: m.x, y: m.y, vx: m.vx, vy: m.vy, on_ground: m.on_ground, kind }
    }

    /// A mushroom item at a whole-pixel position.
    pub fn mushroom(pixel_x: i32, pixel_y: i32, going_left: bool) -> (r: Self)
        requires
            -0x0080_0000 < pixel_x < 0x0080_0000,
            -0x0080_0000 < pixel_y < 0x0080_0000,
        ensures
            r == Item::made(pixel_x as int, pixel_y as int, going_left, ItemKind::Mushroom),
    {
        Self::new(pixel_x, pixel_y, going_left, ItemKind::Mushroom)
    }

    /// A star at a whole-pixel position.
    pub fn star(pixel_x: i32, pixel_y: i32, going_left: bool) -> (r: Self)
        requires
            -0x0080_0000 < pixel_x < 0x0080_0000,
            -0x0080_0000 < pixel_y < 0x0080_0000,
        ensures
            r == Item::made(pixel_x as int, pixel_y as int, going_left, ItemKind::Star),
    {
        Self::new(pixel_x, pixel_y, going_left, ItemKind::Star)
    }

    /// A flower at a whole-pixel position.
    pub fn flower(pixel_x: i32, pixel_y: i32, going_left: bool) -> (r: Self)
        requires
            -0x0080_0000 < pixel_x < 0x0080_0000,
            -0x0080_0000 < pixel_y < 0x0080_0000,
        ensures
            r == Item::made(pixel_x as int, pixel_y as int, going_left, ItemKind::Flower),
    {
        Self::new(pixel_x, pixel_y, going_left, ItemKind::Flower)
    }

    pub fn pixel_x(&self) -> (r: i32)
        ensures
            r == self.px(),
    {
        div_floor(self.x, SUBPIXEL)
    }

    pub fn pixel_y(&self) -> (r: i32)
        ensures
            r == self.py(),
    {
        div_floor(self.y, SUBPIXEL)
    }

    pub fn edges(&self) -> (r: (i32, i32, i32, i32))
        ensures
            (r.0 as int, r.1 as int, r.2 as int, r.3 as int) == self.body(),
    {
        let l = self.pixel_x();
        let t = self.pixel_y();
        (l, t, l + ITEM_SIZE - 1, t + ITEM_SIZE - 1)
    }
}

/// An item's frame: its body moves as a mushroom's does; its kind stays.
pub open spec fn item_step(i: Item, solids: Solids) -> Item {
    let m = mushroom_step(i.as_mushroom(), solids);
    Item { x: m.x, y: m.y, vx: m.vx, vy: m.vy, on_ground: m.on_ground, kind: i.kind }
}

/// Advance an item a frame: walk, reverse at walls, fall, land.
pub fn update_item(item: &mut Item, solids: &Solids)
    requires
        old(item).in_bounds(),
        solids.wf(),
    ensures
        *final(item) == item_step(*old(item), *solids),
        -2 * POSITION_LIMIT <= final(item).x <= 2 * POSITION_LIMIT,
        -2 * POSITION_LIMIT <= final(item).y <= 2 * POSITION_LIMIT,
{
    let mut m = Mushroom { x: item.x, y: item.y, vx: item.vx, vy: item.vy, on_ground: item.on_ground };
    update_mushroom(&mut m, solids);
    item.x = m.x;
    item.y = m.y;
    item.vx = m.vx;
    item.vy = m.vy;
    item.on_ground = m.on_ground;
}

} // verus!
