//! What a frame looks like: the background, then every sprite over it in a
//! fixed order, then the status numbers. A later layer covers an earlier one.
use super::{on_map, Game};
use crate::engine::block::{Block, BlockKind};
use crate::engine::enemy::Enemy;
use crate::engine::entity::size_of_power;
use crate::engine::powerup::{Item, ItemKind};
use crate::engine::superball::Superball;
use crate::font::{draw_number, lemma_digit_count, number_inks};
use crate::render::{background_shade, on_screen, palette_shade, render_background, Framebuffer, Shade};
use crate::text::digits;
use crate::tiles::Tile;
use vstd::prelude::*;

verus! {

/// One thing drawn over the frame.
pub enum Layer {
    /// An 8x8 tile with its top-left corner at `(x, y)` on screen.
    Sprite { tile: Tile, x: int, y: int },
    /// A number in the small digit font, starting at `(x, y)`, in black.
    Number { digits: Seq<nat>, x: int, y: int },
}

/// The shade a layer puts at screen pixel `(x, y)`, if it covers it.
pub open spec fn paint(l: Layer, bgp: u8, x: int, y: int) -> Option<Shade> {
    match l {
        Layer::Sprite { tile, x: ox, y: oy } => if ox <= x < ox + 8 && oy <= y < oy + 8 {
            Some(palette_shade(bgp, tile.pixels[y - oy][x - ox]))
        } else {
            None
        },
        Layer::Number { digits, x: nx, y: ny } => if number_inks(digits, nx, ny, x, y) {
            Some(Shade::Black)
        } else {
            None
        },
    }
}

/// The shade at `(x, y)` once the layers are drawn in order over `under`.
pub open spec fn layered(ls: Seq<Layer>, bgp: u8, under: Shade, x: int, y: int) -> Shade
    decreases ls.len(),
{
    if ls.len() == 0 {
        under
    } else {
        match paint(ls.last(), bgp, x, y) {
            Some(s) => s,
            None => layered(ls.drop_last(), bgp, under, x, y),
        }
    }
}

/// A camera-relative sprite.
pub open spec fn sprite_at(tile: Tile, x: int, y: int, cx: int, cy: int) -> Layer {
    Layer::Sprite { tile, x: x - cx, y: y - cy }
}

impl Game {
    /// The tile a block is drawn with: spent, unused question or power
    /// block, or brick.
    pub open spec fn block_tile(&self, b: Block) -> Tile {
        if b.used {
            self.used_tile
        } else if b.kind == BlockKind::Brick {
            self.brick_tile
        } else {
            self.question_tile
        }
    }

    /// The tile an item is drawn with.
    pub open spec fn item_tile(&self, it: Item) -> Tile {
        match it.kind {
            ItemKind::Mushroom => self.mushroom_tile,
            ItemKind::Star => self.star_tile,
            ItemKind::Flower => self.flower_tile,
        }
    }

    /// Mario is drawn this frame: always, except that while invulnerable or
    /// invincible he blinks, four frames on and four off.
    pub open spec fn mario_shown(&self) -> bool {
        let flicker = if self.mario.invuln >= self.mario.invincible { self.mario.invuln } else { self.mario.invincible };
        flicker == 0 || (flicker / 4) % 2 == 0
    }

    /// The sprites, back to front: the level end, the blocks, the coins, the
    /// items, the superballs, the live enemies, and Mario (two tiles tall).
    pub open spec fn sprite_layers(&self) -> Seq<Layer> {
        let cx = self.camera.x as int;
        let cy = self.camera.y as int;
        let end = match self.level.end {
            Some(e) => seq![sprite_at(self.end_tile, e.0 as int, e.1 as int, cx, cy)],
            None => seq![],
        };
        let blocks = self.blocks@.map_values(|b: Block| sprite_at(self.block_tile(b), b.x as int, b.y as int, cx, cy));
        let coins = self.coins@.map_values(|c: (i32, i32)| sprite_at(self.coin_tile, c.0 as int, c.1 as int, cx, cy));
        let items = self.items@.map_values(|it: Item| sprite_at(self.item_tile(it), it.px(), it.py(), cx, cy));
        let balls = self.superballs@.map_values(|b: Superball| sprite_at(self.superball_tile, b.px(), b.py(), cx, cy));
        let enemies = self.enemies@.filter(|e: Enemy| e.alive).map_values(
            |e: Enemy| sprite_at(self.enemy_tile, e.px(), e.py(), cx, cy),
        );
        let mario = if self.mario_shown() {
            seq![
                sprite_at(self.mario_tile, self.mario.px(), self.mario.py(), cx, cy),
                sprite_at(self.mario_tile, self.mario.px(), self.mario.py() + 8, cx, cy),
            ]
        } else {
            seq![]
        };
        end + blocks + coins + items + balls + enemies + mario
    }

    /// The status line along the top: a coin icon and the coin count, a
    /// Mario icon and the lives, the score, and the timer.
    pub open spec fn hud_layers(&self) -> Seq<Layer> {
        seq![
            Layer::Sprite { tile: self.coin_tile, x: 2, y: 1 },
            Layer::Number { digits: digits(self.coins_collected as nat), x: 11, y: 2 },
            Layer::Sprite { tile: self.mario_tile, x: 40, y: 1 },
            Layer::Number { digits: digits(self.lives as nat), x: 49, y: 2 },
            Layer::Number { digits: digits(self.score as nat), x: 78, y: 2 },
            Layer::Number { digits: digits(self.timer as nat), x: 135, y: 2 },
        ]
    }

    /// The background shade at screen pixel `(x, y)`: the level's tiles
    /// scrolled by the camera, a blank tile where a tile index has no tile.
    pub open spec fn backdrop(&self, x: int, y: int) -> Shade {
        background_shade(self.bg_map, self.bg_tiles@, self.camera.x as int, self.camera.y as int, self.palette.bgp, x, y)
    }

    /// The frame's shade at screen pixel `(x, y)`.
    pub open spec fn picture(&self, x: int, y: int) -> Shade {
        layered(self.sprite_layers() + self.hud_layers(), self.palette.bgp, self.backdrop(x, y), x, y)
    }

    /// A game that can be drawn: a background map at least a tile on each
    /// side whose pixel size is an `i32`, a camera and fixed sprites placed
    /// so that their screen offsets are `i32`s.
    pub open spec fn drawable(&self) -> bool {
        &&& self.bg_map.wf()
        &&& 0 < self.bg_map.width < 0x1000_0000
        &&& 0 < self.bg_map.height < 0x1000_0000
        &&& -0x1000_0000 <= self.camera.x <= 0x1000_0000
        &&& -0x1000_0000 <= self.camera.y <= 0x1000_0000
        &&& forall|i: int| 0 <= i < self.coins@.len() ==> on_map(#[trigger] self.coins@[i].0, self.coins@[i].1)
        &&& forall|i: int| 0 <= i < self.blocks@.len() ==> on_map(#[trigger] self.blocks@[i].x, self.blocks@[i].y)
        &&& match self.level.end {
            Some(e) => on_map(e.0, e.1),
            None => true,
        }
    }
}

/// Each block is drawn, in list order right after the level end, as one tile
/// at its place on screen: the used-block tile once it is spent, the
/// question tile while a question or power block is unspent, and the brick
/// tile for an unspent brick.
pub proof fn law_blocks_drawn_by_state(g: Game, i: int)
    requires
        0 <= i < g.blocks@.len(),
    ensures
        ({
            let b = g.blocks@[i];
            let k = (if g.level.end is Some { 1int } else { 0int }) + i;
            let tile = if b.used {
                g.used_tile
            } else if b.kind == BlockKind::Brick {
                g.brick_tile
            } else {
                g.question_tile
            };
            g.sprite_layers()[k] == Layer::Sprite { tile, x: b.x - g.camera.x, y: b.y - g.camera.y }
        }),
{
}

/// Drawing one more layer.
pub proof fn lemma_layered_push(ls: Seq<Layer>, l: Layer, bgp: u8, under: Shade, x: int, y: int)
    ensures
        layered(ls.push(l), bgp, under, x, y) == (match paint(l, bgp, x, y) {
            Some(s) => s,
            None => layered(ls, bgp, under, x, y),
        }),
{
    assert(ls.push(l).drop_last() =~= ls);
}

/// The framebuffer shows the game's backdrop with the layers `done` drawn
/// over it.
pub open spec fn shows(fb: Framebuffer, game: Game, done: Seq<Layer>) -> bool {
    &&& fb.wf()
    &&& forall|x: int, y: int| on_screen(x, y) ==> #[trigger] fb.at(x, y) == layered(done, game.palette.bgp, game.backdrop(x, y), x, y)
}

/// Draw one sprite layer.
fn draw_sprite(game: &Game, fb: &mut Framebuffer, tile: &Tile, ox: i32, oy: i32, done: Ghost<Seq<Layer>>)
    requires
        shows(*old(fb), *game, done@),
        -0x4000_0000 <= ox <= 0x4000_0000,
        -0x4000_0000 <= oy <= 0x4000_0000,
    ensures
        shows(*final(fb), *game, done@.push(Layer::Sprite { tile: *tile, x: ox as int, y: oy as int })),
{
    fb.draw_tile(tile, ox, oy, &game.palette);
    proof {
        let l = Layer::Sprite { tile: *tile, x: ox as int, y: oy as int };
        assert forall|x: int, y: int| on_screen(x, y) implies #[trigger] fb.at(x, y) == layered(done@.push(l), game.palette.bgp, game.backdrop(x, y), x, y) by {
            lemma_layered_push(done@, l, game.palette.bgp, game.backdrop(x, y), x, y);
        }
    }
}

/// Draw one number layer.
fn draw_figure(game: &Game, fb: &mut Framebuffer, x: i32, y: i32, value: u32, done: Ghost<Seq<Layer>>)
    requires
        shows(*old(fb), *game, done@),
        -0x3fff_0000 <= x <= 0x3fff_0000,
        -0x4000_0000 <= y <= 0x4000_0000,
    ensures
        shows(*final(fb), *game, done@.push(Layer::Number { digits: digits(value as nat), x: x as int, y: y as int })),
{
    proof {
        lemma_digit_count(value as nat);
    }
    draw_number(fb, x, y, value, Shade::Black);
    proof {
        let l = Layer::Number { digits: digits(value as nat), x: x as int, y: y as int };
        assert forall|px: int, py: int| on_screen(px, py) implies #[trigger] fb.at(px, py) == layered(done@.push(l), game.palette.bgp, game.backdrop(px, py), px, py) by {
            lemma_layered_push(done@, l, game.palette.bgp, game.backdrop(px, py), px, py);
        }
    }
}

impl Game {
    /// Draw the blocks over `done`.
    fn draw_blocks(&self, fb: &mut Framebuffer, done: Ghost<Seq<Layer>>)
        requires
            shows(*old(fb), *self, done@),
            self.drawable(),
        ensures
            shows(*final(fb), *self, done@ + self.blocks@.map_values(
                |b: Block| sprite_at(self.block_tile(b), b.x as int, b.y as int, self.camera.x as int, self.camera.y as int),
            )),
    {
        let ghost f = |b: Block| sprite_at(self.block_tile(b), b.x as int, b.y as int, self.camera.x as int, self.camera.y as int);
        let mut i: usize = 0;
        while i < self.blocks.len()
            invariant
                i <= self.blocks@.len(),
                self.drawable(),
                f == (|b: Block| sprite_at(self.block_tile(b), b.x as int, b.y as int, self.camera.x as int, self.camera.y as int)),
                shows(*fb, *self, done@ + self.blocks@.take(i as int).map_values(f)),
            decreases self.blocks@.len() - i,
        {
            let b = self.blocks[i];
            assert(super::on_map(self.blocks@[i as int].x, self.blocks@[i as int].y));
            let tile = if b.used {
                &self.used_tile
            } else if b.kind == BlockKind::Brick {
                &self.brick_tile
            } else {
                &self.question_tile
            };
            let ghost so_far = done@ + self.blocks@.take(i as int).map_values(f);
            draw_sprite(self, fb, tile, b.x - self.camera.x, b.y - self.camera.y, Ghost(so_far));
            proof {
                assert(so_far.push(f(b)) =~= done@ + self.blocks@.take(i + 1).map_values(f));
            }
            i = i + 1;
        }
        proof {
            assert(self.blocks@.take(i as int) =~= self.blocks@);
        }
    }

    /// Draw the coins over `done`.
    fn draw_coins(&self, fb: &mut Framebuffer, done: Ghost<Seq<Layer>>)
        requires
            shows(*old(fb), *self, done@),
            self.drawable(),
        ensures
            shows(*final(fb), *self, done@ + self.coins@.map_values(
                |c: (i32, i32)| sprite_at(self.coin_tile, c.0 as int, c.1 as int, self.camera.x as int, self.camera.y as int),
            )),
    {
        let ghost f = |c: (i32, i32)| sprite_at(self.coin_tile, c.0 as int, c.1 as int, self.camera.x as int, self.camera.y as int);
        let mut i: usize = 0;
        while i < self.coins.len()
            invariant
                i <= self.coins@.len(),
                self.drawable(),
                f == (|c: (i32, i32)| sprite_at(self.coin_tile, c.0 as int, c.1 as int, self.camera.x as int, self.camera.y as int)),
                shows(*fb, *self, done@ + self.coins@.take(i as int).map_values(f)),
            decreases self.coins@.len() - i,
        {
            let c = self.coins[i];
            assert(super::on_map(self.coins@[i as int].0, self.coins@[i as int].1));
            let ghost so_far = done@ + self.coins@.take(i as int).map_values(f);
            draw_sprite(self, fb, &self.coin_tile, c.0 - self.camera.x, c.1 - self.camera.y, Ghost(so_far));
            proof {
                assert(so_far.push(f(c)) =~= done@ + self.coins@.take(i + 1).map_values(f));
            }
            i = i + 1;
        }
        proof {
            assert(self.coins@.take(i as int) =~= self.coins@);
        }
    }

    /// Draw the items over `done`.
    fn draw_items(&self, fb: &mut Framebuffer, done: Ghost<Seq<Layer>>)
        requires
            shows(*old(fb), *self, done@),
            self.drawable(),
        ensures
            shows(*final(fb), *self, done@ + self.items@.map_values(
                |it: Item| sprite_at(self.item_tile(it), it.px(), it.py(), self.camera.x as int, self.camera.y as int),
            )),
    {
        let ghost f = |it: Item| sprite_at(self.item_tile(it), it.px(), it.py(), self.camera.x as int, self.camera.y as int);
        let mut i: usize = 0;
        while i < self.items.len()
            invariant
                i <= self.items@.len(),
                self.drawable(),
                f == (|it: Item| sprite_at(self.item_tile(it), it.px(), it.py(), self.camera.x as int, self.camera.y as int)),
                shows(*fb, *self, done@ + self.items@.take(i as int).map_values(f)),
            decreases self.items@.len() - i,
        {
            let it = self.items[i];
            let tile = match it.kind {
                ItemKind::Mushroom => &self.mushroom_tile,
                ItemKind::Star => &self.star_tile,
                ItemKind::Flower => &self.flower_tile,
            };
            let ghost so_far = done@ + self.items@.take(i as int).map_values(f);
            draw_sprite(self, fb, tile, it.pixel_x() - self.camera.x, it.pixel_y() - self.camera.y, Ghost(so_far));
            proof {
                assert(so_far.push(f(it)) =~= done@ + self.items@.take(i + 1).map_values(f));
            }
            i = i + 1;
        }
        proof {
            assert(self.items@.take(i as int) =~= self.items@);
        }
    }

    /// Draw the superballs over `done`.
    fn draw_balls(&self, fb: &mut Framebuffer, done: Ghost<Seq<Layer>>)
        requires
            shows(*old(fb), *self, done@),
            self.drawable(),
        ensures
            shows(*final(fb), *self, done@ + self.superballs@.map_values(
                |b: Superball| sprite_at(self.superball_tile, b.px(), b.py(), self.camera.x as int, self.camera.y as int),
            )),
    {
        let ghost f = |b: Superball| sprite_at(self.superball_tile, b.px(), b.py(), self.camera.x as int, self.camera.y as int);
        let mut i: usize = 0;
        while i < self.superballs.len()
            invariant
                i <= self.superballs@.len(),
                self.drawable(),
                f == (|b: Superball| sprite_at(self.superball_tile, b.px(), b.py(), self.camera.x as int, self.camera.y as int)),
                shows(*fb, *self, done@ + self.superballs@.take(i as int).map_values(f)),
            decreases self.superballs@.len() - i,
        {
            let b = self.superballs[i];
            let ghost so_far = done@ + self.superballs@.take(i as int).map_values(f);
            draw_sprite(self, fb, &self.superball_tile, b.pixel_x() - self.camera.x, b.pixel_y() - self.camera.y, Ghost(so_far));
            proof {
                assert(so_far.push(f(b)) =~= done@ + self.superballs@.take(i + 1).map_values(f));
            }
            i = i + 1;
        }
        proof {
            assert(self.superballs@.take(i as int) =~= self.superballs@);
        }
    }

    /// Draw the live enemies over `done`.
    fn draw_enemies(&self, fb: &mut Framebuffer, done: Ghost<Seq<Layer>>)
        requires
            shows(*old(fb), *self, done@),
            self.drawable(),
        ensures
            shows(*final(fb), *self, done@ + self.enemies@.filter(|e: Enemy| e.alive).map_values(
                |e: Enemy| sprite_at(self.enemy_tile, e.px(), e.py(), self.camera.x as int, self.camera.y as int),
            )),
    {
        let ghost f = |e: Enemy| sprite_at(self.enemy_tile, e.px(), e.py(), self.camera.x as int, self.camera.y as int);
        let ghost alive = |e: Enemy| e.alive;
        let mut i: usize = 0;
        while i < self.enemies.len()
            invariant
                i <= self.enemies@.len(),
                self.drawable(),
                f == (|e: Enemy| sprite_at(self.enemy_tile, e.px(), e.py(), self.camera.x as int, self.camera.y as int)),
                alive == (|e: Enemy| e.alive),
                shows(*fb, *self, done@ + self.enemies@.take(i as int).filter(alive).map_values(f)),
            decreases self.enemies@.len() - i,
        {
            let e = self.enemies[i];
            proof {
                assert(self.enemies@.take(i + 1) == self.enemies@.take(i as int).push(e));
                self.enemies@.take(i as int).lemma_filter_push(e, alive);
            }
            let ghost so_far = done@ + self.enemies@.take(i as int).filter(alive).map_values(f);
            if e.alive {
                draw_sprite(self, fb, &self.enemy_tile, e.pixel_x() - self.camera.x, e.pixel_y() - self.camera.y, Ghost(so_far));
                proof {
                    assert(so_far.push(f(e)) =~= done@ + self.enemies@.take(i + 1).filter(alive).map_values(f));
                }
            } else {
                proof {
                    assert(so_far =~= done@ + self.enemies@.take(i + 1).filter(alive).map_values(f));
                }
            }
            i = i + 1;
        }
        proof {
            assert(self.enemies@.take(i as int) =~= self.enemies@);
        }
    }
}

impl Game {
    /// Render the current frame: the background scrolled by the camera, the
    /// sprites in order over it, and the status line on top.
    #[verifier::rlimit(40)]
    pub fn render(&self) -> (fb: Framebuffer)
        requires
            self.drawable(),
        ensures
            fb.wf(),
            forall|x: int, y: int| on_screen(x, y) ==> #[trigger] fb.at(x, y) == self.picture(x, y),
    {
        let cx = self.camera.x;
        let cy = self.camera.y;
        let mut fb = Framebuffer::new();
        render_background(&mut fb, &self.bg_map, &self.bg_tiles, cx, cy, &self.palette);
        let ghost layers = self.sprite_layers();
        let ghost end: Seq<Layer> = match self.level.end {
            Some(e) => seq![sprite_at(self.end_tile, e.0 as int, e.1 as int, cx as int, cy as int)],
            None => seq![],
        };
        let ghost nothing: Seq<Layer> = Seq::empty();
        assert(shows(fb, *self, nothing));
        if let Some((ex, ey)) = self.level.end {
            draw_sprite(self, &mut fb, &self.end_tile, ex - cx, ey - cy, Ghost(nothing));
            assert(nothing.push(Layer::Sprite { tile: self.end_tile, x: (ex - cx) as int, y: (ey - cy) as int }) =~= end);
        }
        self.draw_blocks(&mut fb, Ghost(end));
        let ghost d1 = end + self.blocks@.map_values(|b: Block| sprite_at(self.block_tile(b), b.x as int, b.y as int, cx as int, cy as int));
        self.draw_coins(&mut fb, Ghost(d1));
        let ghost d2 = d1 + self.coins@.map_values(|c: (i32, i32)| sprite_at(self.coin_tile, c.0 as int, c.1 as int, cx as int, cy as int));
        self.draw_items(&mut fb, Ghost(d2));
        let ghost d3 = d2 + self.items@.map_values(|it: Item| sprite_at(self.item_tile(it), it.px(), it.py(), cx as int, cy as int));
        self.draw_balls(&mut fb, Ghost(d3));
        let ghost d4 = d3 + self.superballs@.map_values(|b: Superball| sprite_at(self.superball_tile, b.px(), b.py(), cx as int, cy as int));
        self.draw_enemies(&mut fb, Ghost(d4));
        let ghost d5 = d4 + self.enemies@.filter(|e: Enemy| e.alive).map_values(
            |e: Enemy| sprite_at(self.enemy_tile, e.px(), e.py(), cx as int, cy as int),
        );
        // Flicker Mario while invulnerable. Big Mario is two tiles tall.
        let flicker = if self.mario.invuln >= self.mario.invincible { self.mario.invuln } else { self.mario.invincible };
        let ghost d6 = d5;
        if flicker == 0 || (flicker / 4) % 2 == 0 {
            let mx = self.mario.pixel_x() - cx;
            let my = self.mario.pixel_y() - cy;
            draw_sprite(self, &mut fb, &self.mario_tile, mx, my, Ghost(d5));
            draw_sprite(self, &mut fb, &self.mario_tile, mx, my + 8, Ghost(d5.push(Layer::Sprite { tile: self.mario_tile, x: mx as int, y: my as int })));
            proof {
                d6 = d5.push(Layer::Sprite { tile: self.mario_tile, x: mx as int, y: my as int }).push(
                    Layer::Sprite { tile: self.mario_tile, x: mx as int, y: (my + 8) as int },
                );
            }
        }
        assert(d6 =~= layers);
        draw_sprite(self, &mut fb, &self.coin_tile, 2, 1, Ghost(layers));
        let ghost h1 = layers.push(Layer::Sprite { tile: self.coin_tile, x: 2, y: 1 });
        draw_figure(self, &mut fb, 11, 2, self.coins_collected, Ghost(h1));
        let ghost h2 = h1.push(Layer::Number { digits: digits(self.coins_collected as nat), x: 11, y: 2 });
        draw_sprite(self, &mut fb, &self.mario_tile, 40, 1, Ghost(h2));
        let ghost h3 = h2.push(Layer::Sprite { tile: self.mario_tile, x: 40, y: 1 });
        draw_figure(self, &mut fb, 49, 2, self.lives, Ghost(h3));
        let ghost h4 = h3.push(Layer::Number { digits: digits(self.lives as nat), x: 49, y: 2 });
        draw_figure(self, &mut fb, 78, 2, self.score, Ghost(h4));
        let ghost h5 = h4.push(Layer::Number { digits: digits(self.score as nat), x: 78, y: 2 });
        draw_figure(self, &mut fb, 135, 2, self.timer, Ghost(h5));
        let ghost h6 = h5.push(Layer::Number { digits: digits(self.timer as nat), x: 135, y: 2 });
        assert(h6 =~= self.sprite_layers() + self.hud_layers());
        fb
    }
}

} // verus!
