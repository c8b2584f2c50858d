//! Rendering: turn a game state into pixels.
//!
//! The Game Boy screen is 160x144 with four shades of gray. This module owns a
//! [`Framebuffer`] of that size plus the pieces that fill it: a [`Palette`]
//! that maps tile color indices to shades, and background rendering from a
//! [`TileMap`] of tile indices. Rendering only reads game state.
use crate::math::rem_floor;
use crate::tiles::Tile;
use crate::{SCREEN_HEIGHT, SCREEN_WIDTH};
use vstd::prelude::*;

verus! {

/// One of the Game Boy's four display shades, lightest to darkest.
#[derive(Debug, Clone, Copy, PartialEq, Eq, Structural)]
pub enum Shade {
    White,
    Light,
    Dark,
    Black,
}

/// The shade a 2-bit value names (0 lightest, 3 darkest); higher bits are ignored.
pub open spec fn shade_of_u2(v: u8) -> Shade {
    let low = v % 4;
    if low == 0 {
        Shade::White
    } else if low == 1 {
        Shade::Light
    } else if low == 2 {
        Shade::Dark
    } else {
        Shade::Black
    }
}

/// 8-bit grayscale for a shade.
pub open spec fn gray_of(s: Shade) -> u8 {
    match s {
        Shade::White => 255,
        Shade::Light => 170,
        Shade::Dark => 85,
        Shade::Black => 0,
    }
}

impl Shade {
    /// Build a shade from a 2-bit value (0 lightest, 3 darkest).
    pub fn from_u2(v: u8) -> (r: Self)
        ensures
            r == shade_of_u2(v),
    {
        let low = v & 0b11;
        assert(low == v % 4) by (bit_vector)
            requires
                low == v & 3u8,
        ;
        if low == 0 {
            Shade::White
        } else if low == 1 {
            Shade::Light
        } else if low == 2 {
            Shade::Dark
        } else {
            Shade::Black
        }
    }

    /// 8-bit grayscale value for image output.
    pub fn to_gray(self) -> (r: u8)
        ensures
            r == gray_of(self),
    {
        match self {
            Shade::White => 255,
            Shade::Light => 170,
            Shade::Dark => 85,
            Shade::Black => 0,
        }
    }
}

impl Default for Shade {
    fn default() -> (r: Self)
        ensures
            r == Shade::White,
    {
        Shade::White
    }
}

/// A Game Boy palette: a BGP-style byte mapping the four color indices to
/// four shades, two bits per index.
#[derive(Debug, Clone, Copy, PartialEq, Eq, Structural)]
pub struct Palette {
    pub bgp: u8,
}

/// The shade palette byte `bgp` gives color index `index` (its low two bits).
pub open spec fn palette_shade(bgp: u8, index: u8) -> Shade {
    shade_of_u2((bgp >> ((index % 4) * 2) as u8) as u8)
}

impl Palette {
    pub fn new(bgp: u8) -> (r: Self)
        ensures
            r.bgp == bgp,
    {
        Palette { bgp }
    }

    /// Resolve a 0..=3 color index to its shade through this palette.
    pub fn shade(&self, index: u8) -> (r: Shade)
        ensures
            r == palette_shade(self.bgp, index),
    {
        let i = index & 0b11;
        assert(i == index % 4) by (bit_vector)
            requires
                i == index & 3u8,
        ;
        Shade::from_u2(self.bgp >> (i * 2))
    }
}

/// Pixels on the screen.
pub open spec fn screen_len() -> int {
    23040int
}

/// Where pixel (x, y) sits in the row-major buffer.
pub open spec fn screen_index(x: int, y: int) -> int {
    y * 160 + x
}

pub open spec fn on_screen(x: int, y: int) -> bool {
    0 <= x < 160 && 0 <= y < 144
}

/// A 160x144 buffer of shades. The rendering target for one frame.
#[derive(Debug, Clone)]
pub struct Framebuffer {
    pixels: Vec<Shade>,
}

impl Framebuffer {
    /// The shade at (x, y).
    pub closed spec fn at(&self, x: int, y: int) -> Shade {
        self.pixels@[screen_index(x, y)]
    }

    /// The buffer covers the whole screen.
    pub closed spec fn wf(&self) -> bool {
        self.pixels@.len() == screen_len()
    }

    /// Every pixel, row major.
    pub closed spec fn shades(&self) -> Seq<Shade> {
        self.pixels@
    }

    /// An all-white screen.
    pub fn new() -> (r: Self)
        ensures
            r.wf(),
            forall|x: int, y: int| on_screen(x, y) ==> #[trigger] r.at(x, y) == Shade::White,
    {
        let n = (SCREEN_WIDTH * SCREEN_HEIGHT) as usize;
        let mut pixels: Vec<Shade> = Vec::with_capacity(n);
        let mut i: usize = 0;
        while i < n
            invariant
                n == screen_len(),
                i <= n,
                pixels@.len() == i,
                forall|j: int| 0 <= j < i ==> #[trigger] pixels@[j] == Shade::White,
            decreases n - i,
        {
            pixels.push(Shade::White);
            i = i + 1;
        }
        let r = Framebuffer { pixels };
        assert forall|x: int, y: int| on_screen(x, y) implies #[trigger] r.at(x, y) == Shade::White by {
            lemma_screen_index(x, y);
        }
        r
    }

    pub fn get(&self, x: u32, y: u32) -> (r: Shade)
        requires
            self.wf(),
            on_screen(x as int, y as int),
        ensures
            r == self.at(x as int, y as int),
    {
        proof {
            lemma_screen_index(x as int, y as int);
        }
        self.pixels[Self::index(x, y)]
    }

    pub fn set(&mut self, x: u32, y: u32, shade: Shade)
        requires
            old(self).wf(),
            on_screen(x as int, y as int),
        ensures
            final(self).wf(),
            final(self).at(x as int, y as int) == shade,
            forall|a: int, b: int|
                on_screen(a, b) && !(a == x && b == y) ==> #[trigger] final(self).at(a, b) == old(self).at(a, b),
    {
        proof {
            lemma_screen_index(x as int, y as int);
        }
        let i = Self::index(x, y);
        self.pixels.set(i, shade);
        proof {
            assert forall|a: int, b: int|
                on_screen(a, b) && !(a == x && b == y) implies #[trigger] self.at(a, b) == old(self).at(a, b) by {
                lemma_screen_index(a, b);
                if screen_index(a, b) == screen_index(x as int, y as int) {
                    lemma_screen_index_injective(a, b, x as int, y as int);
                }
            }
        }
    }

    /// All shades as 8-bit grayscale, row major.
    pub fn to_gray(&self) -> (r: Vec<u8>)
        requires
            self.wf(),
        ensures
            r@.len() == screen_len(),
            forall|i: int| 0 <= i < screen_len() ==> #[trigger] r@[i] == gray_of(self.shades()[i]),
    {
        let mut out: Vec<u8> = Vec::new();
        let mut i: usize = 0;
        while i < self.pixels.len()
            invariant
                i <= self.pixels@.len(),
                out@.len() == i,
                forall|j: int| 0 <= j < i ==> #[trigger] out@[j] == gray_of(self.pixels@[j]),
            decreases self.pixels@.len() - i,
        {
            out.push(self.pixels[i].to_gray());
            i = i + 1;
        }
        out
    }

    /// Draw one tile with its top-left at (ox, oy). Offsets may be negative or
    /// push the tile partly offscreen: pixels outside the screen are clipped.
    /// Every index is drawn (opaque), which is what background tiles want.
    /// Any offset works whose tile's last row and column are still an `i32`.
    pub fn draw_tile(&mut self, tile: &Tile, ox: i32, oy: i32, palette: &Palette)
        requires
            old(self).wf(),
            ox <= 0x7fff_fff8,
            oy <= 0x7fff_fff8,
        ensures
            final(self).wf(),
            forall|x: int, y: int|
                on_screen(x, y) ==> #[trigger] final(self).at(x, y) == (if ox <= x < ox + 8 && oy <= y < oy + 8 {
                    palette_shade(palette.bgp, tile.pixels[y - oy][x - ox])
                } else {
                    old(self).at(x, y)
                }),
    {
        let mut ty: usize = 0;
        while ty < 8
            invariant
                self.wf(),
                ty <= 8,
                ox <= 0x7fff_fff8,
                oy <= 0x7fff_fff8,
                forall|x: int, y: int|
                    on_screen(x, y) ==> #[trigger] self.at(x, y) == (if ox <= x < ox + 8 && oy <= y < oy + ty {
                        palette_shade(palette.bgp, tile.pixels[y - oy][x - ox])
                    } else {
                        old(self).at(x, y)
                    }),
            decreases 8 - ty,
        {
            let y = oy + ty as i32;
            if y >= 0 && y < SCREEN_HEIGHT as i32 {
                let mut tx: usize = 0;
                while tx < 8
                    invariant
                        self.wf(),
                        ty < 8,
                        tx <= 8,
                        y == oy + ty,
                        0 <= y < 144,
                        ox <= 0x7fff_fff8,
                        oy <= 0x7fff_fff8,
                        forall|a: int, b: int|
                            on_screen(a, b) ==> #[trigger] self.at(a, b) == (if (ox <= a < ox + 8 && oy <= b < oy + ty)
                                || (b == y && ox <= a < ox + tx) {
                                palette_shade(palette.bgp, tile.pixels[b - oy][a - ox])
                            } else {
                                old(self).at(a, b)
                            }),
                    decreases 8 - tx,
                {
                    let x = ox + tx as i32;
                    if x >= 0 && x < SCREEN_WIDTH as i32 {
                        let shade = palette.shade(tile.pixels[ty][tx]);
                        self.set(x as u32, y as u32, shade);
                    }
                    tx = tx + 1;
                }
            }
            ty = ty + 1;
        }
    }

    fn index(x: u32, y: u32) -> (r: usize)
        requires
            on_screen(x as int, y as int),
        ensures
            r == screen_index(x as int, y as int),
    {
        (y * SCREEN_WIDTH + x) as usize
    }
}

impl Default for Framebuffer {
    fn default() -> (r: Self)
        ensures
            r.wf(),
            forall|x: int, y: int| on_screen(x, y) ==> #[trigger] r.at(x, y) == Shade::White,
    {
        Self::new()
    }
}

pub proof fn lemma_screen_index(x: int, y: int)
    requires
        on_screen(x, y),
    ensures
        0 <= screen_index(x, y) < screen_len(),
{
}

pub proof fn lemma_screen_index_injective(a: int, b: int, x: int, y: int)
    requires
        on_screen(a, b),
        on_screen(x, y),
        screen_index(a, b) == screen_index(x, y),
    ensures
        a == x && b == y,
{
}

/// A grid of tile indices, like a Game Boy background map. Each cell names a
/// tile in an accompanying tile set.
#[derive(Debug, Clone, PartialEq, Eq)]
pub struct TileMap {
    pub width: usize,
    pub height: usize,
    pub cells: Vec<u8>,
}

impl TileMap {
    /// The tile index at a cell, wrapping like the Game Boy background.
    pub open spec fn cell_at(self, tx: int, ty: int) -> u8 {
        self.cells@[(ty % self.height as int) * self.width + (tx % self.width as int)]
    }

    pub open spec fn wf(self) -> bool {
        self.cells@.len() == self.width * self.height
    }

    pub fn new(width: usize, height: usize, cells: Vec<u8>) -> (r: Self)
        requires
            cells@.len() == width * height,
        ensures
            r.wf(),
            r.width == width,
            r.height == height,
            r.cells@ == cells@,
    {
        TileMap { width, height, cells }
    }

    /// Tile index at a cell, wrapping like the Game Boy background.
    pub fn cell(&self, tx: usize, ty: usize) -> (r: u8)
        requires
            self.wf(),
            self.width > 0,
            self.height > 0,
        ensures
            r == self.cell_at(tx as int, ty as int),
    {
        let _n = self.cells.len();
        let row = ty % self.height;
        let col = tx % self.width;
        proof {
            crate::engine::level::lemma_cell_index_in_grid(
                self.width as int,
                self.height as int,
                col as int,
                row as int,
            );
        }
        self.cells[row * self.width + col]
    }
}

/// The shade background rendering gives screen pixel (sx, sy): the map is
/// sampled at (screen + scroll), wrapping over its pixel size; a missing tile
/// index draws as a blank tile, colour 0 through the palette.
pub open spec fn background_shade(
    map: TileMap,
    tiles: Seq<Tile>,
    scroll_x: int,
    scroll_y: int,
    bgp: u8,
    sx: int,
    sy: int,
) -> Shade {
    let map_w = map.width * 8;
    let map_h = map.height * 8;
    let wy = (sy + scroll_y) % map_h;
    let wx = (sx + scroll_x) % map_w;
    let idx = map.cell_at(wx / 8, wy / 8) as int;
    if idx < tiles.len() {
        palette_shade(bgp, tiles[idx].pixels[wy % 8][wx % 8])
    } else {
        palette_shade(bgp, 0)
    }
}

/// Fill the framebuffer from a background map, exactly as the Game Boy
/// scrolls its background. Missing tile indices draw as blank. Any scroll
/// works that keeps the screen's far edge an `i32`, on any map whose pixel
/// size is an `i32`.
#[verifier::rlimit(40)]
pub fn render_background(
    fb: &mut Framebuffer,
    map: &TileMap,
    tiles: &[Tile],
    scroll_x: i32,
    scroll_y: i32,
    palette: &Palette,
)
    requires
        old(fb).wf(),
        map.wf(),
        0 < map.width,
        map.width * 8 <= 0x7fff_ffff,
        0 < map.height,
        map.height * 8 <= 0x7fff_ffff,
        scroll_x <= 0x7fff_ff60,
        scroll_y <= 0x7fff_ff70,
    ensures
        final(fb).wf(),
        forall|x: int, y: int|
            on_screen(x, y) ==> #[trigger] final(fb).at(x, y) == background_shade(
                *map,
                tiles@,
                scroll_x as int,
                scroll_y as int,
                palette.bgp,
                x,
                y,
            ),
{
    let map_w = (map.width * 8) as i32;
    let map_h = (map.height * 8) as i32;
    let mut sy: i32 = 0;
    while sy < SCREEN_HEIGHT as i32
        invariant
            fb.wf(),
            map.wf(),
            0 < map.width,
        map.width * 8 <= 0x7fff_ffff,
            0 < map.height,
        map.height * 8 <= 0x7fff_ffff,
            map_w == map.width * 8,
            map_h == map.height * 8,
            scroll_x <= 0x7fff_ff60,
            scroll_y <= 0x7fff_ff70,
            0 <= sy <= 144,
            forall|x: int, y: int|
                on_screen(x, y) ==> #[trigger] fb.at(x, y) == (if y < sy {
                    background_shade(*map, tiles@, scroll_x as int, scroll_y as int, palette.bgp, x, y)
                } else {
                    old(fb).at(x, y)
                }),
        decreases 144 - sy,
    {
        let wy = rem_floor(sy + scroll_y, map_h);
        let ty = (wy / 8) as usize;
        let py = (wy % 8) as usize;
        let mut sx: i32 = 0;
        while sx < SCREEN_WIDTH as i32
            invariant
                fb.wf(),
                map.wf(),
                0 < map.width,
        map.width * 8 <= 0x7fff_ffff,
                0 < map.height,
        map.height * 8 <= 0x7fff_ffff,
                map_w == map.width * 8,
                map_h == map.height * 8,
                scroll_x <= 0x7fff_ff60,
                scroll_y <= 0x7fff_ff70,
                0 <= sy < 144,
                0 <= sx <= 160,
                wy == (sy + scroll_y) % (map_h as int),
                ty == wy / 8,
                py == wy % 8,
                forall|x: int, y: int|
                    on_screen(x, y) ==> #[trigger] fb.at(x, y) == (if y < sy || (y == sy && x < sx) {
                        background_shade(*map, tiles@, scroll_x as int, scroll_y as int, palette.bgp, x, y)
                    } else {
                        old(fb).at(x, y)
                    }),
            decreases 160 - sx,
        {
            let wx = rem_floor(sx + scroll_x, map_w);
            let tx = (wx / 8) as usize;
            let px = (wx % 8) as usize;
            let tile_index = map.cell(tx, ty) as usize;
            let colour: u8 = if tile_index < tiles.len() {
                tiles[tile_index].pixels[py][px]
            } else {
                0
            };
            let shade = palette.shade(colour);
            fb.set(sx as u32, sy as u32, shade);
            sx = sx + 1;
        }
        sy = sy + 1;
    }
}

} // verus!
