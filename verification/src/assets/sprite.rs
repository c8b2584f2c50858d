//! The cartridge's sprite graphics: the half of the tile atlas the background
//! never touches.
//!
//! A level's tile data covers VRAM `0x8000` to `0x9800` and the background
//! reads from `0x8800` up. Everything below `0x9000` is the object atlas. A
//! world's tile copy overwrites ids `0xA0` through `0xDC`, where its own
//! enemies are drawn from; the rest, Mario included, is the same in all four.
//!
//! The atlas is stored as a picture 16 tiles wide, so a character frame is a
//! block of tiles, two columns by two rows, rather than a run of consecutive
//! ids.
use super::level::{tiles_for_world, world_vram};
use super::AssetError;
use crate::tiles::{decoded, tile_bytes_at, Tile};
use vstd::prelude::*;

verus! {

/// Tiles across the atlas as stored.
pub const SHEET_COLUMNS: usize = 16;
/// A character frame is two tiles by two.
pub const FRAME_TILES: usize = 2;
/// A frame's size in pixels.
pub const FRAME_SIZE: usize = 16;

/// The first id a world's own tile copy replaces in the object atlas.
pub const PER_WORLD_FIRST: u8 = 0xA0;
/// The last id a world's own tile copy replaces.
pub const PER_WORLD_LAST: u8 = 0xDC;

/// Whether tile `id` is one a world replaces with its own enemies' tiles.
pub fn per_world(id: u8) -> (r: bool)
    ensures
        r == (PER_WORLD_FIRST <= id <= PER_WORLD_LAST),
{
    PER_WORLD_FIRST <= id && id <= PER_WORLD_LAST
}

/// Every tile of the object atlas as `world` loads it, by id: the first 256
/// tiles of the world's video RAM tile data.
pub fn sprite_sheet(rom: &[u8], world: usize) -> (r: Result<Vec<Tile>, AssetError>)
    ensures
        match r {
            Ok(v) => 0x9832 <= rom@.len() && v@.len() == 256 && forall|id: int| 0 <= id < 256 ==> decoded(
                #[trigger] world_vram(rom@, world).subrange(16 * id, 16 * id + 16),
                v@[id],
            ),
            Err(e) => rom@.len() < 0x9832 && (e matches AssetError::OutOfRange { end, len } && end == 0x9832 && len == rom@.len()),
        },
{
    let vram = match tiles_for_world(rom, world) {
        Ok(v) => v,
        Err(e) => {
            return Err(e);
        },
    };
    assert(vram@.len() == 0x1800);
    let mut out: Vec<Tile> = Vec::new();
    let mut id: usize = 0;
    while id < 256
        invariant
            id <= 256,
            vram@.len() == 0x1800,
            vram@ == world_vram(rom@, world),
            out@.len() == id,
            forall|j: int| 0 <= j < id ==> decoded(#[trigger] vram@.subrange(16 * j, 16 * j + 16), out@[j]),
        decreases 256 - id,
    {
        let raw = tile_bytes_at(vram.as_slice(), id * 16);
        out.push(Tile::decode(&raw));
        id = id + 1;
    }
    Ok(out)
}

/// Which of Mario's two sizes a frame belongs to. Small Mario's frames are the
/// atlas's first two rows and big Mario's are the next two.
#[derive(Debug, Clone, Copy, PartialEq, Eq, Structural)]
pub enum Size {
    Small,
    Big,
}

/// Blocks across one row of a size.
pub const BLOCKS: usize = 8;
/// The blocks a walk cycles through, in order; the still pose is the first.
pub const WALK_BLOCKS: [usize; 3] = [0, 1, 2];
/// The block Mario is drawn in while he is off the ground.
pub const JUMP_BLOCK: usize = 4;
/// The pose for changing direction at speed.
pub const SKID_BLOCK: usize = 5;
/// How long a walking block is held, in frames, whatever his speed.
pub const WALK_HOLD: u32 = 4;

/// The atlas id of the top left tile of a frame.
pub open spec fn frame_top(size: Size, block: int) -> int {
    (match size {
        Size::Small => 0int,
        Size::Big => 2int,
    }) * 16 + (block % 8) * 2
}

/// The four ids of a frame: top left, top right, bottom left, bottom right.
pub open spec fn frame_ids(size: Size, block: int) -> Seq<u8> {
    let t = frame_top(size, block);
    seq![t as u8, (t + 1) as u8, (t + 16) as u8, (t + 17) as u8]
}

/// The tile ids of one of Mario's frames, in reading order: top left, top
/// right, bottom left, bottom right.
pub fn mario_frame(size: Size, block: usize) -> (r: [u8; 4])
    ensures
        r@ == frame_ids(size, block as int),
        frame_top(size, block as int) + 17 < 64,
{
    let row: usize = match size {
        Size::Small => 0,
        Size::Big => 2,
    };
    let column = (block % BLOCKS) * FRAME_TILES;
    let top = row * SHEET_COLUMNS + column;
    let r = [top as u8, (top + 1) as u8, (top + SHEET_COLUMNS) as u8, (top + SHEET_COLUMNS + 1) as u8];
    assert(r@ =~= frame_ids(size, block as int));
    r
}

/// The pixel at `(x, y)` of a frame drawn from `sheet`.
pub open spec fn frame_pixel(sheet: Seq<Tile>, size: Size, block: int, x: int, y: int) -> u8 {
    let id = frame_ids(size, block)[(y / 8) * 2 + x / 8];
    sheet[id as int].pixels[y % 8][x % 8]
}

/// The pixels of one of Mario's frames, 16 by 16, as palette indices with 0
/// meaning transparent.
pub fn mario_pixels(sheet: &[Tile], size: Size, block: usize) -> (r: [[u8; 16]; 16])
    requires
        frame_top(size, block as int) + 17 < sheet@.len(),
    ensures
        forall|y: int, x: int| 0 <= y < 16 && 0 <= x < 16 ==> #[trigger] r[y][x] == frame_pixel(sheet@, size, block as int, x, y),
{
    let ids = mario_frame(size, block);
    let mut out = [[0u8; 16]; 16];
    let mut y: usize = 0;
    while y < 16
        invariant
            y <= 16,
            ids@ == frame_ids(size, block as int),
            frame_top(size, block as int) + 17 < sheet@.len(),
            forall|yy: int, x: int| 0 <= yy < y && 0 <= x < 16 ==> #[trigger] out[yy][x] == frame_pixel(sheet@, size, block as int, x, yy),
        decreases 16 - y,
    {
        let mut row = [0u8; 16];
        let mut x: usize = 0;
        while x < 16
            invariant
                x <= 16,
                y < 16,
                ids@ == frame_ids(size, block as int),
                frame_top(size, block as int) + 17 < sheet@.len(),
                forall|xx: int| 0 <= xx < x ==> #[trigger] row[xx] == frame_pixel(sheet@, size, block as int, xx, y as int),
            decreases 16 - x,
        {
            let id = ids[(y / 8) * 2 + x / 8];
            let tile = &sheet[id as usize];
            row[x] = tile.pixels[y % 8][x % 8];
            x = x + 1;
        }
        out[y] = row;
        y = y + 1;
    }
    out
}

/// Whether pixel `(x, y)` of a frame has ink on it.
pub open spec fn inked(p: [[u8; 16]; 16], x: int, y: int) -> bool {
    0 <= x < 16 && 0 <= y < 16 && p[y][x] != 0
}

/// The box a frame actually draws in, as `(x, y, width, height)` inside its 16
/// by 16 block: the smallest box holding every inked pixel; `None` when
/// nothing is inked.
#[verifier::rlimit(40)]
pub fn ink_box(pixels: &[[u8; 16]; 16]) -> (r: Option<(usize, usize, usize, usize)>)
    ensures
        match r {
            None => forall|qx: int, qy: int| !#[trigger] inked(*pixels, qx, qy),
            Some((x, y, w, h)) => {
                &&& w >= 1 && h >= 1 && x + w <= 16 && y + h <= 16
                &&& forall|px: int, py: int| #[trigger] inked(*pixels, px, py) ==> x <= px < x + w && y <= py < y + h
                &&& exists|py: int| #[trigger] inked(*pixels, x as int, py)
                &&& exists|py: int| #[trigger] inked(*pixels, x + w - 1, py)
                &&& exists|px: int| #[trigger] inked(*pixels, px, y as int)
                &&& exists|px: int| #[trigger] inked(*pixels, px, y + h - 1)
            },
        },
{
    let mut x0: usize = 16;
    let mut x1: usize = 0;
    let mut y0: usize = 16;
    let mut y1: usize = 0;
    let mut any = false;
    let ghost mut wx0: (int, int) = (0, 0);
    let ghost mut wx1: (int, int) = (0, 0);
    let ghost mut wy0: (int, int) = (0, 0);
    let ghost mut wy1: (int, int) = (0, 0);
    let mut y: usize = 0;
    while y < 16
        invariant
            y <= 16,
            !any ==> forall|px: int, py: int| py < y ==> !#[trigger] inked(*pixels, px, py),
            any ==> {
                &&& x0 <= x1 < 16 && y0 <= y1 < y
                &&& forall|px: int, py: int| py < y && #[trigger] inked(*pixels, px, py) ==> x0 <= px <= x1 && y0 <= py <= y1
                &&& inked(*pixels, wx0.0, wx0.1) && wx0.0 == x0
                &&& inked(*pixels, wx1.0, wx1.1) && wx1.0 == x1
                &&& inked(*pixels, wy0.0, wy0.1) && wy0.1 == y0
                &&& inked(*pixels, wy1.0, wy1.1) && wy1.1 == y1
            },
        decreases 16 - y,
    {
        let row = pixels[y];
        let mut x: usize = 0;
        while x < 16
            invariant
                x <= 16,
                y < 16,
                row == pixels[y as int],
                !any ==> forall|px: int, py: int| (py < y || (py == y && px < x)) ==> !#[trigger] inked(*pixels, px, py),
                any ==> {
                    &&& x0 <= x1 < 16 && y0 <= y1 <= y
                    &&& forall|px: int, py: int| (py < y || (py == y && px < x)) && #[trigger] inked(*pixels, px, py)
                        ==> x0 <= px <= x1 && y0 <= py <= y1
                    &&& inked(*pixels, wx0.0, wx0.1) && wx0.0 == x0
                    &&& inked(*pixels, wx1.0, wx1.1) && wx1.0 == x1
                    &&& inked(*pixels, wy0.0, wy0.1) && wy0.1 == y0
                    &&& inked(*pixels, wy1.0, wy1.1) && wy1.1 == y1
                },
            decreases 16 - x,
        {
            if row[x] != 0 {
                assert(inked(*pixels, x as int, y as int));
                if !any || x < x0 {
                    x0 = x;
                    proof { wx0 = (x as int, y as int); }
                }
                if !any || x > x1 {
                    x1 = x;
                    proof { wx1 = (x as int, y as int); }
                }
                if !any || y < y0 {
                    y0 = y;
                    proof { wy0 = (x as int, y as int); }
                }
                if !any || y > y1 {
                    y1 = y;
                    proof { wy1 = (x as int, y as int); }
                }
                any = true;
            }
            x = x + 1;
        }
        y = y + 1;
    }
    if any {
        let w = x1 - x0 + 1;
        let h = y1 - y0 + 1;
        proof {
            assert(inked(*pixels, x0 as int, wx0.1));
            assert(inked(*pixels, x0 + w - 1, wx1.1));
            assert(inked(*pixels, wy0.0, y0 as int));
            assert(inked(*pixels, wy1.0, y0 + h - 1));
        }
        Some((x0, y0, w, h))
    } else {
        proof {
            assert(y == 16);
            assert forall|qx: int, qy: int| !#[trigger] inked(*pixels, qx, qy) by {
                if qy < 16 {
                    assert(qy < y);
                }
            }
        }
        None
    }
}

/// One tile of an object's drawing, placed relative to the bottom left corner
/// of the object. `dy` counts up from the bottom edge, so the lowest row of a
/// drawing is `-8` and the row above it `-16`.
#[derive(Debug, Clone, Copy, PartialEq, Eq, Structural)]
pub struct Piece {
    pub dx: i32,
    pub dy: i32,
    pub tile: u8,
}

/// A piece of a drawing.
pub fn piece(dx: i32, dy: i32, tile: u8) -> (r: Piece)
    ensures
        r == (Piece { dx, dy, tile }),
{
    Piece { dx, dy, tile }
}

/// The Chibibo (object kind `0x00`), a single tile.
pub fn chibibo() -> (r: Vec<Piece>)
    ensures
        r@ == seq![Piece { dx: 0i32, dy: -8i32, tile: 0x90u8 }],
{
    let mut v: Vec<Piece> = Vec::new();
    v.push(piece(0, -8, 0x90));
    v
}

/// The Nokobon (kind `0x04`), one tile wide and two tall.
pub fn nokobon() -> (r: Vec<Piece>)
    ensures
        r@ == seq![Piece { dx: 0i32, dy: -16i32, tile: 0x96u8 }, Piece { dx: 0i32, dy: -8i32, tile: 0x97u8 }],
{
    let mut v: Vec<Piece> = Vec::new();
    v.push(piece(0, -16, 0x96));
    v.push(piece(0, -8, 0x97));
    v
}

/// The Fly (kind `0x0E`), a 2x2 block out of the per-world band.
pub fn fly() -> (r: Vec<Piece>)
    ensures
        r@ == seq![Piece { dx: 0i32, dy: -16i32, tile: 0xA0u8 }, Piece { dx: 8i32, dy: -16i32, tile: 0xA1u8 }, Piece { dx: 0i32, dy: -8i32, tile: 0xB0u8 }, Piece { dx: 8i32, dy: -8i32, tile: 0xB1u8 }],
{
    let mut v: Vec<Piece> = Vec::new();
    v.push(piece(0, -16, 0xA0));
    v.push(piece(8, -16, 0xA1));
    v.push(piece(0, -8, 0xB0));
    v.push(piece(8, -8, 0xB1));
    v
}

/// Bunbun (kind `0x42`), a 2x2 block like the Fly's.
pub fn bunbun() -> (r: Vec<Piece>)
    ensures
        r@ == seq![Piece { dx: 0i32, dy: -16i32, tile: 0xC2u8 }, Piece { dx: 8i32, dy: -16i32, tile: 0xC3u8 }, Piece { dx: 0i32, dy: -8i32, tile: 0xD2u8 }, Piece { dx: 8i32, dy: -8i32, tile: 0xD3u8 }],
{
    let mut v: Vec<Piece> = Vec::new();
    v.push(piece(0, -16, 0xC2));
    v.push(piece(8, -16, 0xC3));
    v.push(piece(0, -8, 0xD2));
    v.push(piece(8, -8, 0xD3));
    v
}

/// Gao (kind `0x3F`), a 2x2 block from the per-world band.
pub fn gao() -> (r: Vec<Piece>)
    ensures
        r@ == seq![Piece { dx: 0i32, dy: -16i32, tile: 0xA4u8 }, Piece { dx: 8i32, dy: -16i32, tile: 0xA5u8 }, Piece { dx: 0i32, dy: -8i32, tile: 0xB4u8 }, Piece { dx: 8i32, dy: -8i32, tile: 0xB5u8 }],
{
    let mut v: Vec<Piece> = Vec::new();
    v.push(piece(0, -16, 0xA4));
    v.push(piece(8, -16, 0xA5));
    v.push(piece(0, -8, 0xB4));
    v.push(piece(8, -8, 0xB5));
    v
}

/// King Totomesu (kind `0x08`), nine tiles: 32 pixels wide and 24 tall, the
/// largest drawing of any object measured. Of the two drawings it alternates
/// between, this is the one it shows most of the time.
pub fn king_totomesu() -> (r: Vec<Piece>)
    ensures
        r@ == seq![Piece { dx: 0i32, dy: -24i32, tile: 0xCDu8 }, Piece { dx: 8i32, dy: -24i32, tile: 0xCEu8 }, Piece { dx: 0i32, dy: -16i32, tile: 0xABu8 }, Piece { dx: 8i32, dy: -16i32, tile: 0xC6u8 }, Piece { dx: 16i32, dy: -16i32, tile: 0xC7u8 }, Piece { dx: 24i32, dy: -16i32, tile: 0xAAu8 }, Piece { dx: 0i32, dy: -8i32, tile: 0xBBu8 }, Piece { dx: 8i32, dy: -8i32, tile: 0xD6u8 }, Piece { dx: 16i32, dy: -8i32, tile: 0xD7u8 }],
{
    let mut v: Vec<Piece> = Vec::new();
    v.push(piece(0, -24, 0xCD));
    v.push(piece(8, -24, 0xCE));
    v.push(piece(0, -16, 0xAB));
    v.push(piece(8, -16, 0xC6));
    v.push(piece(16, -16, 0xC7));
    v.push(piece(24, -16, 0xAA));
    v.push(piece(0, -8, 0xBB));
    v.push(piece(8, -8, 0xD6));
    v.push(piece(16, -8, 0xD7));
    v
}

/// Gao's fireball (kind `0x23`), a single tile.
pub fn fireball() -> (r: Vec<Piece>)
    ensures
        r@ == seq![Piece { dx: 0i32, dy: -8i32, tile: 0xE2u8 }],
{
    let mut v: Vec<Piece> = Vec::new();
    v.push(piece(0, -8, 0xE2));
    v
}

/// King Totomesu's fire (kind `0x1E`), two tiles side by side; its flicker
/// is drawn as one pose.
pub fn boss_fire() -> (r: Vec<Piece>)
    ensures
        r@ == seq![Piece { dx: 0i32, dy: -8i32, tile: 0xC4u8 }, Piece { dx: 8i32, dy: -8i32, tile: 0xC5u8 }],
{
    let mut v: Vec<Piece> = Vec::new();
    v.push(piece(0, -8, 0xC4));
    v.push(piece(8, -8, 0xC5));
    v
}

/// Yurarin (kind `0x1D`), a 2x2 block, drawn in the first of its two poses.
pub fn yurarin() -> (r: Vec<Piece>)
    ensures
        r@ == seq![Piece { dx: 0i32, dy: -16i32, tile: 0xA4u8 }, Piece { dx: 8i32, dy: -16i32, tile: 0xA5u8 }, Piece { dx: 0i32, dy: -8i32, tile: 0xB4u8 }, Piece { dx: 8i32, dy: -8i32, tile: 0xB5u8 }],
{
    let mut v: Vec<Piece> = Vec::new();
    v.push(piece(0, -16, 0xA4));
    v.push(piece(8, -16, 0xA5));
    v.push(piece(0, -8, 0xB4));
    v.push(piece(8, -8, 0xB5));
    v
}

/// Honen (kind `0x10`), one tile over another.
pub fn honen() -> (r: Vec<Piece>)
    ensures
        r@ == seq![Piece { dx: 0i32, dy: -16i32, tile: 0xC1u8 }, Piece { dx: 0i32, dy: -8i32, tile: 0xD1u8 }],
{
    let mut v: Vec<Piece> = Vec::new();
    v.push(piece(0, -16, 0xC1));
    v.push(piece(0, -8, 0xD1));
    v
}

/// The Falling Slab (kind `0x0C`), two tiles side by side.
pub fn falling_slab() -> (r: Vec<Piece>)
    ensures
        r@ == seq![Piece { dx: 0i32, dy: -8i32, tile: 0xDDu8 }, Piece { dx: 8i32, dy: -8i32, tile: 0xDEu8 }],
{
    let mut v: Vec<Piece> = Vec::new();
    v.push(piece(0, -8, 0xDD));
    v.push(piece(8, -8, 0xDE));
    v
}

/// A lift (kinds `0x0A` and `0x0B`), the same tile three times over.
pub fn lift() -> (r: Vec<Piece>)
    ensures
        r@ == seq![Piece { dx: 0i32, dy: -8i32, tile: 0xEFu8 }, Piece { dx: 8i32, dy: -8i32, tile: 0xEFu8 }, Piece { dx: 16i32, dy: -8i32, tile: 0xEFu8 }],
{
    let mut v: Vec<Piece> = Vec::new();
    v.push(piece(0, -8, 0xEF));
    v.push(piece(8, -8, 0xEF));
    v.push(piece(16, -8, 0xEF));
    v
}

/// A drop block (kind `0x36`), one tile, the id next to the lift's.
pub fn drop_block() -> (r: Vec<Piece>)
    ensures
        r@ == seq![Piece { dx: 0i32, dy: -8i32, tile: 0xEEu8 }],
{
    let mut v: Vec<Piece> = Vec::new();
    v.push(piece(0, -8, 0xEE));
    v
}

} // verus!
