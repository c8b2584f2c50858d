//! Built-in scenes for screenshots and tests.
//!
//! These are our own content, not extracted game data, so they are safe to
//! render in CI and commit as golden images.
use crate::render::{on_screen, palette_shade, render_background, Framebuffer, Palette, TileMap};
use crate::tiles::Tile;
use vstd::prelude::*;

verus! {

/// Four solid shades arranged as diagonal bands, drawn through the real tilemap
/// path so the whole render pipeline is exercised: the tile at column `tx`,
/// row `ty` is solid color `(tx + ty) % 4`.
#[verifier::rlimit(40)]
pub fn demo() -> (fb: Framebuffer)
    ensures
        fb.wf(),
        forall|x: int, y: int| on_screen(x, y) ==> #[trigger] fb.at(x, y) == palette_shade(0xE4, ((x / 8 + y / 8) % 4) as u8),
{
    let mut tiles: Vec<Tile> = Vec::new();
    let mut i: u8 = 0;
    while i < 4
        invariant
            i <= 4,
            tiles@.len() == i,
            forall|k: int, r: int, c: int| 0 <= k < i && 0 <= r < 8 && 0 <= c < 8 ==> #[trigger] tiles@[k].pixels[r][c] == k,
        decreases 4 - i,
    {
        tiles.push(Tile { pixels: [[i; 8]; 8] });
        i = i + 1;
    }
    let w: usize = 20;
    let h: usize = 18;
    let mut cells: Vec<u8> = Vec::new();
    let mut ty: usize = 0;
    while ty < h
        invariant
            ty <= h,
            w == 20,
            h == 18,
            cells@.len() == ty * w,
            forall|x: int, y: int| 0 <= x < 20 && 0 <= y < ty ==> #[trigger] cells@[y * 20 + x] == ((x + y) % 4) as u8,
        decreases h - ty,
    {
        let mut tx: usize = 0;
        while tx < w
            invariant
                tx <= w,
                ty < h,
                w == 20,
                h == 18,
                cells@.len() == ty * w + tx,
                forall|x: int, y: int| 0 <= x < 20 && 0 <= y < ty ==> #[trigger] cells@[y * 20 + x] == ((x + y) % 4) as u8,
                forall|x: int| 0 <= x < tx ==> #[trigger] cells@[ty * 20 + x] == ((x + ty) % 4) as u8,
            decreases w - tx,
        {
            let ghost before = cells@;
            cells.push(((tx + ty) % 4) as u8);
            proof {
                assert forall|x: int, y: int| 0 <= x < 20 && 0 <= y < ty implies #[trigger] cells@[y * 20 + x] == ((x + y) % 4) as u8 by {
                    assert(cells@[y * 20 + x] == before[y * 20 + x]);
                }
                assert forall|x: int| 0 <= x < tx + 1 implies #[trigger] cells@[ty * 20 + x] == ((x + ty) % 4) as u8 by {
                    if x < tx {
                        assert(cells@[ty * 20 + x] == before[ty * 20 + x]);
                    }
                }
            }
            tx = tx + 1;
        }
        proof {
            assert forall|x: int, y: int| 0 <= x < 20 && 0 <= y < ty + 1 implies #[trigger] cells@[y * 20 + x] == ((x + y) % 4) as u8 by {
                if y == ty {
                    assert(cells@[ty * 20 + x] == ((x + ty) % 4) as u8);
                }
            }
        }
        ty = ty + 1;
    }
    let map = TileMap::new(w, h, cells);
    let mut fb = Framebuffer::new();
    let palette = Palette::new(0xE4);
    render_background(&mut fb, &map, tiles.as_slice(), 0, 0, &palette);
    proof {
        assert forall|x: int, y: int| on_screen(x, y) implies #[trigger] fb.at(x, y) == palette_shade(0xE4, ((x / 8 + y / 8) % 4) as u8) by {
            let tx = x / 8;
            let ty = y / 8;
            assert(x % 160 == x && y % 144 == y);
            assert(0 <= tx < 20 && 0 <= ty < 18);
            assert(tx % 20 == tx && ty % 18 == ty);
            let idx = ((tx + ty) % 4) as u8;
            assert(map.cell_at(tx, ty) == idx);
            assert(tiles@[idx as int].pixels[y % 8][x % 8] == idx);
        }
    }
    fb
}

} // verus!
