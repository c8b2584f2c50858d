//! Game Boy tiles: the 8x8 building block of everything on screen.
//!
//! A tile is 16 bytes, two per row. In a row, the first byte holds the low bit
//! of each of the eight pixels and the second byte holds the high bit, so each
//! pixel is a 0 to 3 color index (most significant pixel first). A palette
//! maps the four indices to four display shades.
use vstd::prelude::*;

verus! {

/// One decoded 8x8 tile as color indices in 0..=3, row major.
#[derive(Debug, Clone, Copy, PartialEq, Eq)]
pub struct Tile {
    pub pixels: [[u8; 8]; 8],
}

/// Bytes per encoded tile.
pub const TILE_BYTES: usize = 16;

/// The color index of pixel `x` (0 leftmost) of a row whose low and high bit
/// planes are `low` and `high`.
pub open spec fn plane_pixel(low: u8, high: u8, x: int) -> u8 {
    let bit = (7 - x) as u8;
    (((high >> bit) & 1u8) << 1u8) | ((low >> bit) & 1u8)
}

/// The tile 16 bytes of 2bpp data spell.
pub open spec fn decoded(bytes: Seq<u8>, t: Tile) -> bool {
    forall|row: int, x: int|
        0 <= row < 8 && 0 <= x < 8 ==> #[trigger] t.pixels[row][x] == plane_pixel(
            bytes[2 * row],
            bytes[2 * row + 1],
            x,
        )
}

impl Tile {
    pub const BYTES: usize = 16;

    /// Every pixel is a 0..=3 color index.
    pub open spec fn valid(self) -> bool {
        forall|row: int, x: int| 0 <= row < 8 && 0 <= x < 8 ==> #[trigger] self.pixels[row][x] < 4
    }

    /// Decode one tile from its 16 bytes of 2bpp data.
    pub fn decode(bytes: &[u8; 16]) -> (r: Self)
        ensures
            decoded(bytes@, r),
            r.valid(),
    {
        let mut pixels = [[0u8; 8]; 8];
        let mut row: usize = 0;
        while row < 8
            invariant
                row <= 8,
                forall|y: int, x: int|
                    0 <= y < row && 0 <= x < 8 ==> #[trigger] pixels[y][x] == plane_pixel(
                        bytes@[2 * y],
                        bytes@[2 * y + 1],
                        x,
                    ) && pixels[y][x] < 4,
            decreases 8 - row,
        {
            let low = bytes[row * 2];
            let high = bytes[row * 2 + 1];
            let mut line = [0u8; 8];
            let mut x: usize = 0;
            while x < 8
                invariant
                    x <= 8,
                    row < 8,
                    low == bytes@[2 * row],
                    high == bytes@[2 * row + 1],
                    forall|i: int| 0 <= i < x ==> #[trigger] line[i] == plane_pixel(low, high, i) && line[i] < 4,
                decreases 8 - x,
            {
                let bit = (7 - x) as u8;
                let lo = (low >> bit) & 1;
                let hi = (high >> bit) & 1;
                let v = (hi << 1) | lo;
                assert(lo <= 1 && hi <= 1) by (bit_vector)
                    requires
                        lo == (low >> bit) & 1u8,
                        hi == (high >> bit) & 1u8,
                ;
                assert(v < 4) by (bit_vector)
                    requires
                        lo <= 1,
                        hi <= 1,
                        v == (hi << 1u8) | lo,
                ;
                line[x] = v;
                x = x + 1;
            }
            pixels[row] = line;
            row = row + 1;
        }
        Tile { pixels }
    }
}

/// Decode a run of tiles from a byte slice. Extra bytes that do not fill a
/// whole tile are ignored.
pub fn decode_tiles(bytes: &[u8]) -> (r: Vec<Tile>)
    ensures
        r@.len() == bytes@.len() / 16,
        forall|i: int| 0 <= i < r@.len() ==> decoded(#[trigger] bytes@.subrange(16 * i, 16 * i + 16), r@[i]),
{
    let n = bytes.len() / TILE_BYTES;
    let mut out: Vec<Tile> = Vec::new();
    let mut i: usize = 0;
    while i < n
        invariant
            n == bytes@.len() / 16,
            bytes@.len() <= usize::MAX,
            i <= n,
            out@.len() == i,
            forall|j: int| 0 <= j < i ==> decoded(#[trigger] bytes@.subrange(16 * j, 16 * j + 16), out@[j]),
        decreases n - i,
    {
        proof {
            assert(i * 16 + 16 <= bytes@.len()) by (nonlinear_arith)
                requires
                    n == bytes@.len() / 16,
                    i < n,
            ;
        }
        let base = i * TILE_BYTES;
        let chunk = tile_bytes_at(bytes, base);
        let t = Tile::decode(&chunk);
        proof {
            assert(chunk@ == bytes@.subrange(16 * i as int, 16 * i as int + 16));
        }
        out.push(t);
        i = i + 1;
    }
    out
}

/// The 16 bytes of `bytes` starting at `base`.
pub fn tile_bytes_at(bytes: &[u8], base: usize) -> (r: [u8; 16])
    requires
        base + 16 <= bytes@.len(),
    ensures
        r@ == bytes@.subrange(base as int, base as int + 16),
{
    let _len = bytes.len();
    let mut chunk = [0u8; 16];
    let mut k: usize = 0;
    while k < 16
        invariant
            k <= 16,
            base + 16 <= bytes@.len(),
            bytes@.len() <= usize::MAX,
            forall|j: int| 0 <= j < k ==> #[trigger] chunk[j] == bytes@[base + j],
        decreases 16 - k,
    {
        chunk[k] = bytes[base + k];
        k = k + 1;
    }
    assert(chunk@ =~= bytes@.subrange(base as int, base as int + 16));
    chunk
}

} // verus!
