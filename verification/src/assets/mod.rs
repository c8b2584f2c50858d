//! Assets: decoding game data out of cartridge bytes, and our own tile sheet
//! format.
//!
//! Graphics are pulled out of the verified ROM into our own on-disk format,
//! then loaded for rendering. Extraction always verifies the ROM first, so we
//! never build assets from an unknown dump.
pub mod level;
pub mod object;
pub mod sprite;
pub mod title;

use crate::rom::{verify_data, VerifyError};
use crate::tiles::{decode_tiles, decoded, Tile, TILE_BYTES};
use vstd::prelude::*;
use vstd::arithmetic::div_mod::{lemma_add_mod_noop, lemma_fundamental_div_mod_converse};

verus! {

/// A collection of decoded tiles plus the palette they render with.
#[derive(Debug, PartialEq, Eq)]
pub struct TileSheet {
    pub tiles: Vec<Tile>,
    /// Game Boy BGP value: four 2-bit shade selections packed into a byte.
    pub palette: u8,
}

/// Default DMG background palette: index 0 lightest, 3 darkest (BGP 0xE4).
pub const DEFAULT_BGP: u8 = 0xE4;

/// The first bytes of our tile sheet files: "SMLT".
pub open spec fn magic() -> Seq<u8> {
    seq![83u8, 77, 76, 84]
}

/// The tile sheet format's version.
pub const FORMAT_VERSION: u8 = 1;

/// Why reading assets failed.
#[derive(Debug)]
pub enum AssetError {
    Io(std::io::Error),
    Rom(VerifyError),
    OutOfRange { end: usize, len: usize },
    BadFormat,
}

/// The 64 color indices of a tile, row major.
pub open spec fn tile_bytes(t: Tile) -> Seq<u8> {
    Seq::new(64, |i: int| t.pixels[i / 8][i % 8])
}

/// The color indices of the tiles, one after another.
pub open spec fn tiles_bytes(ts: Seq<Tile>) -> Seq<u8>
    decreases ts.len(),
{
    if ts.len() == 0 { seq![] } else { tiles_bytes(ts.drop_last()) + tile_bytes(ts.last()) }
}

/// A 32-bit count, least significant byte first.
pub open spec fn le_count(n: u32) -> Seq<u8> {
    seq![(n & 0xff) as u8, ((n >> 8u32) & 0xff) as u8, ((n >> 16u32) & 0xff) as u8, ((n >> 24u32) & 0xff) as u8]
}

/// The bytes of a tile sheet file: magic, version, palette, tile count, then
/// 64 index bytes per tile. The count is written as 32 bits.
pub open spec fn sheet_bytes(tiles: Seq<Tile>, palette: u8) -> Seq<u8> {
    magic() + seq![FORMAT_VERSION, palette] + le_count(tiles.len() as u32) + tiles_bytes(tiles)
}

/// The tile count a file's header states.
pub open spec fn stated_count(data: Seq<u8>) -> int {
    data[6] as int + data[7] as int * 0x100 + data[8] as int * 0x1_0000 + data[9] as int * 0x100_0000
}

/// Whether `data` is a well-formed tile sheet file: long enough, the right
/// magic and version, and exactly as many tile bytes as its count says.
pub open spec fn sheet_ok(data: Seq<u8>) -> bool {
    &&& data.len() >= 10
    &&& data.take(4) == magic()
    &&& data[4] == FORMAT_VERSION
    &&& data.len() - 10 == stated_count(data) * 64
}

/// Tile `t` holds the 64 bytes of `body` from `64 * i`.
pub open spec fn tile_from(body: Seq<u8>, i: int, t: Tile) -> bool {
    forall|r: int, c: int| 0 <= r < 8 && 0 <= c < 8 ==> #[trigger] t.pixels[r][c] == body[64 * i + 8 * r + c]
}

impl TileSheet {
    pub fn new(tiles: Vec<Tile>, palette: u8) -> (r: Self)
        ensures
            r.tiles@ == tiles@,
            r.palette == palette,
    {
        TileSheet { tiles, palette }
    }

    /// Our asset format: magic, version, palette, tile count, then 64 index
    /// bytes per tile (row major). Small and dependency free so the loader is
    /// trivial and the format is easy to read.
    pub fn to_bytes(&self) -> (r: Vec<u8>)
        ensures
            r@ == sheet_bytes(self.tiles@, self.palette),
    {
        let mut out: Vec<u8> = Vec::new();
        out.push(83);
        out.push(77);
        out.push(76);
        out.push(84);
        out.push(FORMAT_VERSION);
        out.push(self.palette);
        let n = self.tiles.len() as u32;
        out.push((n & 0xff) as u8);
        out.push(((n >> 8) & 0xff) as u8);
        out.push(((n >> 16) & 0xff) as u8);
        out.push(((n >> 24) & 0xff) as u8);
        let ghost head = out@;
        assert(head =~= magic() + seq![FORMAT_VERSION, self.palette] + le_count(n));
        let mut i: usize = 0;
        while i < self.tiles.len()
            invariant
                i <= self.tiles@.len(),
                out@ == head + tiles_bytes(self.tiles@.take(i as int)),
            decreases self.tiles@.len() - i,
        {
            let t = self.tiles[i];
            let ghost before = out@;
            let mut k: usize = 0;
            while k < 64
                invariant
                    k <= 64,
                    out@ == before + tile_bytes(t).take(k as int),
                decreases 64 - k,
            {
                out.push(t.pixels[k / 8][k % 8]);
                k = k + 1;
                assert(out@ =~= before + tile_bytes(t).take(k as int));
            }
            proof {
                assert(tile_bytes(t).take(64) =~= tile_bytes(t));
                assert(self.tiles@.take(i + 1).drop_last() =~= self.tiles@.take(i as int));
            }
            i = i + 1;
        }
        assert(self.tiles@.take(i as int) =~= self.tiles@);
        out
    }

    /// Read a tile sheet file. Anything but a well-formed file is
    /// `BadFormat`.
    #[verifier::rlimit(40)]
    pub fn from_bytes(data: &[u8]) -> (r: Result<Self, AssetError>)
        ensures
            sheet_ok(data@) <==> r is Ok,
            !sheet_ok(data@) ==> (r matches Err(AssetError::BadFormat)),
            r matches Ok(s) ==> {
                &&& s.palette == data@[5]
                &&& s.tiles@.len() == stated_count(data@)
                &&& forall|i: int| 0 <= i < s.tiles@.len() ==> tile_from(data@.skip(10), i, #[trigger] s.tiles@[i])
            },
    {
        if data.len() < 10 || data[0] != 83 || data[1] != 77 || data[2] != 76 || data[3] != 84 {
            proof {
                if data@.len() >= 10 {
                    assert(data@.take(4)[0] == data@[0] && data@.take(4)[1] == data@[1]);
                    assert(data@.take(4)[2] == data@[2] && data@.take(4)[3] == data@[3]);
                }
            }
            return Err(AssetError::BadFormat);
        }
        assert(data@.take(4) =~= magic());
        if data[4] != FORMAT_VERSION {
            return Err(AssetError::BadFormat);
        }
        let palette = data[5];
        let count: u64 = data[6] as u64 + data[7] as u64 * 0x100 + data[8] as u64 * 0x1_0000 + data[9] as u64 * 0x100_0000;
        let body_len = data.len() - 10;
        if (body_len as u64) / 64 != count || (body_len as u64) % 64 != 0 {
            return Err(AssetError::BadFormat);
        }
        let count = body_len / 64;
        let mut tiles: Vec<Tile> = Vec::new();
        let mut t: usize = 0;
        while t < count
            invariant
                t <= count,
                count * 64 == body_len,
                body_len + 10 == data@.len(),
                tiles@.len() == t,
                forall|i: int| 0 <= i < t ==> tile_from(data@.skip(10), i, #[trigger] tiles@[i]),
            decreases count - t,
        {
            let mut pixels = [[0u8; 8]; 8];
            let mut r: usize = 0;
            assert(64 * t + 64 <= body_len) by (nonlinear_arith)
                requires t < count, count * 64 == body_len;
            while r < 8
                invariant
                    r <= 8,
                    64 * t + 64 <= body_len,
                    body_len + 10 == data@.len(),
                    forall|j: int, c: int| 0 <= j < r && 0 <= c < 8 ==> #[trigger] pixels[j][c] == data@.skip(10)[64 * t + 8 * j + c],
                decreases 8 - r,
            {
                let mut row = [0u8; 8];
                let mut c: usize = 0;
                while c < 8
                    invariant
                        c <= 8,
                        r < 8,
                        64 * t + 64 <= body_len,
                        body_len + 10 == data@.len(),
                        forall|k: int| 0 <= k < c ==> #[trigger] row[k] == data@.skip(10)[64 * t + 8 * r + k],
                    decreases 8 - c,
                {
                    row[c] = data[10 + t * 64 + r * 8 + c];
                    c = c + 1;
                }
                pixels[r] = row;
                r = r + 1;
            }
            let ghost before = tiles@;
            tiles.push(Tile { pixels });
            proof {
                assert forall|i: int| 0 <= i < t + 1 implies tile_from(data@.skip(10), i, #[trigger] tiles@[i]) by {
                    if i < t {
                        assert(tiles@[i] == before[i]);
                    }
                }
            }
            t = t + 1;
        }
        Ok(TileSheet { tiles, palette })
    }

    /// Every tile's pixels are 0..=3 color indices.
    pub open spec fn valid(&self) -> bool {
        forall|i: int| 0 <= i < self.tiles@.len() ==> (#[trigger] self.tiles@[i]).valid()
    }
}

/// Resolve a 0..=3 color index to a 0..=3 shade through a BGP palette byte.
pub open spec fn shade_spec(index: u8, bgp: u8) -> u8 {
    ((bgp >> ((index * 2) as u8)) & 3u8) as u8
}

/// Resolve a 0..=3 color index to a 0..=3 shade through a BGP palette byte.
pub fn shade_of(index: u8, bgp: u8) -> (r: u8)
    requires
        index < 4,
    ensures
        r == shade_spec(index, bgp),
        r < 4,
{
    let s = (bgp >> (index * 2)) & 0b11;
    assert(s < 4) by (bit_vector)
        requires s == (bgp >> (index * 2)) & 3u8;
    s
}

/// Decode `count` tiles starting at `offset` of a ROM image, once the image
/// is confirmed to be the expected dump. The tiles come with the default
/// palette; callers can override it once it is known.
pub fn extract_tiles_from(data: &[u8], offset: usize, count: usize) -> (r: Result<TileSheet, AssetError>)
    requires
        offset + count * 16 <= usize::MAX,
    ensures
        match verify_data_outcome(data@) {
            false => r matches Err(AssetError::Rom(VerifyError::Mismatch(_))),
            true => if offset + count * 16 > data@.len() {
                r matches Err(AssetError::OutOfRange { end, len }) && end == offset + count * 16 && len == data@.len()
            } else {
                r matches Ok(sheet) && sheet.palette == DEFAULT_BGP && sheet.tiles@.len() == count
                    && forall|i: int| 0 <= i < count ==> decoded(
                    #[trigger] data@.subrange(offset + 16 * i, offset + 16 * i + 16),
                    sheet.tiles@[i],
                )
            },
        },
{
    match verify_data(data) {
        Err(e) => {
            return Err(AssetError::Rom(e));
        },
        Ok(_) => {},
    }
    let end = offset + count * TILE_BYTES;
    if end > data.len() {
        return Err(AssetError::OutOfRange { end, len: data.len() });
    }
    let slice = &data[offset..end];
    let tiles = decode_tiles(slice);
    proof {
        assert forall|i: int| 0 <= i < count implies decoded(
            #[trigger] data@.subrange(offset + 16 * i, offset + 16 * i + 16),
            tiles@[i],
        ) by {
            assert(slice@.subrange(16 * i, 16 * i + 16) =~= data@.subrange(offset + 16 * i, offset + 16 * i + 16));
        }
    }
    Ok(TileSheet::new(tiles, DEFAULT_BGP))
}

/// Whether a ROM image hashes to the expected dump.
pub open spec fn verify_data_outcome(data: Seq<u8>) -> bool {
    let sha = crate::rom::hex_of(crate::rom::sha1_of(data));
    let md = crate::rom::hex_of(crate::rom::md5_of(data));
    &&& sha == crate::rom::EXPECTED_SHA1@
    &&& md == crate::rom::EXPECTED_MD5@
    &&& crate::rom::crc32_of(data) == crate::rom::EXPECTED_CRC32
}

/// The tile bytes are the tiles' pixels, 64 to a tile, row major.
pub proof fn lemma_tiles_bytes(ts: Seq<Tile>)
    ensures
        tiles_bytes(ts).len() == 64 * ts.len(),
        forall|i: int, r: int, c: int|
            0 <= i < ts.len() && 0 <= r < 8 && 0 <= c < 8 ==> #[trigger] tiles_bytes(ts)[64 * i + 8 * r + c] == ts[i].pixels[r][c],
    decreases ts.len(),
{
    if ts.len() > 0 {
        lemma_tiles_bytes(ts.drop_last());
        let p = tiles_bytes(ts.drop_last());
        let last = tile_bytes(ts.last());
        assert forall|i: int, r: int, c: int|
            0 <= i < ts.len() && 0 <= r < 8 && 0 <= c < 8 implies #[trigger] tiles_bytes(ts)[64 * i + 8 * r + c] == ts[i].pixels[r][c] by {
            if i < ts.len() - 1 {
                assert(64 * i + 8 * r + c < p.len());
                assert(ts.drop_last()[i] == ts[i]);
            } else {
                assert(64 * i + 8 * r + c - p.len() == 8 * r + c);
                assert((8 * r + c) / 8 == r && (8 * r + c) % 8 == c);
            }
        }
    }
}

/// A 32-bit count read back from its bytes is the count.
pub proof fn lemma_le_count(n: u32)
    ensures
        le_count(n)[0] as int + le_count(n)[1] as int * 0x100 + le_count(n)[2] as int * 0x1_0000 + le_count(n)[3] as int * 0x100_0000 == n,
{
    let b0 = n & 0xff;
    let b1 = (n >> 8u32) & 0xff;
    let b2 = (n >> 16u32) & 0xff;
    let b3 = (n >> 24u32) & 0xff;
    assert(b0 < 256 && b1 < 256 && b2 < 256 && b3 < 256) by (bit_vector)
        requires
            b0 == n & 0xff,
            b1 == (n >> 8u32) & 0xff,
            b2 == (n >> 16u32) & 0xff,
            b3 == (n >> 24u32) & 0xff,
    ;
    assert(le_count(n)[0] as int == b0 && le_count(n)[1] as int == b1 && le_count(n)[2] as int == b2 && le_count(n)[3] as int == b3);
    assert(b0 + b1 * 0x100 + b2 * 0x1_0000 + b3 * 0x100_0000 == n) by (bit_vector)
        requires
            b0 == n & 0xff,
            b1 == (n >> 8u32) & 0xff,
            b2 == (n >> 16u32) & 0xff,
            b3 == (n >> 24u32) & 0xff,
    ;
}

/// Writing a sheet and reading it back gives the same sheet: the bytes are a
/// well-formed file, and a sheet read from them has the same palette and the
/// same tiles, in order. This holds for any sheet whose tile count fits the
/// format's 32-bit count.
pub proof fn lemma_sheet_round_trip(tiles: Seq<Tile>, palette: u8, back: Seq<Tile>, back_palette: u8)
    requires
        tiles.len() <= u32::MAX,
        back_palette == sheet_bytes(tiles, palette)[5],
        back.len() == stated_count(sheet_bytes(tiles, palette)),
        forall|i: int| 0 <= i < back.len() ==> tile_from(sheet_bytes(tiles, palette).skip(10), i, #[trigger] back[i]),
    ensures
        sheet_ok(sheet_bytes(tiles, palette)),
        back_palette == palette,
        back == tiles,
{
    let data = sheet_bytes(tiles, palette);
    let n = tiles.len() as u32;
    lemma_tiles_bytes(tiles);
    lemma_le_count(n);
    let head = magic() + seq![FORMAT_VERSION, palette] + le_count(n);
    assert(head.len() == 10);
    assert(data[6] == le_count(n)[0] && data[7] == le_count(n)[1] && data[8] == le_count(n)[2] && data[9] == le_count(n)[3]);
    assert(stated_count(data) == tiles.len());
    assert(data.take(4) =~= magic());
    assert(data.skip(10) =~= tiles_bytes(tiles));
    assert forall|i: int| 0 <= i < tiles.len() implies back[i] == tiles[i] by {
        assert forall|r: int, c: int| 0 <= r < 8 && 0 <= c < 8 implies back[i].pixels[r][c] == tiles[i].pixels[r][c] by {
            assert(back[i].pixels[r][c] == data.skip(10)[64 * i + 8 * r + c]);
            assert(tiles_bytes(tiles)[64 * i + 8 * r + c] == tiles[i].pixels[r][c]);
        }
        assert forall|r: int| 0 <= r < 8 implies back[i].pixels[r] == tiles[i].pixels[r] by {
            assert(back[i].pixels[r] =~= tiles[i].pixels[r]);
        }
        assert(back[i].pixels =~= tiles[i].pixels);
    }
    assert(back =~= tiles);
}

/// The distinct 16-byte tile encodings among `raws`, in order of first
/// appearance.
pub open spec fn distinct_in_order(raws: Seq<Seq<u8>>) -> Seq<Seq<u8>>
    decreases raws.len(),
{
    if raws.len() == 0 {
        seq![]
    } else {
        let d = distinct_in_order(raws.drop_last());
        if d.contains(raws.last()) { d } else { d.push(raws.last()) }
    }
}

/// Encodings as plain sequences.
pub open spec fn raw_views(v: Seq<[u8; 16]>) -> Seq<Seq<u8>> {
    Seq::new(v.len(), |k: int| v[k]@)
}

/// The sheet index of encoding `raw` when the distinct encodings `d` follow
/// `base` tiles, as a byte.
pub open spec fn slot_of(d: Seq<Seq<u8>>, raw: Seq<u8>, base: int) -> u8 {
    ((base + d.index_of(raw)) % 256) as u8
}

fn same_raw(a: &[u8; 16], b: &[u8; 16]) -> (r: bool)
    ensures
        r == (a@ == b@),
{
    let mut k: usize = 0;
    while k < 16
        invariant
            k <= 16,
            forall|j: int| 0 <= j < k ==> a@[j] == b@[j],
        decreases 16 - k,
    {
        if a[k] != b[k] {
            return false;
        }
        k = k + 1;
    }
    assert(a@ =~= b@);
    true
}

/// Each encoding's index among the distinct ones, after `base` tiles that
/// come first: the distinct encodings in order of first appearance, and one
/// index per encoding.
#[verifier::rlimit(40)]
pub(crate) fn intern(raws: &Vec<[u8; 16]>, base: usize) -> (r: (Vec<[u8; 16]>, Vec<u8>))
    ensures
        raw_views(r.0@) == distinct_in_order(raw_views(raws@)),
        r.1@.len() == raws@.len(),
        forall|k: int| 0 <= k < raws@.len() ==> #[trigger] r.1@[k] == slot_of(distinct_in_order(raw_views(raws@)), raws@[k]@, base as int),
{
    let mut d: Vec<[u8; 16]> = Vec::new();
    let mut cells: Vec<u8> = Vec::new();
    let ghost mut pos: Seq<int> = Seq::empty();
    let mut k: usize = 0;
    while k < raws.len()
        invariant
            k <= raws@.len(),
            raw_views(d@) == distinct_in_order(raw_views(raws@.take(k as int))),
            forall|a: int, b: int| 0 <= a < b < d@.len() ==> d@[a]@ != d@[b]@,
            cells@.len() == k,
            pos.len() == k,
            forall|j: int| 0 <= j < k ==> 0 <= #[trigger] pos[j] < d@.len() && d@[pos[j]]@ == raws@[j]@
                && cells@[j] == ((base + pos[j]) % 256) as u8,
        decreases raws@.len() - k,
    {
        let raw = raws[k];
        let ghost dv = raw_views(d@);
        proof {
            assert(raw_views(raws@.take(k + 1)).drop_last() =~= raw_views(raws@.take(k as int)));
            assert(raw_views(raws@.take(k + 1)).last() == raw@);
        }
        let mut found: usize = d.len();
        let mut q: usize = 0;
        while q < d.len() && found == d.len()
            invariant
                q <= d@.len(),
                found == d@.len() ==> forall|j: int| 0 <= j < q ==> d@[j]@ != raw@,
                found != d@.len() ==> found < d@.len() && d@[found as int]@ == raw@,
            decreases d@.len() - q,
        {
            if same_raw(&d[q], &raw) {
                found = q;
            }
            q = q + 1;
        }
        if found == d.len() {
            proof {
                assert(!dv.contains(raw@)) by {
                    if dv.contains(raw@) {
                        let j = choose|j: int| 0 <= j < dv.len() && dv[j] == raw@;
                        assert(d@[j]@ == raw@);
                    }
                }
            }
            d.push(raw);
            proof {
                assert(raw_views(d@) =~= dv.push(raw@));
            }
        } else {
            proof {
                assert(dv[found as int] == raw@);
                assert(dv.contains(raw@));
            }
        }
        proof {
            pos = pos.push(found as int);
        }
        proof {
            lemma_add_mod_noop(base as int, found as int, 256);
        }
        cells.push(((base % 256 + found % 256) % 256) as u8);
        k = k + 1;
    }
    proof {
        assert(raws@.take(k as int) =~= raws@);
        let dd = raw_views(d@);
        assert forall|j: int| 0 <= j < raws@.len() implies #[trigger] cells@[j] == slot_of(dd, raws@[j]@, base as int) by {
            let p = pos[j];
            assert(dd[p] == raws@[j]@);
            let w = dd.index_of(raws@[j]@);
            assert(0 <= w < dd.len() && dd[w] == raws@[j]@);
            assert(w == p);
        }
    }
    (d, cells)
}

/// The columns of the preview grid: at least one.
pub open spec fn grid_cols(cols: usize) -> int {
    if cols == 0 { 1 } else { cols as int }
}

/// The rows of the preview grid: enough for `n` tiles, `c` to a row.
pub open spec fn grid_rows(n: int, c: int) -> int {
    n / c + if n % c != 0 { 1int } else { 0int }
}

/// The preview's gray level at pixel `(px, py)`: the tile's shade through the
/// palette, 255 for white down to 0 for black; white where no tile is.
pub open spec fn pgm_pixel(tiles: Seq<Tile>, palette: u8, c: int, px: int, py: int) -> u8 {
    let i = (py / 8) * c + px / 8;
    if i < tiles.len() {
        (255 - shade_spec(tiles[i].pixels[py % 8][px % 8], palette) * 85) as u8
    } else {
        255
    }
}

/// `n` in decimal as ASCII bytes.
pub open spec fn decimal_bytes(n: nat) -> Seq<u8> {
    crate::text::digits(n).map_values(|d: nat| (d + 48) as u8)
}

/// The header of a binary PGM of `w` by `h` pixels with 255 as white.
pub open spec fn pgm_header(w: nat, h: nat) -> Seq<u8> {
    seq![0x50u8, 0x35, 0x0A] + decimal_bytes(w) + seq![0x20u8] + decimal_bytes(h) + seq![0x0Au8, 0x32, 0x35, 0x35, 0x0A]
}

/// The preview file: header, then the pixels row by row.
pub open spec fn pgm_of(tiles: Seq<Tile>, palette: u8, cols: usize) -> Seq<u8> {
    let c = grid_cols(cols);
    let w = c * 8;
    let h = grid_rows(tiles.len() as int, c) * 8;
    pgm_header(w as nat, h as nat) + Seq::new((w * h) as nat, |k: int| pgm_pixel(tiles, palette, c, k % w, k / w))
}

/// The preview of `n` tiles `cols` wide fits in memory.
pub open spec fn pgm_fits(n: int, cols: usize) -> bool {
    let c = grid_cols(cols);
    &&& c * 8 <= usize::MAX
    &&& c * 8 * (grid_rows(n, c) * 8) <= usize::MAX
}

fn push_decimal_bytes(out: &mut Vec<u8>, n: usize)
    ensures
        final(out)@ == old(out)@ + decimal_bytes(n as nat),
{
    let ds = crate::text::digits_of(n as u64);
    proof {
        crate::text::lemma_digits_valid(n as nat);
    }
    let ghost start = out@;
    let mut k: usize = 0;
    while k < ds.len()
        invariant
            k <= ds@.len(),
            ds@.len() == crate::text::digits(n as nat).len(),
            forall|i: int| 0 <= i < ds@.len() ==> ds@[i] as nat == #[trigger] crate::text::digits(n as nat)[i],
            forall|i: int| 0 <= i < crate::text::digits(n as nat).len() ==> #[trigger] crate::text::digits(n as nat)[i] < 10,
            out@ == start + decimal_bytes(n as nat).take(k as int),
        decreases ds@.len() - k,
    {
        assert(crate::text::digits(n as nat)[k as int] < 10);
        assert(ds@[k as int] < 10);
        out.push(ds[k] + 48);
        k = k + 1;
        assert(out@ =~= start + decimal_bytes(n as nat).take(k as int));
    }
    assert(decimal_bytes(n as nat).take(k as int) =~= decimal_bytes(n as nat));
}

impl TileSheet {
    /// A binary PGM (P5) preview, tiles laid out in a grid `cols` wide (at
    /// least one), palette applied, white where the last row runs out.
    #[verifier::rlimit(40)]
    pub fn to_pgm(&self, cols: usize) -> (r: Vec<u8>)
        requires
            self.valid(),
            pgm_fits(self.tiles@.len() as int, cols),
        ensures
            r@ == pgm_of(self.tiles@, self.palette, cols),
    {
        let c = if cols == 0 { 1 } else { cols };
        let n = self.tiles.len();
        let ghost g = grid_rows(n as int, c as int);
        assert(n / c <= g);
        assert(g * 8 <= c * 8 * (g * 8)) by (nonlinear_arith)
            requires c >= 1, g >= 0;
        let rows = if n % c != 0 { n / c + 1 } else { n / c };
        assert(rows == g);
        let w = c * 8;
        let h = rows * 8;
        let mut out: Vec<u8> = Vec::new();
        out.push(0x50);
        out.push(0x35);
        out.push(0x0A);
        push_decimal_bytes(&mut out, w);
        out.push(0x20);
        push_decimal_bytes(&mut out, h);
        out.push(0x0A);
        out.push(0x32);
        out.push(0x35);
        out.push(0x35);
        out.push(0x0A);
        let ghost head = out@;
        assert(head =~= pgm_header(w as nat, h as nat));
        let ghost px_seq = Seq::new((w * h) as nat, |k: int| pgm_pixel(self.tiles@, self.palette, c as int, k % (w as int), k / (w as int)));
        let mut py: usize = 0;
        while py < h
            invariant
                py <= h,
                w == c * 8,
                h == rows * 8,
                c >= 1,
                n == self.tiles@.len(),
                w * h <= usize::MAX,
                self.valid(),
                px_seq == Seq::new((w * h) as nat, |k: int| pgm_pixel(self.tiles@, self.palette, c as int, k % (w as int), k / (w as int))),
                out@ == head + px_seq.take(py * w),
            decreases h - py,
        {
            let mut px: usize = 0;
            assert((py + 1) * w <= w * h) by (nonlinear_arith)
                requires py < h, w >= 0;
            while px < w
                invariant
                    px <= w,
                    py < h,
                    w == c * 8,
                    h == rows * 8,
                    c >= 1,
                    n == self.tiles@.len(),
                    (py + 1) * w <= w * h,
                    w * h <= usize::MAX,
                    self.valid(),
                    px_seq == Seq::new((w * h) as nat, |k: int| pgm_pixel(self.tiles@, self.palette, c as int, k % (w as int), k / (w as int))),
                    out@ == head + px_seq.take(py * w + px),
                decreases w - px,
            {
                let ty = py / 8;
                let tx = px / 8;
                assert(ty * c + tx < rows * c) by (nonlinear_arith)
                    requires ty == py / 8, py < h, h == rows * 8, tx == px / 8, px < w, w == c * 8, c >= 1;
                assert(rows * c <= w * h) by (nonlinear_arith)
                    requires w == c * 8, h == rows * 8, c >= 1, rows >= 0;
                let i = ty * c + tx;
                let v: u8 = if i < n {
                    let t = self.tiles[i];
                    assert(t.valid());
                    let shade = shade_of(t.pixels[py % 8][px % 8], self.palette);
                    255 - shade * 85
                } else {
                    255
                };
                proof {
                    let k = py * w + px;
                    assert(k < w * h) by (nonlinear_arith)
                        requires k == py * w + px, px < w, (py + 1) * w <= w * h;
                    lemma_fundamental_div_mod_converse(k as int, w as int, py as int, px as int);
                    assert(px_seq[k as int] == v);
                    assert(px_seq.take(k + 1) =~= px_seq.take(k as int).push(v));
                }
                out.push(v);
                px = px + 1;
            }
            assert(py * w + w == (py + 1) * w) by (nonlinear_arith);
            py = py + 1;
        }
        assert(px_seq.take(h * w) =~= px_seq) by {
            assert(h * w == w * h) by (nonlinear_arith);
        }
        out
    }
}

/// The first bytes of our tile map files: "SMLM".
pub open spec fn map_magic() -> Seq<u8> {
    seq![83u8, 77, 76, 77]
}

/// A 16-bit number, least significant byte first.
pub open spec fn le16_bytes(n: u16) -> Seq<u8> {
    seq![(n % 256) as u8, (n / 256) as u8]
}

/// The bytes of a tile map file: magic, version, width and height as 16-bit
/// numbers, then one index byte per cell, row by row.
pub open spec fn map_bytes(width: u16, height: u16, cells: Seq<u8>) -> Seq<u8> {
    map_magic() + seq![FORMAT_VERSION] + le16_bytes(width) + le16_bytes(height) + cells
}

/// The width or height a tile map file states at byte `at`.
pub open spec fn stated_u16(data: Seq<u8>, at: int) -> int {
    data[at] + data[at + 1] * 256
}

/// Whether `data` is a well-formed tile map file: the right magic and version
/// and exactly as many cells as width times height.
pub open spec fn map_ok(data: Seq<u8>) -> bool {
    &&& data.len() >= 9
    &&& data.take(4) == map_magic()
    &&& data[4] == FORMAT_VERSION
    &&& data.len() - 9 == stated_u16(data, 5) * stated_u16(data, 7)
}

/// A tile map as a file. Width and height are written as 16 bits each.
pub fn tilemap_to_bytes(width: usize, height: usize, cells: &[u8]) -> (r: Vec<u8>)
    ensures
        r@ == map_bytes(width as u16, height as u16, cells@),
{
    let w = width as u16;
    let h = height as u16;
    let mut out: Vec<u8> = Vec::new();
    out.push(83);
    out.push(77);
    out.push(76);
    out.push(77);
    out.push(FORMAT_VERSION);
    out.push((w % 256) as u8);
    out.push((w / 256) as u8);
    out.push((h % 256) as u8);
    out.push((h / 256) as u8);
    let ghost head = out@;
    assert(head =~= map_magic() + seq![FORMAT_VERSION] + le16_bytes(w) + le16_bytes(h));
    let mut k: usize = 0;
    while k < cells.len()
        invariant
            k <= cells@.len(),
            out@ == head + cells@.take(k as int),
        decreases cells@.len() - k,
    {
        out.push(cells[k]);
        k = k + 1;
        assert(out@ =~= head + cells@.take(k as int));
    }
    assert(cells@.take(k as int) =~= cells@);
    out
}

/// Read a tile map file. Anything but a well-formed file is `BadFormat`.
pub fn tilemap_from_bytes(data: &[u8]) -> (r: Result<crate::render::TileMap, AssetError>)
    ensures
        map_ok(data@) <==> r is Ok,
        !map_ok(data@) ==> (r matches Err(AssetError::BadFormat)),
        r matches Ok(m) ==> {
            &&& m.width == stated_u16(data@, 5)
            &&& m.height == stated_u16(data@, 7)
            &&& m.cells@ == data@.skip(9)
            &&& m.wf()
        },
{
    if data.len() < 9 || data[0] != 83 || data[1] != 77 || data[2] != 76 || data[3] != 77 {
        proof {
            if data@.len() >= 9 {
                assert(data@.take(4)[0] == data@[0] && data@.take(4)[1] == data@[1]);
                assert(data@.take(4)[2] == data@[2] && data@.take(4)[3] == data@[3]);
            }
        }
        return Err(AssetError::BadFormat);
    }
    assert(data@.take(4) =~= map_magic());
    if data[4] != FORMAT_VERSION {
        return Err(AssetError::BadFormat);
    }
    let width = data[5] as usize + data[6] as usize * 256;
    let height = data[7] as usize + data[8] as usize * 256;
    assert(width * height <= 0xFFFF * 0xFFFF) by (nonlinear_arith)
        requires width <= 0xFFFF, height <= 0xFFFF;
    let area = width as u64 * height as u64;
    if (data.len() - 9) as u64 != area {
        return Err(AssetError::BadFormat);
    }
    let mut cells: Vec<u8> = Vec::new();
    let mut k: usize = 9;
    while k < data.len()
        invariant
            9 <= k <= data@.len(),
            cells@ == data@.subrange(9, k as int),
        decreases data@.len() - k,
    {
        cells.push(data[k]);
        k = k + 1;
        assert(cells@ =~= data@.subrange(9, k as int));
    }
    assert(cells@ =~= data@.skip(9));
    Ok(crate::render::TileMap::new(width, height, cells))
}

/// Writing a tile map and reading it back gives the same map, for any map
/// whose width and height fit in 16 bits and whose cells fill it.
pub proof fn lemma_tilemap_round_trip(width: usize, height: usize, cells: Seq<u8>)
    requires
        width < 0x1_0000,
        height < 0x1_0000,
        cells.len() == width * height,
    ensures
        map_ok(map_bytes(width as u16, height as u16, cells)),
        stated_u16(map_bytes(width as u16, height as u16, cells), 5) == width,
        stated_u16(map_bytes(width as u16, height as u16, cells), 7) == height,
        map_bytes(width as u16, height as u16, cells).skip(9) == cells,
{
    let data = map_bytes(width as u16, height as u16, cells);
    assert(data.take(4) =~= map_magic());
    assert(data.skip(9) =~= cells);
    assert((width as u16) as int == width && (height as u16) as int == height);
}

} // verus!
