//! The title screen, read straight out of the ROM.
//!
//! The title screen's loader copies four blocks of tile data from ROM bank 2
//! into video RAM and draws a fixed 20 by 18 map with signed tile addressing
//! (ids 0 to 127 from `0x9000`, 128 to 255 from `0x8800`).
use super::level::overlay_byte;
use super::{distinct_in_order, intern, raw_views, slot_of, verify_data_outcome, AssetError, TileSheet, DEFAULT_BGP};
use crate::rom::{verify_data, VerifyError};
use crate::tiles::{decoded, tile_bytes_at, Tile};
use vstd::prelude::*;

verus! {

/// One ROM-to-VRAM copy block for the title screen.
#[derive(Debug, Clone, Copy, PartialEq, Eq)]
pub struct TileBlock {
    pub rom_offset: usize,
    pub vram_dest: usize,
    pub size: usize,
}

/// The four tile data blocks the title screen loads, in order, as
/// `(rom, vram, size)`; ROM offsets are in bank 2.
pub open spec fn title_blocks() -> Seq<(usize, usize, usize)> {
    seq![(0x9032usize, 0x9000usize, 0x02C0usize), (0xB91A, 0x9300, 0x0500), (0xBE1A, 0x8800, 0x0170), (0x8862, 0x8AC0, 0x0010)]
}

/// The four tile data blocks the title screen loads, in order.
pub fn tile_blocks() -> (r: [TileBlock; 4])
    ensures
        forall|k: int| 0 <= k < 4 ==> (#[trigger] r@[k]).rom_offset == title_blocks()[k].0 && r@[k].vram_dest
            == title_blocks()[k].1 && r@[k].size == title_blocks()[k].2,
{
    [
        TileBlock { rom_offset: 0x9032, vram_dest: 0x9000, size: 0x02C0 },
        TileBlock { rom_offset: 0xB91A, vram_dest: 0x9300, size: 0x0500 },
        TileBlock { rom_offset: 0xBE1A, vram_dest: 0x8800, size: 0x0170 },
        TileBlock { rom_offset: 0x8862, vram_dest: 0x8AC0, size: 0x0010 },
    ]
}

/// VRAM tile data spans `0x8000..0x9800`.
pub const VRAM_TILE_BASE: usize = 0x8000;
/// 6144 bytes, 384 tiles of 16 bytes each.
pub const VRAM_TILE_SIZE: usize = 0x1800;

/// The font and coin tiles are copied to `0x8000` too, from the same place as
/// the first block.
const EXTRA_SOURCE: usize = 0x9032;
const EXTRA_SIZE: usize = 0x02A0;

/// The shortest ROM image all four blocks fit in.
pub const TITLE_ROM_MIN: usize = 0xBF8A;

/// Video RAM's tile data while the title screen shows: the four blocks over
/// zeros, then the font copy at the bottom.
pub open spec fn title_vram(rom: Seq<u8>) -> Seq<u8> {
    Seq::new(0x1800, |i: int| if i < 0x2A0 { rom[0x9032 + i] } else { overlay_byte(Seq::new(0x1800, |j: int| 0u8), rom, title_blocks(), i) })
}

/// The end of the first block, in order, that does not fit in `len` bytes.
pub open spec fn first_missing_block(len: int) -> usize {
    if len < 0x92F2 { 0x92F2 } else if len < 0xBE1A { 0xBE1A } else { 0xBF8A }
}

/// Build video RAM's tile data from the ROM, populating only what the title
/// screen touches.
#[verifier::rlimit(40)]
fn build_vram_tiles(rom: &[u8]) -> (r: Result<Vec<u8>, AssetError>)
    ensures
        match r {
            Ok(v) => rom@.len() >= TITLE_ROM_MIN && v@ == title_vram(rom@),
            Err(AssetError::OutOfRange { end, len }) => rom@.len() < TITLE_ROM_MIN
                && end == first_missing_block(rom@.len() as int) && len == rom@.len(),
            Err(_) => false,
        },
{
    let blocks = tile_blocks();
    let mut vram: Vec<u8> = Vec::new();
    let mut i: usize = 0;
    while i < VRAM_TILE_SIZE
        invariant
            i <= VRAM_TILE_SIZE,
            vram@.len() == i,
            forall|j: int| 0 <= j < i ==> vram@[j] == 0,
        decreases VRAM_TILE_SIZE - i,
    {
        vram.push(0);
        i = i + 1;
    }
    let ghost zeros = Seq::new(0x1800, |j: int| 0u8);
    assert(vram@ =~= zeros);
    let mut b: usize = 0;
    while b < 4
        invariant
            b <= 4,
            forall|k: int| 0 <= k < 4 ==> (#[trigger] blocks@[k]).rom_offset == title_blocks()[k].0 && blocks@[k].vram_dest
                == title_blocks()[k].1 && blocks@[k].size == title_blocks()[k].2,
            zeros == Seq::new(0x1800, |j: int| 0u8),
            vram@.len() == 0x1800,
            b >= 1 ==> rom@.len() >= 0x92F2,
            b >= 2 ==> rom@.len() >= 0xBE1A,
            b >= 3 ==> rom@.len() >= 0xBF8A,
            forall|j: int| 0 <= j < 0x1800 ==> #[trigger] vram@[j] == overlay_byte(zeros, rom@, title_blocks().take(b as int), j),
        decreases 4 - b,
    {
        let block = blocks[b];
        let end = block.rom_offset + block.size;
        if end > rom.len() {
            return Err(AssetError::OutOfRange { end, len: rom.len() });
        }
        let at = block.vram_dest - VRAM_TILE_BASE;
        let ghost before = vram@;
        let mut k: usize = 0;
        while k < block.size
            invariant
                k <= block.size,
                block.rom_offset == title_blocks()[b as int].0 && block.vram_dest == title_blocks()[b as int].1
                    && block.size == title_blocks()[b as int].2,
                b < 4,
                at == block.vram_dest - 0x8000,
                at + block.size <= 0x1800,
                block.rom_offset + block.size <= rom@.len(),
                vram@.len() == 0x1800,
                forall|j: int| 0 <= j < 0x1800 ==> #[trigger] vram@[j] == (if at <= j < at + k { rom@[block.rom_offset + (j - at)] } else { before[j] }),
            decreases block.size - k,
        {
            vram.set(at + k, rom[block.rom_offset + k]);
            k = k + 1;
        }
        proof {
            assert(title_blocks().take(b + 1).drop_last() =~= title_blocks().take(b as int));
            assert(title_blocks().take(b + 1).last() == title_blocks()[b as int]);
        }
        b = b + 1;
    }
    assert(title_blocks().take(4) =~= title_blocks());
    let ghost placed = vram@;
    let mut k: usize = 0;
    while k < EXTRA_SIZE
        invariant
            k <= EXTRA_SIZE,
            rom@.len() >= 0xBF8A,
            vram@.len() == 0x1800,
            forall|j: int| 0 <= j < 0x1800 ==> #[trigger] vram@[j] == (if j < k { rom@[0x9032 + j] } else { placed[j] }),
        decreases EXTRA_SIZE - k,
    {
        vram.set(k, rom[EXTRA_SOURCE + k]);
        k = k + 1;
    }
    assert(vram@ =~= title_vram(rom@));
    Ok(vram)
}

/// Where tile `index` lives in video RAM with signed addressing: 0 to 127
/// from `0x9000`, 128 to 255 from `0x8800`.
pub open spec fn vram_addr(index: u8) -> usize {
    if index < 128 { (0x9000 + index * 16) as usize } else { (0x8800 + (index - 128) * 16) as usize }
}

/// Resolve a tile map index to its tile data's address with the Game Boy's
/// signed addressing mode.
pub fn tile_vram_addr(index: u8) -> (r: usize)
    ensures
        r == vram_addr(index),
        0x8800 <= r <= 0x97F0,
{
    if index < 128 {
        0x9000 + (index as usize) * 16
    } else {
        0x8800 + ((index as usize) - 128) * 16
    }
}

/// The 20 by 18 tile ids the title screen draws, row by row.
#[verifier::opaque]
pub open spec fn title_map() -> Seq<u8> {
    seq![
        0x3C, 0x3C, 0x3C, 0x3C, 0x94, 0x3C, 0x3C, 0x3C, 0x3C, 0x3C, 0x3C, 0x3C, 0x3C, 0x3C, 0x3C, 0x3C, 0x3C, 0x3C, 0x3C, 0x3C,
        0x2C, 0x2C, 0x95, 0x96, 0x8C, 0x2C, 0x2C, 0x2C, 0x2C, 0x2C, 0x2C, 0x2C, 0x2C, 0x2C, 0x2C, 0x3F, 0x4C, 0x4D, 0x2C, 0x2C,
        0x2C, 0x30, 0x8D, 0x8E, 0x8F, 0x31, 0x31, 0x31, 0x84, 0x85, 0x85, 0x86, 0x31, 0x31, 0x31, 0x31, 0x31, 0x31, 0x32, 0x2C,
        0x2C, 0x90, 0x91, 0x41, 0x41, 0x33, 0x34, 0x35, 0x36, 0x37, 0x38, 0x39, 0x3A, 0x3B, 0x41, 0x41, 0x41, 0x92, 0x42, 0x2C,
        0x2C, 0x82, 0x2C, 0x2C, 0x2C, 0x43, 0x44, 0x45, 0x46, 0x47, 0x48, 0x49, 0x4A, 0x4B, 0x2C, 0x2C, 0x2C, 0x2C, 0x83, 0x2C,
        0x2C, 0x82, 0x50, 0x51, 0x52, 0x53, 0x54, 0x55, 0x56, 0x57, 0x58, 0x59, 0x5A, 0x5B, 0x2C, 0x2C, 0x2C, 0x2C, 0x83, 0x2C,
        0x2C, 0x82, 0x60, 0x61, 0x62, 0x63, 0x64, 0x65, 0x66, 0x67, 0x68, 0x69, 0x6A, 0x6B, 0x6C, 0x6D, 0x6E, 0x2C, 0x83, 0x2C,
        0x2C, 0x93, 0x70, 0x71, 0x72, 0x73, 0x74, 0x75, 0x76, 0x77, 0x78, 0x79, 0x7A, 0x7B, 0x7C, 0x7D, 0x7E, 0x7F, 0x83, 0x2C,
        0x2C, 0x6F, 0x80, 0x80, 0x80, 0x80, 0x80, 0x80, 0x88, 0x80, 0x80, 0x87, 0x80, 0x80, 0x80, 0x80, 0x80, 0x80, 0x81, 0x2C,
        0x8A, 0x8B, 0x89, 0x8A, 0x8B, 0x2C, 0x2C, 0x2C, 0x82, 0x2C, 0x2C, 0x83, 0x2C, 0x2C, 0x2C, 0x2C, 0x2C, 0x2C, 0x89, 0x8A,
        0x3D, 0x3D, 0x3D, 0x3D, 0x3D, 0x3D, 0x3D, 0x3D, 0x3D, 0x3D, 0x3D, 0x3D, 0x3D, 0x3D, 0x3D, 0x3D, 0x3D, 0x3D, 0x3D, 0x3D,
        0x2C, 0x2C, 0x2C, 0x2C, 0x2C, 0x1D, 0x18, 0x19, 0x29, 0x2C, 0x2C, 0x2C, 0x2C, 0x2C, 0x00, 0x2C, 0x2C, 0x2C, 0x2C, 0x2C,
        0x2C, 0x2C, 0x2C, 0x2C, 0x2C, 0x2C, 0x2C, 0x2C, 0x2C, 0x2C, 0x2C, 0x2C, 0x2C, 0x2C, 0x2C, 0x2C, 0x2C, 0x2C, 0x2C, 0x2C,
        0x2C, 0x2C, 0x2C, 0x2C, 0x2C, 0x2C, 0x1C, 0x1D, 0x0A, 0x1B, 0x1D, 0x2C, 0x2C, 0x2C, 0x2C, 0x2C, 0x2C, 0x2C, 0x2C, 0x2C,
        0x2C, 0x2C, 0x2C, 0x2C, 0x2C, 0x2C, 0x2C, 0x2C, 0x2C, 0x2C, 0x2C, 0x2C, 0x2C, 0x2C, 0x2C, 0x2C, 0x2C, 0x2C, 0x2C, 0x2C,
        0x2C, 0x2C, 0x2C, 0x2C, 0x2C, 0x2C, 0x2C, 0x2C, 0x2C, 0x2C, 0x2C, 0x2C, 0x2C, 0x2C, 0x2C, 0x2C, 0x2C, 0x2C, 0x2C, 0x2C,
        0x2C, 0x2C, 0x2C, 0x2C, 0x3E, 0x01, 0x09, 0x08, 0x09, 0x2C, 0x4E, 0x4F, 0x5C, 0x5D, 0x5E, 0x5F, 0x2C, 0x2C, 0x2C, 0x2C,
        0x2C, 0x2C, 0x2C, 0x2C, 0x2C, 0x2C, 0x2C, 0x2C, 0x2C, 0x2C, 0x2C, 0x2C, 0x2C, 0x2C, 0x2C, 0x2C, 0x2C, 0x2C, 0x2C, 0x2C,
    ]
}

/// The 20 by 18 tile ids the title screen draws.
fn title_screen_map() -> (r: Vec<u8>)
    ensures
        r@ == title_map(),
{
    let ids: [u8; 360] = [
        0x3C, 0x3C, 0x3C, 0x3C, 0x94, 0x3C, 0x3C, 0x3C, 0x3C, 0x3C, 0x3C, 0x3C, 0x3C, 0x3C, 0x3C, 0x3C, 0x3C, 0x3C, 0x3C, 0x3C,
        0x2C, 0x2C, 0x95, 0x96, 0x8C, 0x2C, 0x2C, 0x2C, 0x2C, 0x2C, 0x2C, 0x2C, 0x2C, 0x2C, 0x2C, 0x3F, 0x4C, 0x4D, 0x2C, 0x2C,
        0x2C, 0x30, 0x8D, 0x8E, 0x8F, 0x31, 0x31, 0x31, 0x84, 0x85, 0x85, 0x86, 0x31, 0x31, 0x31, 0x31, 0x31, 0x31, 0x32, 0x2C,
        0x2C, 0x90, 0x91, 0x41, 0x41, 0x33, 0x34, 0x35, 0x36, 0x37, 0x38, 0x39, 0x3A, 0x3B, 0x41, 0x41, 0x41, 0x92, 0x42, 0x2C,
        0x2C, 0x82, 0x2C, 0x2C, 0x2C, 0x43, 0x44, 0x45, 0x46, 0x47, 0x48, 0x49, 0x4A, 0x4B, 0x2C, 0x2C, 0x2C, 0x2C, 0x83, 0x2C,
        0x2C, 0x82, 0x50, 0x51, 0x52, 0x53, 0x54, 0x55, 0x56, 0x57, 0x58, 0x59, 0x5A, 0x5B, 0x2C, 0x2C, 0x2C, 0x2C, 0x83, 0x2C,
        0x2C, 0x82, 0x60, 0x61, 0x62, 0x63, 0x64, 0x65, 0x66, 0x67, 0x68, 0x69, 0x6A, 0x6B, 0x6C, 0x6D, 0x6E, 0x2C, 0x83, 0x2C,
        0x2C, 0x93, 0x70, 0x71, 0x72, 0x73, 0x74, 0x75, 0x76, 0x77, 0x78, 0x79, 0x7A, 0x7B, 0x7C, 0x7D, 0x7E, 0x7F, 0x83, 0x2C,
        0x2C, 0x6F, 0x80, 0x80, 0x80, 0x80, 0x80, 0x80, 0x88, 0x80, 0x80, 0x87, 0x80, 0x80, 0x80, 0x80, 0x80, 0x80, 0x81, 0x2C,
        0x8A, 0x8B, 0x89, 0x8A, 0x8B, 0x2C, 0x2C, 0x2C, 0x82, 0x2C, 0x2C, 0x83, 0x2C, 0x2C, 0x2C, 0x2C, 0x2C, 0x2C, 0x89, 0x8A,
        0x3D, 0x3D, 0x3D, 0x3D, 0x3D, 0x3D, 0x3D, 0x3D, 0x3D, 0x3D, 0x3D, 0x3D, 0x3D, 0x3D, 0x3D, 0x3D, 0x3D, 0x3D, 0x3D, 0x3D,
        0x2C, 0x2C, 0x2C, 0x2C, 0x2C, 0x1D, 0x18, 0x19, 0x29, 0x2C, 0x2C, 0x2C, 0x2C, 0x2C, 0x00, 0x2C, 0x2C, 0x2C, 0x2C, 0x2C,
        0x2C, 0x2C, 0x2C, 0x2C, 0x2C, 0x2C, 0x2C, 0x2C, 0x2C, 0x2C, 0x2C, 0x2C, 0x2C, 0x2C, 0x2C, 0x2C, 0x2C, 0x2C, 0x2C, 0x2C,
        0x2C, 0x2C, 0x2C, 0x2C, 0x2C, 0x2C, 0x1C, 0x1D, 0x0A, 0x1B, 0x1D, 0x2C, 0x2C, 0x2C, 0x2C, 0x2C, 0x2C, 0x2C, 0x2C, 0x2C,
        0x2C, 0x2C, 0x2C, 0x2C, 0x2C, 0x2C, 0x2C, 0x2C, 0x2C, 0x2C, 0x2C, 0x2C, 0x2C, 0x2C, 0x2C, 0x2C, 0x2C, 0x2C, 0x2C, 0x2C,
        0x2C, 0x2C, 0x2C, 0x2C, 0x2C, 0x2C, 0x2C, 0x2C, 0x2C, 0x2C, 0x2C, 0x2C, 0x2C, 0x2C, 0x2C, 0x2C, 0x2C, 0x2C, 0x2C, 0x2C,
        0x2C, 0x2C, 0x2C, 0x2C, 0x3E, 0x01, 0x09, 0x08, 0x09, 0x2C, 0x4E, 0x4F, 0x5C, 0x5D, 0x5E, 0x5F, 0x2C, 0x2C, 0x2C, 0x2C,
        0x2C, 0x2C, 0x2C, 0x2C, 0x2C, 0x2C, 0x2C, 0x2C, 0x2C, 0x2C, 0x2C, 0x2C, 0x2C, 0x2C, 0x2C, 0x2C, 0x2C, 0x2C, 0x2C, 0x2C,
    ];
    assert(ids@ =~= title_map()) by {
        reveal(title_map);
    }
    let mut out: Vec<u8> = Vec::new();
    let mut k: usize = 0;
    while k < 360
        invariant
            k <= 360,
            ids@ == title_map(),
            out@ == ids@.take(k as int),
        decreases 360 - k,
    {
        out.push(ids[k]);
        k = k + 1;
        assert(out@ =~= ids@.take(k as int));
    }
    assert(ids@.take(360) =~= ids@);
    out
}

/// The 16 bytes of video RAM tile data behind tile id `index`.
pub open spec fn tile_data(vram: Seq<u8>, index: u8) -> Seq<u8> {
    let off = vram_addr(index) - 0x8000;
    vram.subrange(off, off + 16)
}

/// The tile data behind each id of `ids`.
pub open spec fn tiles_data(vram: Seq<u8>, ids: Seq<u8>) -> Seq<Seq<u8>> {
    Seq::new(ids.len(), |k: int| tile_data(vram, ids[k]))
}

/// The tile data behind each id, in order.
pub(crate) fn gather(vram: &Vec<u8>, ids: &Vec<u8>) -> (r: Vec<[u8; 16]>)
    requires
        vram@.len() == 0x1800,
    ensures
        raw_views(r@) == tiles_data(vram@, ids@),
{
    let mut out: Vec<[u8; 16]> = Vec::new();
    let mut k: usize = 0;
    while k < ids.len()
        invariant
            k <= ids@.len(),
            vram@.len() == 0x1800,
            raw_views(out@) == tiles_data(vram@, ids@.take(k as int)),
        decreases ids@.len() - k,
    {
        let off = tile_vram_addr(ids[k]) - VRAM_TILE_BASE;
        let raw = tile_bytes_at(vram.as_slice(), off);
        let ghost before = out@;
        out.push(raw);
        proof {
            assert(raw_views(out@) =~= raw_views(before).push(raw@));
            assert(tiles_data(vram@, ids@.take(k + 1)) =~= tiles_data(vram@, ids@.take(k as int)).push(tile_data(vram@, ids@[k as int])));
            assert(raw_views(out@) =~= tiles_data(vram@, ids@.take(k + 1)));
        }
        k = k + 1;
    }
    proof {
        assert(ids@.take(k as int) =~= ids@);
    }
    out
}

/// Each encoding decoded into a tile.
pub(crate) fn decode_all(raws: &Vec<[u8; 16]>) -> (r: Vec<Tile>)
    ensures
        r@.len() == raws@.len(),
        forall|k: int| 0 <= k < raws@.len() ==> decoded(raws@[k]@, #[trigger] r@[k]),
{
    let mut out: Vec<Tile> = Vec::new();
    let mut k: usize = 0;
    while k < raws.len()
        invariant
            k <= raws@.len(),
            out@.len() == k,
            forall|j: int| 0 <= j < k ==> decoded(raws@[j]@, #[trigger] out@[j]),
        decreases raws@.len() - k,
    {
        out.push(Tile::decode(&raws[k]));
        k = k + 1;
    }
    out
}

/// `tiles` and `cells` are the sheet and map for tile ids `ids` read from
/// video RAM `vram`: the distinct tile data in order of first use, decoded,
/// and for each id its index among them after `base` tiles that come first.
pub open spec fn sheet_matches(vram: Seq<u8>, ids: Seq<u8>, tiles: Seq<Tile>, cells: Seq<u8>, base: int) -> bool {
    let d = distinct_in_order(tiles_data(vram, ids));
    &&& tiles.len() == d.len()
    &&& forall|k: int| 0 <= k < d.len() ==> decoded(d[k], #[trigger] tiles[k])
    &&& cells.len() == ids.len()
    &&& forall|k: int| 0 <= k < ids.len() ==> #[trigger] cells[k] == slot_of(d, tile_data(vram, ids[k]), base)
}

pub(crate) proof fn lemma_sheet_matches(
    vram: Seq<u8>,
    ids: Seq<u8>,
    raws: Seq<[u8; 16]>,
    distinct: Seq<[u8; 16]>,
    cells: Seq<u8>,
    tiles: Seq<Tile>,
    base: int,
)
    requires
        raw_views(raws) == tiles_data(vram, ids),
        raw_views(distinct) == distinct_in_order(raw_views(raws)),
        cells.len() == raws.len(),
        forall|k: int| 0 <= k < raws.len() ==> #[trigger] cells[k] == slot_of(distinct_in_order(raw_views(raws)), raws[k]@, base),
        tiles.len() == distinct.len(),
        forall|k: int| 0 <= k < distinct.len() ==> decoded(distinct[k]@, #[trigger] tiles[k]),
    ensures
        sheet_matches(vram, ids, tiles, cells, base),
{
    let d = distinct_in_order(tiles_data(vram, ids));
    assert forall|k: int| 0 <= k < d.len() implies decoded(d[k], #[trigger] tiles[k]) by {
        assert(raw_views(distinct)[k] == distinct[k]@);
    }
    assert forall|k: int| 0 <= k < ids.len() implies #[trigger] cells[k] == slot_of(d, tile_data(vram, ids[k]), base) by {
        assert(raw_views(raws)[k] == raws[k]@);
    }
}

/// The title screen's tile sheet and map, from a ROM image once it is
/// confirmed to be the expected dump: the distinct tiles in order of first use
/// on the map, and for each of the 20 by 18 cells its index into them, with
/// the map's width and height.
pub fn extract_title_from(data: &[u8]) -> (r: Result<(TileSheet, Vec<u8>, usize, usize), AssetError>)
    ensures
        match r {
            Ok((sheet, cells, w, h)) => {
                &&& verify_data_outcome(data@)
                &&& data@.len() >= TITLE_ROM_MIN
                &&& w == 20 && h == 18
                &&& sheet.palette == DEFAULT_BGP
                &&& sheet_matches(title_vram(data@), title_map(), sheet.tiles@, cells@, 0)
            },
            Err(AssetError::Rom(VerifyError::Mismatch(_))) => !verify_data_outcome(data@),
            Err(AssetError::OutOfRange { end, len }) => verify_data_outcome(data@) && data@.len() < TITLE_ROM_MIN
                && end == first_missing_block(data@.len() as int) && len == data@.len(),
            Err(_) => false,
        },
{
    match verify_data(data) {
        Err(e) => {
            return Err(AssetError::Rom(e));
        },
        Ok(_) => {},
    }
    let vram = match build_vram_tiles(data) {
        Ok(v) => v,
        Err(e) => {
            return Err(e);
        },
    };
    let map = title_screen_map();
    let raws = gather(&vram, &map);
    let (distinct, cells) = intern(&raws, 0);
    let tiles = decode_all(&distinct);
    proof {
        lemma_sheet_matches(vram@, map@, raws@, distinct@, cells@, tiles@, 0);
    }
    Ok((TileSheet::new(tiles, DEFAULT_BGP), cells, 20, 18))
}

} // verus!
