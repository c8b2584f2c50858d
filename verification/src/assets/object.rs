//! The cartridge's object lists: where a level's enemies and items start.
//!
//! Terrain comes from the column records in [`super::level`]. Everything that
//! moves comes from a second, much smaller table, one list per level.
//!
//! A record is three bytes and a list ends on `0xFF`:
//!
//! ```text
//! x      position, in units of 16 pixels (two columns)
//! y      low nibble is the row plus 2, high nibble is a pixel offset on x
//! kind   what to create, with the top bit marking an expert-mode-only object
//! ```
//!
//! Records are sorted by `x`, so the game walks a list once, forward, as the
//! camera moves right.
use super::{verify_data_outcome, AssetError};
use crate::rom::{verify_data, VerifyError};
use vstd::prelude::*;

verus! {

/// World 1-1's object list.
pub const LEVEL_1_1_OBJECTS: usize = 0x0A002;
/// World 1-2's object list, two bytes past the terminator of 1-1's.
pub const LEVEL_1_2_OBJECTS: usize = 0x0A073;
/// World 1-3's object list, one byte past 1-2's terminator.
pub const LEVEL_1_3_OBJECTS: usize = 0x0A0FE;
/// World 2-1's object list, in ROM bank 1 alongside World 2's terrain.
pub const LEVEL_2_1_OBJECTS: usize = 0x05179;
/// World 2-2's object list.
pub const LEVEL_2_2_OBJECTS: usize = 0x05222;
/// World 2-3's object list.
pub const LEVEL_2_3_OBJECTS: usize = 0x0529B;

/// The three levels of World 1 and their object lists, in order.
pub const WORLD_1_OBJECTS: [(&'static str, usize); 3] = [
    ("1-1", LEVEL_1_1_OBJECTS),
    ("1-2", LEVEL_1_2_OBJECTS),
    ("1-3", LEVEL_1_3_OBJECTS),
];

/// World 2's three object lists, in order.
pub const WORLD_2_OBJECTS: [(&'static str, usize); 3] = [
    ("2-1", LEVEL_2_1_OBJECTS),
    ("2-2", LEVEL_2_2_OBJECTS),
    ("2-3", LEVEL_2_3_OBJECTS),
];

const RECORD: usize = 3;
const LIST_END: u8 = 0xFF;

/// Marks a record that only appears in expert mode, the harder replay the
/// cartridge unlocks once the game has been finished.
pub const EXPERT_ONLY: u8 = 0x80;
/// A row byte counts from the top of the screen, above the status bar.
pub const ROW_OFFSET: i32 = 2;
/// One step of `x` is 16 pixels, two columns.
pub const PIXELS_PER_STEP: usize = 16;

/// One record of a level's object list, as stored.
#[derive(Debug, Clone, Copy, PartialEq, Eq, Structural)]
pub struct ObjectRecord {
    pub x: u8,
    pub y: u8,
    pub kind: u8,
}

impl ObjectRecord {
    /// The left edge in world pixels: 16 per step of `x`, plus the high nibble
    /// of `y`.
    pub open spec fn pixel_x_spec(self) -> int {
        self.x * 16 + self.y / 16
    }

    /// The playfield row: the low nibble of `y`, less two.
    pub open spec fn row_spec(self) -> int {
        self.y % 16 - 2
    }

    /// The kind with the expert flag cleared.
    pub open spec fn kind_id_spec(self) -> u8 {
        self.kind % 128
    }

    /// Whether the expert flag is set.
    pub open spec fn expert_spec(self) -> bool {
        self.kind >= 128
    }

    /// The object's world position in pixels, left edge.
    pub fn pixel_x(&self) -> (r: usize)
        ensures
            r == self.pixel_x_spec(),
    {
        proof {
            let y = self.y;
            assert(y >> 4 == y / 16) by (bit_vector);
        }
        self.x as usize * PIXELS_PER_STEP + (self.y >> 4) as usize
    }

    /// The column the object starts in.
    pub fn column(&self) -> (r: usize)
        ensures
            r == self.pixel_x_spec() / 8,
    {
        self.pixel_x() / 8
    }

    /// The playfield row the object occupies. Can be negative: a row byte of
    /// 0 or 1 is above the playfield.
    pub fn row(&self) -> (r: i32)
        ensures
            r == self.row_spec(),
    {
        proof {
            let y = self.y;
            assert(y & 0x0F == y % 16) by (bit_vector);
        }
        (self.y & 0x0F) as i32 - ROW_OFFSET
    }

    /// Whether this record is one of the extra objects expert mode adds.
    pub fn expert_only(&self) -> (r: bool)
        ensures
            r == self.expert_spec(),
    {
        proof {
            let k = self.kind;
            assert((k & 0x80 != 0) == (k >= 128)) by (bit_vector);
        }
        self.kind & EXPERT_ONLY != 0
    }

    /// The kind byte without the expert flag.
    pub fn kind_id(&self) -> (r: u8)
        ensures
            r == self.kind_id_spec(),
    {
        proof {
            let k = self.kind;
            assert(k & !0x80u8 == k % 128) by (bit_vector);
        }
        self.kind & !EXPERT_ONLY
    }
}

/// Which pass through the cartridge a level is being played on.
#[derive(Debug, Clone, Copy, PartialEq, Eq, Structural, Default)]
pub enum Mode {
    /// The first play through. Expert-only records stay out.
    #[default]
    Normal,
    /// The replay unlocked by finishing the game, which adds every record.
    Expert,
}

/// The records of the list at `rom[i..]`: three bytes at a time until a
/// `0xFF` where a record would start, or until no whole record is left.
pub open spec fn records_from(rom: Seq<u8>, i: int) -> Seq<ObjectRecord>
    decreases rom.len() - i,
{
    if i < 0 || i + 3 > rom.len() || rom[i] == 0xFF {
        seq![]
    } else {
        seq![ObjectRecord { x: rom[i], y: rom[i + 1], kind: rom[i + 2] }] + records_from(rom, i + 3)
    }
}

/// Read a level's object list from `start` until its `0xFF` terminator.
pub fn object_list(rom: &[u8], start: usize) -> (r: Vec<ObjectRecord>)
    ensures
        r@ == records_from(rom@, start as int),
{
    let mut out: Vec<ObjectRecord> = Vec::new();
    let mut i = start;
    let n = rom.len();
    while i <= n && n - i >= RECORD && rom[i] != LIST_END
        invariant
            n == rom@.len(),
            start <= i,
            out@ + records_from(rom@, i as int) == records_from(rom@, start as int),
        decreases n - i,
    {
        let rec = ObjectRecord { x: rom[i], y: rom[i + 1], kind: rom[i + 2] };
        let ghost before = out@;
        out.push(rec);
        proof {
            assert(out@ + records_from(rom@, i + 3) =~= before + records_from(rom@, i as int));
        }
        i = i + RECORD;
    }
    proof {
        assert(records_from(rom@, i as int) =~= Seq::<ObjectRecord>::empty());
        assert(out@ =~= out@ + records_from(rom@, i as int));
    }
    out
}

/// Whether `mode` acts on `r`: expert mode acts on every record, normal play
/// on those without the expert flag.
pub open spec fn acts_on(mode: Mode, r: ObjectRecord) -> bool {
    mode == Mode::Expert || !r.expert_spec()
}

/// The records `mode` acts on, in list order.
pub open spec fn spawns_in(records: Seq<ObjectRecord>, mode: Mode) -> Seq<ObjectRecord> {
    records.filter(|r: ObjectRecord| acts_on(mode, r))
}

/// The records normal play actually acts on, in the order the game meets them.
pub fn spawning(records: &[ObjectRecord]) -> (r: Vec<ObjectRecord>)
    ensures
        r@ == spawns_in(records@, Mode::Normal),
{
    spawning_in(records, Mode::Normal)
}

/// The records a given mode acts on. Expert mode adds to normal play rather
/// than replacing it: every record spawns.
pub fn spawning_in(records: &[ObjectRecord], mode: Mode) -> (r: Vec<ObjectRecord>)
    ensures
        r@ == spawns_in(records@, mode),
{
    let ghost pred = |r: ObjectRecord| acts_on(mode, r);
    let mut out: Vec<ObjectRecord> = Vec::new();
    let mut k: usize = 0;
    while k < records.len()
        invariant
            k <= records@.len(),
            pred == (|r: ObjectRecord| acts_on(mode, r)),
            out@ == records@.take(k as int).filter(pred),
        decreases records@.len() - k,
    {
        let rec = records[k];
        proof {
            assert(records@.take(k + 1).drop_last() =~= records@.take(k as int));
            assert(records@.take(k + 1).last() == rec);
            assert(records@.take(k + 1) =~= records@.take(k as int).push(rec));
            records@.take(k as int).lemma_filter_push(rec, pred);
        }
        if mode == Mode::Expert || !rec.expert_only() {
            out.push(rec);
        }
        k = k + 1;
    }
    proof {
        assert(records@.take(k as int) =~= records@);
    }
    out
}

/// The ground walker that steps off ledges.
pub const WALKER: u8 = 0x00;
/// The ground walker that turns at ledges.
pub const LEDGE_TURNER: u8 = 0x04;
/// The jumper.
pub const HOPPER: u8 = 0x0E;
/// The lift that moves on Y.
pub const LIFT_VERTICAL: u8 = 0x0A;
/// The lift that moves on X.
pub const LIFT_HORIZONTAL: u8 = 0x0B;
/// The drop block.
pub const DROP_BLOCK: u8 = 0x36;
/// The faller.
pub const FALLER: u8 = 0x0C;
/// Bunbun.
pub const BUNBUN: u8 = 0x42;
/// Gao.
pub const GAO: u8 = 0x3F;
/// Honen, World 2's leaping fish.
pub const HONEN: u8 = 0x10;
/// King Totomesu, World 1-3's boss.
pub const KING_TOTOMESU: u8 = 0x08;

/// The cells of the records whose kind is `a` or `b` and whose row is on or
/// below the top of the playfield, each with whether its kind is `tag`, in
/// list order.
pub open spec fn cells_of(records: Seq<ObjectRecord>, a: u8, b: u8, tag: u8) -> Seq<(usize, usize, bool)>
    decreases records.len(),
{
    if records.len() == 0 {
        seq![]
    } else {
        let rest = cells_of(records.drop_last(), a, b, tag);
        let r = records.last();
        if (r.kind_id_spec() == a || r.kind_id_spec() == b) && r.row_spec() >= 0 {
            rest.push(((r.pixel_x_spec() / 8) as usize, r.row_spec() as usize, r.kind_id_spec() == tag))
        } else {
            rest
        }
    }
}

/// Column and row only.
pub open spec fn untagged(cells: Seq<(usize, usize, bool)>) -> Seq<(usize, usize)> {
    cells.map_values(|c: (usize, usize, bool)| (c.0, c.1))
}

fn cells_where(records: &[ObjectRecord], mode: Mode, a: u8, b: u8, tag: u8) -> (r: Vec<(usize, usize, bool)>)
    ensures
        r@ == cells_of(spawns_in(records@, mode), a, b, tag),
{
    let spawned = spawning_in(records, mode);
    let mut out: Vec<(usize, usize, bool)> = Vec::new();
    let mut k: usize = 0;
    while k < spawned.len()
        invariant
            k <= spawned@.len(),
            out@ == cells_of(spawned@.take(k as int), a, b, tag),
        decreases spawned@.len() - k,
    {
        let rec = spawned[k];
        proof {
            assert(spawned@.take(k + 1).drop_last() =~= spawned@.take(k as int));
            assert(spawned@.take(k + 1).last() == rec);
        }
        let id = rec.kind_id();
        if id == a || id == b {
            let row = rec.row();
            if row >= 0 {
                out.push((rec.column(), row as usize, id == tag));
            }
        }
        k = k + 1;
    }
    proof {
        assert(spawned@.take(k as int) =~= spawned@);
    }
    out
}

fn drop_tags(cells: Vec<(usize, usize, bool)>) -> (r: Vec<(usize, usize)>)
    ensures
        r@ == untagged(cells@),
{
    let mut out: Vec<(usize, usize)> = Vec::new();
    let mut k: usize = 0;
    while k < cells.len()
        invariant
            k <= cells@.len(),
            out@ == untagged(cells@.take(k as int)),
        decreases cells@.len() - k,
    {
        let (c, r, _) = cells[k];
        proof {
            assert(untagged(cells@.take(k + 1)) =~= untagged(cells@.take(k as int)).push((c, r)));
        }
        out.push((c, r));
        k = k + 1;
    }
    proof {
        assert(cells@.take(k as int) =~= cells@);
    }
    out
}

/// Where a level puts its lifts, as (column, row, vertical).
pub fn lift_spawns(records: &[ObjectRecord], mode: Mode) -> (r: Vec<(usize, usize, bool)>)
    ensures
        r@ == cells_of(spawns_in(records@, mode), LIFT_VERTICAL, LIFT_HORIZONTAL, LIFT_VERTICAL),
{
    cells_where(records, mode, LIFT_VERTICAL, LIFT_HORIZONTAL, LIFT_VERTICAL)
}

/// Where a level puts its drop blocks, as (column, row).
pub fn drop_block_spawns(records: &[ObjectRecord], mode: Mode) -> (r: Vec<(usize, usize)>)
    ensures
        r@ == untagged(cells_of(spawns_in(records@, mode), DROP_BLOCK, DROP_BLOCK, DROP_BLOCK)),
{
    drop_tags(cells_where(records, mode, DROP_BLOCK, DROP_BLOCK, DROP_BLOCK))
}

/// Where a level puts its fallers, as (column, row).
pub fn faller_spawns(records: &[ObjectRecord], mode: Mode) -> (r: Vec<(usize, usize)>)
    ensures
        r@ == untagged(cells_of(spawns_in(records@, mode), FALLER, FALLER, FALLER)),
{
    drop_tags(cells_where(records, mode, FALLER, FALLER, FALLER))
}

/// Where a level puts its Bunbuns, as (column, row).
pub fn bunbun_spawns(records: &[ObjectRecord], mode: Mode) -> (r: Vec<(usize, usize)>)
    ensures
        r@ == untagged(cells_of(spawns_in(records@, mode), BUNBUN, BUNBUN, BUNBUN)),
{
    drop_tags(cells_where(records, mode, BUNBUN, BUNBUN, BUNBUN))
}

/// Where a level puts its Gaos, as (column, row).
pub fn gao_spawns(records: &[ObjectRecord], mode: Mode) -> (r: Vec<(usize, usize)>)
    ensures
        r@ == untagged(cells_of(spawns_in(records@, mode), GAO, GAO, GAO)),
{
    drop_tags(cells_where(records, mode, GAO, GAO, GAO))
}

/// Where a level puts its Honen, as (column, row).
pub fn honen_spawns(records: &[ObjectRecord], mode: Mode) -> (r: Vec<(usize, usize)>)
    ensures
        r@ == untagged(cells_of(spawns_in(records@, mode), HONEN, HONEN, HONEN)),
{
    drop_tags(cells_where(records, mode, HONEN, HONEN, HONEN))
}

/// Where a level puts King Totomesu, as (column, row).
pub fn king_totomesu_spawns(records: &[ObjectRecord], mode: Mode) -> (r: Vec<(usize, usize)>)
    ensures
        r@ == untagged(cells_of(spawns_in(records@, mode), KING_TOTOMESU, KING_TOTOMESU, KING_TOTOMESU)),
{
    drop_tags(cells_where(records, mode, KING_TOTOMESU, KING_TOTOMESU, KING_TOTOMESU))
}

/// Where a level puts its jumpers, as (column, row).
pub fn fly_spawns(records: &[ObjectRecord], mode: Mode) -> (r: Vec<(usize, usize)>)
    ensures
        r@ == untagged(cells_of(spawns_in(records@, mode), HOPPER, HOPPER, HOPPER)),
{
    drop_tags(cells_where(records, mode, HOPPER, HOPPER, HOPPER))
}

/// Where a level puts its ground walkers, as (column, row, turns at ledges).
/// Only these two kinds: the others have not been measured.
pub fn walker_spawns(records: &[ObjectRecord], mode: Mode) -> (r: Vec<(usize, usize, bool)>)
    ensures
        r@ == cells_of(spawns_in(records@, mode), WALKER, LEDGE_TURNER, LEDGE_TURNER),
{
    cells_where(records, mode, WALKER, LEDGE_TURNER, LEDGE_TURNER)
}


/// Cells with a marker byte each: `yes` where the cell's tag is set, `no`
/// where it is not.
pub open spec fn marked(cells: Seq<(usize, usize, bool)>, yes: u8, no: u8) -> Seq<(usize, usize, u8)> {
    cells.map_values(|c: (usize, usize, bool)| (c.0, c.1, if c.2 { yes } else { no }))
}

/// The markers a level's text gets from its object records: `T` for a ground
/// walker that turns at ledges and `G` for one that does not, `V` for a
/// vertical lift and `H` for a horizontal one, `J` for a jumper; walkers
/// first, then lifts, then jumpers, each in list order.
pub open spec fn markers_of(records: Seq<ObjectRecord>, mode: Mode) -> Seq<(usize, usize, u8)> {
    let live = spawns_in(records, mode);
    marked(cells_of(live, WALKER, LEDGE_TURNER, LEDGE_TURNER), 0x54, 0x47)
        + marked(cells_of(live, LIFT_VERTICAL, LIFT_HORIZONTAL, LIFT_VERTICAL), 0x56, 0x48)
        + untagged(cells_of(live, HOPPER, HOPPER, HOPPER)).map_values(|c: (usize, usize)| (c.0, c.1, 0x4au8))
}

/// Append each cell with its marker byte.
fn push_marked(out: &mut Vec<(usize, usize, u8)>, cells: &Vec<(usize, usize, bool)>, yes: u8, no: u8)
    ensures
        final(out)@ == old(out)@ + marked(cells@, yes, no),
{
    let ghost start = old(out)@;
    let mut k: usize = 0;
    while k < cells.len()
        invariant
            k <= cells@.len(),
            out@ == start + marked(cells@.take(k as int), yes, no),
        decreases cells@.len() - k,
    {
        let (c, r, tagged) = cells[k];
        let m: u8 = if tagged { yes } else { no };
        proof {
            assert(marked(cells@.take(k + 1), yes, no) =~= marked(cells@.take(k as int), yes, no).push((c, r, m)));
        }
        out.push((c, r, m));
        k = k + 1;
    }
    proof {
        assert(cells@.take(k as int) =~= cells@);
    }
}

/// The enemy and lift markers for a level's text, from its object records
/// as `mode` spawns them (see `markers_of`).
pub fn level_markers(records: &[ObjectRecord], mode: Mode) -> (r: Vec<(usize, usize, u8)>)
    ensures
        r@ == markers_of(records@, mode),
        forall|k: int| 0 <= k < r@.len() ==> 0x41 <= (#[trigger] r@[k]).2 <= 0x5a,
{
    let walkers = walker_spawns(records, mode);
    let lifts = lift_spawns(records, mode);
    let jumpers = fly_spawns(records, mode);
    let mut out: Vec<(usize, usize, u8)> = Vec::new();
    push_marked(&mut out, &walkers, 0x54, 0x47);
    push_marked(&mut out, &lifts, 0x56, 0x48);
    let ghost before = out@;
    let mut k: usize = 0;
    while k < jumpers.len()
        invariant
            k <= jumpers@.len(),
            out@ == before + jumpers@.take(k as int).map_values(|c: (usize, usize)| (c.0, c.1, 0x4au8)),
        decreases jumpers@.len() - k,
    {
        let (c, r) = jumpers[k];
        proof {
            assert(jumpers@.take(k + 1).map_values(|c: (usize, usize)| (c.0, c.1, 0x4au8))
                =~= jumpers@.take(k as int).map_values(|c: (usize, usize)| (c.0, c.1, 0x4au8)).push((c, r, 0x4au8)));
        }
        out.push((c, r, 0x4a));
        k = k + 1;
    }
    proof {
        assert(jumpers@.take(k as int) =~= jumpers@);
        assert(out@ =~= markers_of(records@, mode));
        assert forall|k: int| 0 <= k < out@.len() implies 0x41 <= (#[trigger] out@[k]).2 <= 0x5a by {
            let w = walkers@.len() as int;
            let l = lifts@.len() as int;
            if k < w {
                assert(out@[k] == marked(walkers@, 0x54, 0x47)[k]);
            } else if k < w + l {
                assert(out@[k] == marked(lifts@, 0x56, 0x48)[k - w]);
            }
        }
    }
    out
}

/// The name the cartridge's developers gave each object type, by kind with
/// the expert flag cleared; `None` for the ones they left unnamed or marked
/// as uncertain. `0x0A` and `0x0B` are both just "platform": their axes were
/// measured the other way round from the names on record.
pub open spec fn kind_label(id: u8) -> Option<Seq<char>> {
    match id {
        0x00u8 => Some("Chibibo"@),
        0x01u8 => Some("Chibibo, stomped"@),
        0x02u8 => Some("Pakkun Flower"@),
        0x03u8 => Some("Ganchan, spawning"@),
        0x04u8 => Some("Nokobon"@),
        0x05u8 => Some("Nokobon's bomb"@),
        0x06u8 => Some("Genkotsu"@),
        0x08u8 => Some("King Totomesu"@),
        0x09u8 => Some("Pompon Flower"@),
        0x0Au8 => Some("platform"@),
        0x0Bu8 => Some("platform"@),
        0x0Cu8 => Some("Falling Slab"@),
        0x0Eu8 => Some("Fly"@),
        0x0Fu8 => Some("Fly, stomped"@),
        0x10u8 => Some("Honen"@),
        0x13u8 => Some("lift"@),
        0x14u8 => Some("lift, ascending"@),
        0x16u8 => Some("Mekabon"@),
        0x17u8 => Some("Mekabon's head"@),
        0x18u8 => Some("Mekabon's body"@),
        0x1Au8 => Some("Dragonzamasu"@),
        0x1Cu8 => Some("Mekabon, stomped"@),
        0x1Du8 => Some("Yurarin"@),
        0x1Eu8 => Some("fire breath"@),
        0x20u8 => Some("Gunion"@),
        0x21u8 => Some("Gunion, exploding"@),
        0x22u8 => Some("Gunion's fireball"@),
        0x23u8 => Some("fireball"@),
        0x24u8 => Some("Yurarin Boo"@),
        0x25u8 => Some("Suu"@),
        0x27u8 => Some("explosion"@),
        0x28u8 => Some("mushroom in flight"@),
        0x29u8 => Some("mushroom"@),
        0x2Au8 => Some("heart in flight"@),
        0x2Bu8 => Some("heart"@),
        0x2Du8 => Some("flower, growing"@),
        0x2Eu8 => Some("flower"@),
        0x30u8 => Some("Torion"@),
        0x31u8 => Some("Tokotoko"@),
        0x32u8 => Some("Hiyoihoi"@),
        0x34u8 => Some("star"@),
        0x35u8 => Some("falling spike"@),
        0x36u8 => Some("drop block"@),
        0x37u8 => Some("drop block, falling"@),
        0x38u8 => Some("diagonal platform, north east"@),
        0x39u8 => Some("diagonal platform, north west"@),
        0x3Au8 => Some("small vertical platform"@),
        0x3Bu8 => Some("small horizontal platform"@),
        0x3Cu8 => Some("Batadon"@),
        0x3Du8 => Some("Batadon, stomped"@),
        0x3Fu8 => Some("Gao"@),
        0x40u8 => Some("Gao, stomped"@),
        0x42u8 => Some("Bunbun"@),
        0x43u8 => Some("Bunbun, stomped"@),
        0x45u8 => Some("arrow"@),
        0x47u8 => Some("Ganchan"@),
        0x48u8 => Some("Tamao"@),
        0x49u8 => Some("pipe cannon"@),
        0x4Bu8 => Some("Gira"@),
        0x51u8 => Some("Pompon spore"@),
        0x52u8 => Some("Roketon"@),
        0x53u8 => Some("chicken"@),
        0x54u8 => Some("Roto Disc"@),
        0x55u8 => Some("Pakkun Flower, upside down"@),
        0x56u8 => Some("Pionpi"@),
        0x57u8 => Some("Pionpi, stomped"@),
        0x59u8 => Some("Chikako"@),
        0x5Au8 => Some("Gira, diagonal"@),
        0x5Cu8 => Some("cannonball"@),
        0x5Du8 => Some("small cannonball, top"@),
        0x5Eu8 => Some("small cannonball, middle"@),
        0x5Fu8 => Some("small cannonball, bottom"@),
        0x60u8 => Some("Tatanga"@),
        0x61u8 => Some("Biokinton"@),
        _ => None,
    }
}

/// What the cartridge's own developers called each object type, whatever
/// the expert flag says; `None` where they left it unnamed.
pub fn kind_name(kind: u8) -> (r: Option<&'static str>)
    ensures
        match r {
            Some(s) => kind_label(kind % 128) == Some(s@),
            None => kind_label(kind % 128) is None,
        },
{
    proof {
        assert(kind & !0x80u8 == kind % 128) by (bit_vector);
    }
    let id = kind & !EXPERT_ONLY;
    Some(match id {
        0x00u8 => "Chibibo",
        0x01u8 => "Chibibo, stomped",
        0x02u8 => "Pakkun Flower",
        0x03u8 => "Ganchan, spawning",
        0x04u8 => "Nokobon",
        0x05u8 => "Nokobon's bomb",
        0x06u8 => "Genkotsu",
        0x08u8 => "King Totomesu",
        0x09u8 => "Pompon Flower",
        0x0Au8 => "platform",
        0x0Bu8 => "platform",
        0x0Cu8 => "Falling Slab",
        0x0Eu8 => "Fly",
        0x0Fu8 => "Fly, stomped",
        0x10u8 => "Honen",
        0x13u8 => "lift",
        0x14u8 => "lift, ascending",
        0x16u8 => "Mekabon",
        0x17u8 => "Mekabon's head",
        0x18u8 => "Mekabon's body",
        0x1Au8 => "Dragonzamasu",
        0x1Cu8 => "Mekabon, stomped",
        0x1Du8 => "Yurarin",
        0x1Eu8 => "fire breath",
        0x20u8 => "Gunion",
        0x21u8 => "Gunion, exploding",
        0x22u8 => "Gunion's fireball",
        0x23u8 => "fireball",
        0x24u8 => "Yurarin Boo",
        0x25u8 => "Suu",
        0x27u8 => "explosion",
        0x28u8 => "mushroom in flight",
        0x29u8 => "mushroom",
        0x2Au8 => "heart in flight",
        0x2Bu8 => "heart",
        0x2Du8 => "flower, growing",
        0x2Eu8 => "flower",
        0x30u8 => "Torion",
        0x31u8 => "Tokotoko",
        0x32u8 => "Hiyoihoi",
        0x34u8 => "star",
        0x35u8 => "falling spike",
        0x36u8 => "drop block",
        0x37u8 => "drop block, falling",
        0x38u8 => "diagonal platform, north east",
        0x39u8 => "diagonal platform, north west",
        0x3Au8 => "small vertical platform",
        0x3Bu8 => "small horizontal platform",
        0x3Cu8 => "Batadon",
        0x3Du8 => "Batadon, stomped",
        0x3Fu8 => "Gao",
        0x40u8 => "Gao, stomped",
        0x42u8 => "Bunbun",
        0x43u8 => "Bunbun, stomped",
        0x45u8 => "arrow",
        0x47u8 => "Ganchan",
        0x48u8 => "Tamao",
        0x49u8 => "pipe cannon",
        0x4Bu8 => "Gira",
        0x51u8 => "Pompon spore",
        0x52u8 => "Roketon",
        0x53u8 => "chicken",
        0x54u8 => "Roto Disc",
        0x55u8 => "Pakkun Flower, upside down",
        0x56u8 => "Pionpi",
        0x57u8 => "Pionpi, stomped",
        0x59u8 => "Chikako",
        0x5Au8 => "Gira, diagonal",
        0x5Cu8 => "cannonball",
        0x5Du8 => "small cannonball, top",
        0x5Eu8 => "small cannonball, middle",
        0x5Fu8 => "small cannonball, bottom",
        0x60u8 => "Tatanga",
        0x61u8 => "Biokinton",
        _ => {
            return None;
        },
    })
}

/// The expert flag never changes an object's name: `kind` and `kind` with the
/// flag set are named alike.
pub proof fn lemma_expert_flag_keeps_name(kind: u8)
    ensures
        kind_label((kind | EXPERT_ONLY) % 128) == kind_label(kind % 128),
{
    assert((kind | 0x80u8) % 128 == kind % 128) by (bit_vector);
}

/// Read a level's object list out of a ROM image, once the image is confirmed
/// to be the expected dump.
pub fn extract_objects_from(data: &[u8], start: usize) -> (r: Result<Vec<ObjectRecord>, AssetError>)
    ensures
        match r {
            Ok(v) => verify_data_outcome(data@) && v@ == records_from(data@, start as int),
            Err(e) => !verify_data_outcome(data@) && e matches AssetError::Rom(VerifyError::Mismatch(_)),
        },
{
    match verify_data(data) {
        Err(e) => Err(AssetError::Rom(e)),
        Ok(_) => Ok(object_list(data, start)),
    }
}

/// Expert mode adds to normal play rather than replacing it: it acts on
/// every record, in list order, and every record normal play acts on is
/// among them.
pub proof fn law_expert_mode_adds_every_record(records: Seq<ObjectRecord>)
    ensures
        spawns_in(records, Mode::Expert) == records,
        forall|k: int| 0 <= k < spawns_in(records, Mode::Normal).len() ==> records.contains(
            #[trigger] spawns_in(records, Mode::Normal)[k],
        ),
{
    let all = |r: ObjectRecord| acts_on(Mode::Expert, r);
    let normal = |r: ObjectRecord| acts_on(Mode::Normal, r);
    assert forall|r: ObjectRecord| #[trigger] all(r) by {}
    lemma_filter_all(records, all);
    assert forall|k: int| 0 <= k < spawns_in(records, Mode::Normal).len() implies records.contains(
        #[trigger] spawns_in(records, Mode::Normal)[k],
    ) by {
        records.lemma_filter_contains_rev(normal, spawns_in(records, Mode::Normal)[k]);
        assert(spawns_in(records, Mode::Normal).contains(spawns_in(records, Mode::Normal)[k]));
    }
}

proof fn lemma_filter_all(s: Seq<ObjectRecord>, p: spec_fn(ObjectRecord) -> bool)
    requires
        forall|r: ObjectRecord| #[trigger] p(r),
    ensures
        s.filter(p) == s,
    decreases s.len(),
{
    if s.len() > 0 {
        lemma_filter_all(s.drop_last(), p);
        s.drop_last().lemma_filter_push(s.last(), p);
        assert(s.drop_last().push(s.last()) =~= s);
    } else {
        assert(s.filter(p) =~= s);
    }
}

} // verus!
