//! Level extraction from the ROM.
//!
//! Reads a level's geometry straight out of the cartridge. Two layers.
//!
//! A **column record** is a list of runs, terminated by `0xFE`:
//!
//! ```text
//! (row << 4) | count    place `count` tiles starting at `row`
//! <count tile bytes>    the tile ids, top to bottom
//! ...                   more runs
//! 0xFE                  end of column
//! ```
//!
//! with two special cases: a `count` of 0 means a full 16 rows rather than an
//! empty run, and `0xFD <tile>` in place of the tile bytes repeats one tile for
//! the whole run. Anything no run covers is background filler (tile 44).
//!
//! A **level** is a `0xFF`-terminated list of 16-bit little-endian pointers to
//! those records, one per screen, where a screen is 20 columns (the width of
//! the display).
use crate::rom::{EXPECTED_CRC32};
use crate::engine::level::{split_newlines, strip_cr, text_rows, trimmed};
use vstd::prelude::*;
use vstd::string::StrSliceExecFns;

verus! {

/// Playfield rows, below the two status bar rows.
pub const ROWS: usize = 16;
/// A screen pointer covers exactly one display width of columns.
pub const SCREEN_COLUMNS: usize = 20;
/// The tile any run leaves uncovered.
pub const FILLER: u8 = 44;
/// The two rows the status bar occupies, above the playfield.
pub const STATUS_ROWS: usize = 2;
/// A full screen: the status bar rows plus the playfield.
pub const SCREEN_ROWS: usize = 18;

/// World 1-1's screen list.
pub const LEVEL_1_1_LIST: usize = 0x0A198;
/// World 1-2's screen list.
pub const LEVEL_1_2_LIST: usize = 0x0A1BD;
/// World 1-3's screen list.
pub const LEVEL_1_3_LIST: usize = 0x0A1E0;
/// World 2's screen lists.
pub const LEVEL_2_1_LIST: usize = 0x055C1;
pub const LEVEL_2_2_LIST: usize = 0x055E8;
pub const LEVEL_2_3_LIST: usize = 0x0560B;

/// The three levels of World 1, in order.
pub const WORLD_1: [(&'static str, usize); 3] = [("1-1", LEVEL_1_1_LIST), ("1-2", LEVEL_1_2_LIST), ("1-3", LEVEL_1_3_LIST)];
/// The three levels of World 2, in order.
pub const WORLD_2: [(&'static str, usize); 3] = [("2-1", LEVEL_2_1_LIST), ("2-2", LEVEL_2_2_LIST), ("2-3", LEVEL_2_3_LIST)];
/// Every level whose screen list has been pinned by playing to it.
pub const MEASURED_LEVELS: [(&'static str, usize); 6] = [
    ("1-1", LEVEL_1_1_LIST),
    ("1-2", LEVEL_1_2_LIST),
    ("1-3", LEVEL_1_3_LIST),
    ("2-1", LEVEL_2_1_LIST),
    ("2-2", LEVEL_2_2_LIST),
    ("2-3", LEVEL_2_3_LIST),
];
/// Which bank holds each world's data, by world index.
pub const WORLD_BANKS: [usize; 4] = [0x08000, 0x04000, 0x0C000, 0x04000];
/// The cartridge's twelve levels, in play order.
pub const LEVEL_NAMES: [&'static str; 12] = ["1-1", "1-2", "1-3", "2-1", "2-2", "2-3", "3-1", "3-2", "3-3", "4-1", "4-2", "4-3"];

/// Every bank holding level data opens with a 0x32-byte header: two tables
/// of 16-bit pointers indexed by `world * 3 + level`, thirteen for screen
/// lists and then twelve for object lists.
pub const BANK_HEADER: usize = 0x32;
/// Where the screen-list table starts in a bank.
pub const SCREEN_TABLE: usize = 0x00;
/// Where the object-list table starts in a bank.
pub const OBJECT_TABLE: usize = 0x1A;
/// A header entry points three pointers before the level's own first screen.
pub const LIST_PREFIX: usize = 6;

/// A switchable ROM bank is 16 KB, and the CPU sees it at `0x4000`.
pub const BANK_WINDOW: usize = 0x4000;

/// The base file offset of the bank holding each world's data.
pub open spec fn world_bank(world: int) -> usize {
    if world == 0 { 0x08000 } else if world == 1 { 0x04000 } else if world == 2 { 0x0C000 } else { 0x04000 }
}

/// Each world's bank is the one the `WORLD_BANKS` table names for it.
pub proof fn law_world_bank_is_the_table_entry(world: int)
    requires
        0 <= world < 4,
    ensures
        world_bank(world) == WORLD_BANKS@[world],
{
}

fn world_bank_of(world: usize) -> (r: usize)
    requires
        world < 4,
    ensures
        r == world_bank(world as int),
        r == WORLD_BANKS@[world as int],
{
    if world == 0 { 0x08000 } else if world == 1 { 0x04000 } else if world == 2 { 0x0C000 } else { 0x04000 }
}

/// The cartridge's twelve levels, in play order.
pub open spec fn level_names() -> Seq<Seq<char>> {
    seq![
        "1-1"@, "1-2"@, "1-3"@, "2-1"@, "2-2"@, "2-3"@, "3-1"@, "3-2"@, "3-3"@, "4-1"@, "4-2"@, "4-3"@,
    ]
}

fn level_name(i: usize) -> (r: &'static str)
    requires
        i < 12,
    ensures
        r@ == level_names()[i as int],
{
    if i == 0 { "1-1" }
    else if i == 1 { "1-2" }
    else if i == 2 { "1-3" }
    else if i == 3 { "2-1" }
    else if i == 4 { "2-2" }
    else if i == 5 { "2-3" }
    else if i == 6 { "3-1" }
    else if i == 7 { "3-2" }
    else if i == 8 { "3-3" }
    else if i == 9 { "4-1" }
    else if i == 10 { "4-2" }
    else { "4-3" }
}

/// Whether two texts are the same.
fn same(a: &str, b: &str) -> (r: bool)
    ensures
        r == (a@ == b@),
{
    let n = a.unicode_len();
    if n != b.unicode_len() {
        return false;
    }
    let mut i: usize = 0;
    while i < n
        invariant
            i <= n,
            n == a@.len(),
            n == b@.len(),
            forall|j: int| 0 <= j < i ==> a@[j] == b@[j],
        decreases n - i,
    {
        if a.get_char(i) != b.get_char(i) {
            return false;
        }
        i = i + 1;
    }
    assert(a@ =~= b@);
    true
}

/// The position of the first level named `name`.
pub open spec fn index_of_name(name: Seq<char>) -> Option<usize> {
    if exists|i: int| 0 <= i < 12 && level_names()[i] == name {
        Some((choose|i: int| 0 <= i < 12 && level_names()[i] == name && forall|j: int| 0 <= j < i ==> level_names()[j] != name) as usize)
    } else {
        None
    }
}

/// The index a level is read from the header tables at.
pub fn level_index(name: &str) -> (r: Option<usize>)
    ensures
        r == index_of_name(name@),
        r matches Some(i) ==> i < 12,
{
    let mut i: usize = 0;
    while i < 12
        invariant
            i <= 12,
            forall|j: int| 0 <= j < i ==> level_names()[j] != name@,
        decreases 12 - i,
    {
        if same(level_name(i), name) {
            proof {
                let k = choose|k: int| 0 <= k < 12 && level_names()[k] == name@ && forall|j: int| 0 <= j < k ==> level_names()[j] != name@;
                if k < i {
                } else if k > i {
                }
                assert(k == i);
            }
            return Some(i);
        }
        i = i + 1;
    }
    None
}

/// A screen pointer resolved to a ROM file offset in `bank`: `None` unless it
/// points into the bank window.
pub open spec fn offset_in_bank(pointer: u16, bank: usize) -> Option<usize> {
    if BANK_WINDOW <= pointer < 2 * BANK_WINDOW { Some((pointer - BANK_WINDOW + bank) as usize) } else { None }
}

fn rom_offset(pointer: u16, bank: usize) -> (r: Option<usize>)
    requires
        bank + (BANK_WINDOW - 1) <= usize::MAX,
    ensures
        r == offset_in_bank(pointer, bank),
{
    let p = pointer as usize;
    if p < BANK_WINDOW || p >= BANK_WINDOW * 2 {
        return None;
    }
    Some(p - BANK_WINDOW + bank)
}

/// The little-endian 16-bit number at byte `at`.
pub open spec fn le16_at(rom: Seq<u8>, at: int) -> u16 {
    (rom[at] as u16 | ((rom[at + 1] as u16) << 8u16)) as u16
}

fn read_le16(rom: &[u8], at: usize) -> (r: u16)
    requires
        at + 1 < rom@.len(),
    ensures
        r == le16_at(rom@, at as int),
{
    rom[at] as u16 | ((rom[at + 1] as u16) << 8)
}

/// The header-table entry `index` of `table` in `bank`, resolved in the bank.
pub open spec fn header_entry_spec(rom: Seq<u8>, bank: usize, table: usize, index: usize) -> Option<usize> {
    let at = bank + table + index * 2;
    if at + 1 < rom.len() { offset_in_bank(le16_at(rom, at), bank) } else { None }
}

fn header_entry(rom: &[u8], bank: usize, table: usize, index: usize) -> (r: Option<usize>)
    requires
        bank <= 0x1_0000,
        table <= 0x100,
        index <= 0x100,
    ensures
        r == header_entry_spec(rom@, bank, table, index),
{
    let at = bank + table + index * 2;
    if at + 1 >= rom.len() {
        return None;
    }
    rom_offset(read_le16(rom, at), bank)
}

/// Where a level's screen list starts including its prefix: what the bank
/// header's screen table points at.
pub open spec fn list_head_spec(rom: Seq<u8>, name: Seq<char>) -> Option<usize> {
    match index_of_name(name) {
        Some(i) => header_entry_spec(rom, world_bank(i as int / 3), SCREEN_TABLE, i),
        None => None,
    }
}

/// Where a level's screen list starts including its prefix, which is what the
/// header points at and what [`bonus_rooms`] measures back from.
pub fn level_list_head(rom: &[u8], name: &str) -> (r: Option<usize>)
    ensures
        r == list_head_spec(rom@, name@),
{
    let index = match level_index(name) {
        Some(i) => i,
        None => return None,
    };
    header_entry(rom, world_bank_of(index / 3), SCREEN_TABLE, index)
}

/// Where a level's screen list starts, skipping the bonus-room prefix.
pub fn level_list(rom: &[u8], name: &str) -> (r: Option<usize>)
    ensures
        r == (match list_head_spec(rom@, name@) {
            Some(h) => Some((h + LIST_PREFIX) as usize),
            None => None,
        }),
{
    match level_list_head(rom, name) {
        Some(h) => Some(h + LIST_PREFIX),
        None => None,
    }
}

/// Where a level's object list starts, from the second header table.
pub fn level_objects(rom: &[u8], name: &str) -> (r: Option<usize>)
    ensures
        r == (match index_of_name(name@) {
            Some(i) => header_entry_spec(rom@, world_bank(i as int / 3), OBJECT_TABLE, i),
            None => None,
        }),
{
    let index = match level_index(name) {
        Some(i) => i,
        None => return None,
    };
    header_entry(rom, world_bank_of(index / 3), OBJECT_TABLE, index)
}

/// The name of the first level whose screen list starts at `start`, if any.
pub open spec fn level_of_list_spec(rom: Seq<u8>, start: usize) -> Option<Seq<char>> {
    if exists|i: int| 0 <= i < 12 && list_head_spec(rom, level_names()[i]) == Some(start) {
        Some(level_names()[choose|i: int| 0 <= i < 12 && list_head_spec(rom, level_names()[i]) == Some(start)
            && forall|j: int| 0 <= j < i ==> list_head_spec(rom, level_names()[j]) != Some(start)])
    } else {
        None
    }
}

/// The name of the level a screen list belongs to, if it is one of the twelve.
pub fn level_of_list(rom: &[u8], start: usize) -> (r: Option<&'static str>)
    ensures
        match r {
            Some(name) => level_of_list_spec(rom@, start) == Some(name@),
            None => level_of_list_spec(rom@, start) is None,
        },
{
    let mut i: usize = 0;
    while i < 12
        invariant
            i <= 12,
            forall|j: int| 0 <= j < i ==> list_head_spec(rom@, level_names()[j]) != Some(start),
        decreases 12 - i,
    {
        let name = level_name(i);
        if level_list_head(rom, name) == Some(start) {
            proof {
                let k = choose|k: int| 0 <= k < 12 && list_head_spec(rom@, level_names()[k]) == Some(start)
                    && forall|j: int| 0 <= j < k ==> list_head_spec(rom@, level_names()[j]) != Some(start);
                assert(k == i);
            }
            return Some(name);
        }
        i = i + 1;
    }
    None
}

/// The base file offset of the bank containing `offset`.
pub open spec fn bank_base(offset: usize) -> usize {
    offset & !0x3FFFusize
}

/// The bank a ROM offset falls in, for resolving that offset's own pointers.
pub fn bank_of(offset: usize) -> (r: usize)
    ensures
        r == bank_base(offset),
        r <= offset,
        r + (BANK_WINDOW - 1) <= usize::MAX,
{
    let r = offset & !(BANK_WINDOW - 1);
    assert(r <= offset && r + 0x3FFFusize == (r | 0x3FFFusize)) by (bit_vector)
        requires r == offset & !0x3FFFusize;
    r
}

/// The coin tile: the one id at or above [`SOLID_FROM`] Mario passes.
pub const COIN: u8 = 0xF4;
/// Everything below this id passes through.
pub const SOLID_FROM: u8 = 0x60;

/// A coin tile.
pub open spec fn coin_tile(t: u8) -> bool {
    t == COIN
}

/// Ids that hold Mario up from above but do not block him sideways.
pub const SEMI_SOLID: [u8; 4] = [0x68, 0x69, 0x6A, 0x7C];
/// The ids at or above [`SOLID_FROM`] that Mario passes through.
pub const PASSABLE: [u8; 1] = [COIN];

/// A one-way platform tile: it holds Mario up from above only.
pub open spec fn platform_tile(t: u8) -> bool {
    t == 0x68 || t == 0x69 || t == 0x6A || t == 0x7C
}

/// A solid tile: at or above [`SOLID_FROM`], and neither a coin nor a
/// platform.
pub open spec fn solid_tile(t: u8) -> bool {
    t >= SOLID_FROM && !coin_tile(t) && !platform_tile(t)
}

pub fn is_coin(tile: u8) -> (r: bool)
    ensures
        r == coin_tile(tile),
{
    tile == COIN
}

/// Holds Mario up from above only.
pub fn is_platform(tile: u8) -> (r: bool)
    ensures
        r == platform_tile(tile),
{
    tile == 0x68 || tile == 0x69 || tile == 0x6A || tile == 0x7C
}

/// Blocks Mario from every direction.
pub fn is_solid(tile: u8) -> (r: bool)
    ensures
        r == solid_tile(tile),
{
    tile >= SOLID_FROM && !is_coin(tile) && !is_platform(tile)
}

/// The two screens sitting immediately before a level's own first screen in
/// its pointer run.
pub fn bonus_rooms(rom: &[u8], list_start: usize) -> (r: Option<[u16; 2]>)
    ensures
        match r {
            Some(p) => list_start >= 4 && list_start <= rom@.len() && p@ == seq![le16_at(rom@, list_start - 4), le16_at(rom@, list_start - 2)],
            None => list_start < 4 || list_start > rom@.len(),
        },
{
    if list_start < 4 || list_start > rom.len() {
        return None;
    }
    let first = list_start - 4;
    let r = [read_le16(rom, first), read_le16(rom, first + 2)];
    assert(r@ =~= seq![le16_at(rom@, list_start - 4), le16_at(rom@, list_start - 2)]);
    Some(r)
}

/// A decoded column: one tile id per playfield row, top to bottom.
pub type Column = [u8; 16];

/// Whether tile `t` is of class `k`: 0 solid, 1 one-way platform, otherwise
/// coin.
pub open spec fn of_class(t: u8, k: u8) -> bool {
    if k == 0 {
        solid_tile(t)
    } else if k == 1 {
        platform_tile(t)
    } else {
        coin_tile(t)
    }
}

/// How many tiles of class `k` a column holds.
pub open spec fn class_in(col: Seq<u8>, k: u8) -> nat
    decreases col.len(),
{
    if col.len() == 0 {
        0
    } else {
        class_in(col.drop_last(), k) + if of_class(col.last(), k) { 1nat } else { 0nat }
    }
}

/// How many tiles of class `k` the columns hold together.
pub open spec fn class_across(cols: Seq<Seq<u8>>, k: u8) -> nat
    decreases cols.len(),
{
    if cols.len() == 0 {
        0
    } else {
        class_across(cols.drop_last(), k) + class_in(cols.last(), k)
    }
}

proof fn lemma_class_in_bounded(col: Seq<u8>, k: u8)
    ensures
        class_in(col, k) <= col.len(),
    decreases col.len(),
{
    if col.len() > 0 {
        lemma_class_in_bounded(col.drop_last(), k);
    }
}

fn count_class(col: &Column, k: u8) -> (n: usize)
    ensures
        n == class_in(col@, k),
{
    let mut n: usize = 0;
    let mut r: usize = 0;
    while r < 16
        invariant
            r <= 16,
            col@.len() == 16,
            n == class_in(col@.take(r as int), k),
            n <= r,
        decreases 16 - r,
    {
        proof {
            assert(col@.take(r + 1).drop_last() =~= col@.take(r as int));
        }
        let t = col[r];
        let hit = if k == 0 {
            is_solid(t)
        } else if k == 1 {
            is_platform(t)
        } else {
            is_coin(t)
        };
        if hit {
            n = n + 1;
        }
        r = r + 1;
    }
    proof {
        assert(col@.take(16) =~= col@);
    }
    n
}

fn count_class_across(columns: &[Column], k: u8) -> (n: usize)
    requires
        columns@.len() * 16 <= usize::MAX,
    ensures
        n == class_across(column_views(columns@), k),
{
    let mut n: usize = 0;
    let mut c: usize = 0;
    while c < columns.len()
        invariant
            c <= columns@.len(),
            columns@.len() * 16 <= usize::MAX,
            n == class_across(column_views(columns@.take(c as int)), k),
            n <= c * 16,
        decreases columns@.len() - c,
    {
        proof {
            assert(column_views(columns@.take(c + 1)).drop_last() =~= column_views(columns@.take(c as int)));
            assert(column_views(columns@.take(c + 1)).last() == columns@[c as int]@);
            lemma_class_in_bounded(columns@[c as int]@, k);
        }
        let m = count_class(&columns[c], k);
        n = n + m;
        c = c + 1;
    }
    proof {
        assert(columns@.take(c as int) =~= columns@);
    }
    n
}

/// How many solid, one-way platform and coin tiles decoded columns hold.
pub fn tile_census(columns: &[Column]) -> (r: (usize, usize, usize))
    requires
        columns@.len() * 16 <= usize::MAX,
    ensures
        r.0 == class_across(column_views(columns@), 0),
        r.1 == class_across(column_views(columns@), 1),
        r.2 == class_across(column_views(columns@), 2),
{
    (count_class_across(columns, 0), count_class_across(columns, 1), count_class_across(columns, 2))
}

/// `col` with rows `row..row + count` set to `tile`.
pub open spec fn filled(col: Seq<u8>, row: int, count: int, tile: u8) -> Seq<u8> {
    Seq::new(col.len(), |r: int| if row <= r < row + count { tile } else { col[r] })
}

/// `col` with rows `row..row + count` set to `tiles`, in order.
pub open spec fn copied(col: Seq<u8>, row: int, count: int, tiles: Seq<u8>) -> Seq<u8> {
    Seq::new(col.len(), |r: int| if row <= r < row + count { tiles[r - row] } else { col[r] })
}

/// The run count a header byte gives: its low nibble, zero meaning all 16.
pub open spec fn run_count(header: u8) -> int {
    if header & 0x0F == 0 { 16 } else { (header & 0x0F) as int }
}

/// The column record at `rom[i..]`, carrying on from the rows `col` already
/// holds: the finished column and the offset just past its `0xFE`, or `None`
/// if a run does not fit or the record runs off the end.
pub open spec fn column_from(rom: Seq<u8>, i: int, col: Seq<u8>) -> Option<(Seq<u8>, int)>
    decreases rom.len() - i,
{
    if i < 0 || i >= rom.len() {
        None
    } else if rom[i] == 0xFE {
        Some((col, i + 1))
    } else {
        let row = (rom[i] >> 4u8) as int;
        let count = run_count(rom[i]);
        let j = i + 1;
        if row + count > 16 || j >= rom.len() {
            None
        } else if rom[j] == 0xFD {
            if j + 1 >= rom.len() { None } else { column_from(rom, j + 2, filled(col, row, count, rom[j + 1])) }
        } else if j + count > rom.len() {
            None
        } else {
            column_from(rom, j + count, copied(col, row, count, rom.subrange(j, j + count)))
        }
    }
}

/// An all-filler column.
pub open spec fn blank_column() -> Seq<u8> {
    Seq::new(16, |r: int| FILLER)
}

/// One column record starting at `rom[i]`. Returns the column and the offset
/// just past it, or `None` if a run does not fit, which is what tells level
/// data apart from whatever else is nearby in the ROM.
#[verifier::rlimit(40)]
pub fn decode_column(rom: &[u8], i: usize) -> (r: Option<(Column, usize)>)
    ensures
        match r {
            Some((c, next)) => column_from(rom@, i as int, blank_column()) == Some((c@, next as int)),
            None => column_from(rom@, i as int, blank_column()) is None,
        },
{
    let mut column = [FILLER; 16];
    let mut pos = i;
    let n = rom.len();
    assert(column@ =~= blank_column());
    while pos < n
        invariant
            n == rom@.len(),
            column@.len() == 16,
            column_from(rom@, pos as int, column@) == column_from(rom@, i as int, blank_column()),
        decreases rom@.len() - pos,
    {
        let header = rom[pos];
        if header == 0xFE {
            assert(column_from(rom@, pos as int, column@) == Some((column@, pos + 1)));
            return Some((column, pos + 1));
        }
        let row = (header >> 4u8) as usize;
        let low = (header & 0x0Fu8) as usize;
        let count: usize = if low == 0 { 16 } else { low };
        assert(count as int == run_count(header));
        let j = pos + 1;
        if row + count > 16 || j >= n {
            return None;
        }
        if rom[j] == 0xFD {
            if j + 1 >= n {
                return None;
            }
            let tile = rom[j + 1];
            let ghost before = column@;
            let mut k = row;
            while k < row + count
                invariant
                    row <= k <= row + count,
                    row + count <= 16,
                    column@.len() == 16,
                    forall|r: int| 0 <= r < 16 ==> #[trigger] column@[r] == (if row <= r < k { tile } else { before[r] }),
                decreases row + count - k,
            {
                column[k] = tile;
                k = k + 1;
            }
            assert(column@ =~= filled(before, row as int, count as int, tile));
            pos = j + 2;
        } else {
            if count > n - j {
                return None;
            }
            let ghost before = column@;
            let mut k: usize = 0;
            while k < count
                invariant
                    k <= count,
                    row + count <= 16,
                    n == rom@.len(),
                    j + count <= rom@.len(),
                    column@.len() == 16,
                    forall|r: int| 0 <= r < 16 ==> #[trigger] column@[r] == (if row <= r < row + k { rom@[j + r - row] } else { before[r] }),
                decreases count - k,
            {
                column[row + k] = rom[j + k];
                k = k + 1;
            }
            assert(column@ =~= copied(before, row as int, count as int, rom@.subrange(j as int, j + count)));
            pos = j + count;
        }
    }
    None
}

/// The `n` columns a screen draws from the records at `rom[i..]`, in order,
/// or `None` if one of them does not decode.
pub open spec fn columns_from(rom: Seq<u8>, i: int, n: nat) -> Option<Seq<Seq<u8>>>
    decreases n,
{
    if n == 0 {
        Some(seq![])
    } else {
        match column_from(rom, i, blank_column()) {
            None => None,
            Some((c, next)) => match columns_from(rom, next, (n - 1) as nat) {
                None => None,
                Some(rest) => Some(seq![c] + rest),
            },
        }
    }
}

/// The 20 columns a screen pointer draws, resolved in `bank`.
pub open spec fn screen_spec(rom: Seq<u8>, pointer: u16, bank: usize) -> Option<Seq<Seq<u8>>> {
    match offset_in_bank(pointer, bank) {
        None => None,
        Some(i) => columns_from(rom, i as int, 20),
    }
}

/// The columns' rows as sequences.
pub open spec fn column_views(cs: Seq<Column>) -> Seq<Seq<u8>> {
    cs.map_values(|c: Column| c@)
}

/// The `n` columns of records from `rom[i..]`.
fn decode_columns(rom: &[u8], i: usize, n: usize) -> (r: Option<Vec<Column>>)
    ensures
        match r {
            Some(cs) => columns_from(rom@, i as int, n as nat) == Some(column_views(cs@)),
            None => columns_from(rom@, i as int, n as nat) is None,
        },
    decreases n,
{
    if n == 0 {
        let v: Vec<Column> = Vec::new();
        assert(column_views(v@) =~= seq![]);
        return Some(v);
    }
    match decode_column(rom, i) {
        None => None,
        Some((c, next)) => match decode_columns(rom, next, n - 1) {
            None => None,
            Some(rest) => {
                let mut out: Vec<Column> = Vec::new();
                out.push(c);
                let mut k: usize = 0;
                while k < rest.len()
                    invariant
                        k <= rest@.len(),
                        column_views(out@) == seq![c@] + column_views(rest@.take(k as int)),
                    decreases rest@.len() - k,
                {
                    let ghost prev = out@;
                    out.push(rest[k]);
                    proof {
                        assert(rest@.take(k + 1) =~= rest@.take(k as int).push(rest@[k as int]));
                        assert(column_views(rest@.take(k + 1)) =~= column_views(rest@.take(k as int)).push(rest@[k as int]@));
                        assert(column_views(out@) =~= column_views(prev).push(rest@[k as int]@));
                        assert(column_views(out@) =~= seq![c@] + column_views(rest@.take(k + 1)));
                    }
                    k = k + 1;
                }
                assert(rest@.take(k as int) =~= rest@);
                Some(out)
            },
        },
    }
}

/// The 20 columns a single screen pointer draws, resolved in `bank`.
pub fn screen(rom: &[u8], pointer: u16, bank: usize) -> (r: Option<Vec<Column>>)
    requires
        bank + (BANK_WINDOW - 1) <= usize::MAX,
    ensures
        match r {
            Some(cs) => screen_spec(rom@, pointer, bank) == Some(column_views(cs@)),
            None => screen_spec(rom@, pointer, bank) is None,
        },
{
    match rom_offset(pointer, bank) {
        None => None,
        Some(i) => decode_columns(rom, i, SCREEN_COLUMNS),
    }
}

/// The pointers of the `0xFF`-terminated list at `rom[i..]`: read two bytes at
/// a time until a `0xFF` or until fewer than two bytes are left.
pub open spec fn list_from(rom: Seq<u8>, i: int) -> Seq<u16>
    decreases rom.len() - i,
{
    if i < 0 || i + 1 >= rom.len() || rom[i] == 0xFF {
        seq![]
    } else {
        seq![le16_at(rom, i)] + list_from(rom, i + 2)
    }
}

/// The `0xFF`-terminated pointer list at `start`.
pub fn screen_list(rom: &[u8], start: usize) -> (r: Vec<u16>)
    ensures
        r@ == list_from(rom@, start as int),
{
    let mut pointers: Vec<u16> = Vec::new();
    let mut i = start;
    let n = rom.len();
    while i < n && i + 1 < n && rom[i] != 0xFF
        invariant
            n == rom@.len(),
            start <= i,
            pointers@ + list_from(rom@, i as int) == list_from(rom@, start as int),
        decreases n - i,
    {
        let p = read_le16(rom, i);
        let ghost before = pointers@;
        pointers.push(p);
        proof {
            assert(pointers@ + list_from(rom@, i + 2) =~= before + list_from(rom@, i as int));
        }
        i = i + 2;
    }
    proof {
        assert(list_from(rom@, i as int) =~= Seq::<u16>::empty());
        assert(pointers@ =~= pointers@ + list_from(rom@, i as int));
    }
    pointers
}

/// The columns the screens `ptrs` draw, in order, stopping at the first
/// screen that does not decode.
pub open spec fn screens_from(rom: Seq<u8>, ptrs: Seq<u16>, bank: usize) -> Seq<Seq<u8>>
    decreases ptrs.len(),
{
    if ptrs.len() == 0 {
        seq![]
    } else {
        match screen_spec(rom, ptrs[0], bank) {
            None => seq![],
            Some(cs) => cs + screens_from(rom, ptrs.drop_first(), bank),
        }
    }
}

/// Every column of the level whose screen list starts at `start`.
pub open spec fn level_columns(rom: Seq<u8>, start: usize) -> Seq<Seq<u8>> {
    screens_from(rom, list_from(rom, start as int), bank_base(start))
}

/// Every column of the level whose screen list starts at `start`. Stops at the
/// first screen that does not decode, so a bad start yields a short level
/// rather than garbage.
#[verifier::rlimit(40)]
pub fn decode_level(rom: &[u8], start: usize) -> (r: Vec<Column>)
    ensures
        column_views(r@) == level_columns(rom@, start),
{
    let mut columns: Vec<Column> = Vec::new();
    let bank = bank_of(start);
    let pointers = screen_list(rom, start);
    let mut k: usize = 0;
    assert(pointers@.skip(0) =~= pointers@);
    assert(column_views(columns@) =~= Seq::<Seq<u8>>::empty());
    while k < pointers.len()
        invariant
            k <= pointers@.len(),
            bank == bank_base(start),
            bank + (BANK_WINDOW - 1) <= usize::MAX,
            pointers@ == list_from(rom@, start as int),
            column_views(columns@) + screens_from(rom@, pointers@.skip(k as int), bank) == level_columns(rom@, start),
        decreases pointers@.len() - k,
    {
        proof {
            assert(pointers@.skip(k as int).drop_first() =~= pointers@.skip(k + 1));
            assert(pointers@.skip(k as int)[0] == pointers@[k as int]);
        }
        match screen(rom, pointers[k], bank) {
            Some(scr) => {
                let ghost before = columns@;
                let mut q: usize = 0;
                while q < scr.len()
                    invariant
                        q <= scr@.len(),
                        column_views(columns@) == column_views(before) + column_views(scr@.take(q as int)),
                    decreases scr@.len() - q,
                {
                    let ghost prev = columns@;
                    columns.push(scr[q]);
                    proof {
                        assert(scr@.take(q + 1) =~= scr@.take(q as int).push(scr@[q as int]));
                        assert(column_views(scr@.take(q + 1)) =~= column_views(scr@.take(q as int)).push(scr@[q as int]@));
                        assert(column_views(columns@) =~= column_views(prev).push(scr@[q as int]@));
                        assert(column_views(columns@) =~= column_views(before) + column_views(scr@.take(q + 1)));
                    }
                    q = q + 1;
                }
                proof {
                    assert(scr@.take(q as int) =~= scr@);
                    assert(column_views(columns@) + screens_from(rom@, pointers@.skip(k + 1), bank) =~= level_columns(rom@, start));
                }
            },
            None => {
                proof {
                    assert(screens_from(rom@, pointers@.skip(k as int), bank) =~= Seq::<Seq<u8>>::empty());
                    assert(column_views(columns@) =~= level_columns(rom@, start));
                }
                return columns;
            },
        }
        k = k + 1;
    }
    proof {
        assert(pointers@.skip(k as int) =~= Seq::<u16>::empty());
        assert(column_views(columns@) =~= level_columns(rom@, start));
    }
    columns
}

/// Whether a screen is one of the coin rooms rather than open terrain: a
/// solid floor all the way across, and at least one coin.
pub open spec fn bonus_room_spec(cols: Seq<Seq<u8>>) -> bool {
    &&& forall|c: int| 0 <= c < cols.len() ==> solid_tile(#[trigger] cols[c][15])
    &&& exists|c: int, r: int| 0 <= c < cols.len() && 0 <= r < 16 && coin_tile(#[trigger] cols[c][r])
}

/// Whether a screen is one of the coin rooms rather than open terrain: a solid
/// floor all the way across, and at least one coin.
pub fn is_bonus_room(columns: &[Column]) -> (r: bool)
    ensures
        r == bonus_room_spec(column_views(columns@)),
{
    let ghost cols = column_views(columns@);
    let mut floor = true;
    let mut coins = false;
    let mut c: usize = 0;
    while c < columns.len()
        invariant
            c <= columns@.len(),
            cols == column_views(columns@),
            floor == (forall|k: int| 0 <= k < c ==> solid_tile(#[trigger] cols[k][15])),
            coins == (exists|k: int, r: int| 0 <= k < c && 0 <= r < 16 && coin_tile(#[trigger] cols[k][r])),
        decreases columns@.len() - c,
    {
        let col = columns[c];
        assert(cols[c as int] == col@);
        if !is_solid(col[15]) {
            floor = false;
        }
        let mut r: usize = 0;
        while r < 16
            invariant
                r <= 16,
                c < columns@.len(),
                cols == column_views(columns@),
                cols[c as int] == col@,
                coins ==> (exists|k: int, q: int| 0 <= k < c + 1 && 0 <= q < 16 && coin_tile(#[trigger] cols[k][q])),
                !coins ==> (forall|k: int, q: int| #![trigger cols[k][q]] ((0 <= k < c && 0 <= q < 16) || (k == c && 0 <= q < r)) ==> !coin_tile(cols[k][q])),
            decreases 16 - r,
        {
            if is_coin(col[r]) {
                coins = true;
                assert(coin_tile(cols[c as int][r as int]));
            }
            r = r + 1;
        }
        c = c + 1;
    }
    floor && coins
}

/// The top-left tile of the level-exit door.
pub const EXIT_DOOR: u8 = 0x13;

/// The exit door's top-left cell: the lowest door tile, and of those the
/// rightmost; `None` without one.
pub open spec fn exit_door_spec(cols: Seq<Seq<u8>>) -> Option<(usize, usize)> {
    if exists|c: int, r: int| 0 <= c < cols.len() && 0 <= r < 16 && #[trigger] cols[c][r] == EXIT_DOOR {
        let (c, r) = choose|c: int, r: int| 0 <= c < cols.len() && 0 <= r < 16 && #[trigger] cols[c][r] == EXIT_DOOR
            && forall|c2: int, r2: int| 0 <= c2 < cols.len() && 0 <= r2 < 16 && #[trigger] cols[c2][r2] == EXIT_DOOR
                ==> r2 < r || (r2 == r && c2 <= c);
        Some((c as usize, r as usize))
    } else {
        None
    }
}

/// The exit door's top-left cell, if the level has one.
#[verifier::rlimit(40)]
pub fn exit_door(columns: &[Column]) -> (r: Option<(usize, usize)>)
    ensures
        r == exit_door_spec(column_views(columns@)),
        r matches Some(p) ==> p.0 < columns@.len() && p.1 < 16,
{
    let ghost cols = column_views(columns@);
    let mut best: Option<(usize, usize)> = None;
    let mut c: usize = 0;
    while c < columns.len()
        invariant
            c <= columns@.len(),
            cols == column_views(columns@),
            match best {
                Some(b) => b.0 < c && b.1 < 16 && cols[b.0 as int][b.1 as int] == EXIT_DOOR
                    && forall|c2: int, r2: int| 0 <= c2 < c && 0 <= r2 < 16 && #[trigger] cols[c2][r2] == EXIT_DOOR
                        ==> r2 < b.1 || (r2 == b.1 && c2 <= b.0),
                None => forall|c2: int, r2: int| 0 <= c2 < c && 0 <= r2 < 16 ==> #[trigger] cols[c2][r2] != EXIT_DOOR,
            },
        decreases columns@.len() - c,
    {
        let col = columns[c];
        assert(cols[c as int] == col@);
        let mut r: usize = 0;
        while r < 16
            invariant
                r <= 16,
                c < columns@.len(),
                cols == column_views(columns@),
                cols[c as int] == col@,
                match best {
                    Some(b) => b.0 <= c && b.1 < 16 && cols[b.0 as int][b.1 as int] == EXIT_DOOR
                        && forall|c2: int, r2: int| #![trigger cols[c2][r2]] ((0 <= c2 < c && 0 <= r2 < 16) || (c2 == c && 0 <= r2 < r)) && cols[c2][r2] == EXIT_DOOR
                            ==> r2 < b.1 || (r2 == b.1 && c2 <= b.0),
                    None => forall|c2: int, r2: int| #![trigger cols[c2][r2]] ((0 <= c2 < c && 0 <= r2 < 16) || (c2 == c && 0 <= r2 < r)) ==> cols[c2][r2] != EXIT_DOOR,
                },
            decreases 16 - r,
        {
            if col[r] == EXIT_DOOR {
                let take = match best {
                    Some((_, br)) => r >= br,
                    None => true,
                };
                if take {
                    best = Some((c, r));
                }
            }
            r = r + 1;
        }
        c = c + 1;
    }
    proof {
        match best {
            Some(b) => {
                let w = choose|c: int, r: int| 0 <= c < cols.len() && 0 <= r < 16 && #[trigger] cols[c][r] == EXIT_DOOR
                    && forall|c2: int, r2: int| 0 <= c2 < cols.len() && 0 <= r2 < 16 && #[trigger] cols[c2][r2] == EXIT_DOOR
                        ==> r2 < r || (r2 == r && c2 <= c);
                assert(cols[b.0 as int][b.1 as int] == EXIT_DOOR);
                assert(w.0 == b.0 && w.1 == b.1);
            },
            None => {},
        }
    }
    best
}

/// A column with nothing solid and no platform: a hole Mario falls through.
pub open spec fn pit_column(col: Seq<u8>) -> bool {
    forall|r: int| 0 <= r < 16 ==> !solid_tile(#[trigger] col[r]) && !platform_tile(col[r])
}

/// Columns with no solid cell anywhere: the holes Mario can fall through.
pub fn pits(columns: &[Column]) -> (r: Vec<usize>)
    ensures
        r@.len() == Seq::new(columns@.len(), |c: int| c).filter(|c: int| pit_column(columns@[c]@)).len(),
        forall|k: int| 0 <= k < r@.len() ==> r@[k] == Seq::new(columns@.len(), |c: int| c).filter(|c: int| pit_column(columns@[c]@))[k],
{
    let ghost idx = Seq::new(columns@.len(), |c: int| c);
    let ghost pred = |c: int| pit_column(columns@[c]@);
    let mut out: Vec<usize> = Vec::new();
    let mut c: usize = 0;
    while c < columns.len()
        invariant
            c <= columns@.len(),
            idx == Seq::new(columns@.len(), |c: int| c),
            pred == (|c: int| pit_column(columns@[c]@)),
            out@.len() == idx.take(c as int).filter(pred).len(),
            forall|k: int| 0 <= k < out@.len() ==> out@[k] == idx.take(c as int).filter(pred)[k],
        decreases columns@.len() - c,
    {
        let col = columns[c];
        let mut open = true;
        let mut r: usize = 0;
        while r < 16
            invariant
                r <= 16,
                open == (forall|q: int| 0 <= q < r ==> !solid_tile(#[trigger] col@[q]) && !platform_tile(col@[q])),
            decreases 16 - r,
        {
            if is_solid(col[r]) || is_platform(col[r]) {
                open = false;
            }
            r = r + 1;
        }
        proof {
            assert(idx.take(c + 1) =~= idx.take(c as int).push(c as int));
            idx.take(c as int).lemma_filter_push(c as int, pred);
        }
        let ghost prev = out@;
        if open {
            out.push(c);
        }
        proof {
            assert forall|k: int| 0 <= k < out@.len() implies out@[k] == idx.take(c + 1).filter(pred)[k] by {
                if k < prev.len() {
                    assert(out@[k] == prev[k]);
                }
            }
        }
        c = c + 1;
    }
    assert(idx.take(c as int) =~= idx);
    out
}

/// Where gameplay's tile graphics live in the ROM, and how much.
pub const TILES_ROM_OFFSET: usize = 0x08032;
pub const TILES_SIZE: usize = 0x1800;

/// Gameplay's VRAM tile data, straight from the ROM.
pub fn gameplay_tiles(rom: &[u8]) -> (r: Result<&[u8], super::AssetError>)
    ensures
        match r {
            Ok(t) => 0x9832 <= rom@.len() && t@ == rom@.subrange(0x8032, 0x9832),
            Err(e) => rom@.len() < 0x9832 && (e matches super::AssetError::OutOfRange { end, len } && end == 0x9832 && len == rom@.len()),
        },
{
    let end = TILES_ROM_OFFSET + TILES_SIZE;
    if end > rom.len() {
        return Err(super::AssetError::OutOfRange { end, len: rom.len() });
    }
    Ok(&rom[TILES_ROM_OFFSET..end])
}

/// Whether a screen list is one of World 2's.
pub open spec fn world_2_list(list: usize) -> bool {
    list == LEVEL_2_1_LIST || list == LEVEL_2_2_LIST || list == LEVEL_2_3_LIST
}

/// The blocks World 2 loads over the shared atlas, as `(rom, vram, size)`.
pub open spec fn world_2_blocks() -> Seq<(usize, usize, usize)> {
    seq![(0x04032usize, 0x8A00usize, 0x03C0usize), (0x04432, 0x9340, 0x0100), (0x04572, 0x9480, 0x0280), (0x09732, 0x9700, 0x0100)]
}

/// Byte `i` of video RAM's tile data after `blocks` are copied over `base`.
pub open spec fn overlay_byte(base: Seq<u8>, rom: Seq<u8>, blocks: Seq<(usize, usize, usize)>, i: int) -> u8
    decreases blocks.len(),
{
    if blocks.len() == 0 {
        base[i]
    } else {
        let (from, to, size) = blocks.last();
        let at = to - 0x8000;
        if at <= i < at + size { rom[from + (i - at)] } else { overlay_byte(base, rom, blocks.drop_last(), i) }
    }
}

/// The tile data in video RAM while the level whose list is at `list` plays:
/// the shared atlas, with World 2's blocks over it for World 2's levels.
pub open spec fn level_vram(rom: Seq<u8>, list: usize) -> Seq<u8> {
    let base = rom.subrange(0x8032, 0x9832);
    if world_2_list(list) {
        Seq::new(0x1800, |i: int| overlay_byte(base, rom, world_2_blocks(), i))
    } else {
        base
    }
}

/// The tile data in video RAM while the level whose list is at `list` plays.
#[verifier::rlimit(40)]
pub fn tiles_for_level(rom: &[u8], list: usize) -> (r: Result<Vec<u8>, super::AssetError>)
    ensures
        match r {
            Ok(v) => 0x9832 <= rom@.len() && v@ == level_vram(rom@, list),
            Err(e) => rom@.len() < 0x9832 && (e matches super::AssetError::OutOfRange { end, len } && end == 0x9832 && len == rom@.len()),
        },
{
    let atlas = match gameplay_tiles(rom) {
        Ok(t) => t,
        Err(e) => return Err(e),
    };
    let mut vram: Vec<u8> = Vec::new();
    let mut i: usize = 0;
    while i < atlas.len()
        invariant
            i <= atlas@.len(),
            vram@ == atlas@.take(i as int),
        decreases atlas@.len() - i,
    {
        vram.push(atlas[i]);
        i = i + 1;
        assert(vram@ =~= atlas@.take(i as int));
    }
    assert(atlas@.take(i as int) =~= atlas@);
    if list == LEVEL_2_1_LIST || list == LEVEL_2_2_LIST || list == LEVEL_2_3_LIST {
        let blocks: [(usize, usize, usize); 4] = [(0x04032, 0x8A00, 0x03C0), (0x04432, 0x9340, 0x0100), (0x04572, 0x9480, 0x0280), (0x09732, 0x9700, 0x0100)];
        assert(blocks@ =~= world_2_blocks());
        let ghost base = atlas@;
        let mut b: usize = 0;
        while b < 4
            invariant
                b <= 4,
                blocks@ == world_2_blocks(),
                rom@.len() >= 0x9832,
                base == rom@.subrange(0x8032, 0x9832),
                vram@.len() == 0x1800,
                forall|j: int| 0 <= j < 0x1800 ==> #[trigger] vram@[j] == overlay_byte(base, rom@, world_2_blocks().take(b as int), j),
            decreases 4 - b,
        {
            let (from, to, size) = blocks[b];
            let at = to - 0x8000;
            let ghost before = vram@;
            let mut k: usize = 0;
            while k < size
                invariant
                    k <= size,
                    (from, to, size) == world_2_blocks()[b as int],
                    b < 4,
                    at == to - 0x8000,
                    at + size <= 0x1800,
                    from + size <= rom@.len(),
                    vram@.len() == 0x1800,
                    forall|j: int| 0 <= j < 0x1800 ==> #[trigger] vram@[j] == (if at <= j < at + k { rom@[from + (j - at)] } else { before[j] }),
                decreases size - k,
            {
                vram.set(at + k, rom[from + k]);
                k = k + 1;
            }
            proof {
                assert(world_2_blocks().take(b + 1).drop_last() =~= world_2_blocks().take(b as int));
                assert(world_2_blocks().take(b + 1).last() == world_2_blocks()[b as int]);
            }
            b = b + 1;
        }
        proof {
            assert(world_2_blocks().take(4) =~= world_2_blocks());
            assert(vram@ =~= level_vram(rom@, list));
        }
    }
    Ok(vram)
}

/// Where Mario starts, and the row his feet rest on.
pub const SPAWN_COLUMN: usize = 6;
pub const GROUND_ROW: usize = 14;

/// The cell the reachability fill starts from: the spawn column (or the last
/// column of a narrower level), just above the ground row.
pub open spec fn start_cell(w: int) -> (int, int) {
    (if 6 <= w - 1 { 6 } else { w - 1 }, 13)
}

/// A cell inside the level that is not solid.
pub open spec fn passable(cols: Seq<Seq<u8>>, c: int, r: int) -> bool {
    0 <= c < cols.len() && 0 <= r < 16 && !solid_tile(cols[c][r])
}

/// Two cells side by side or one above the other.
pub open spec fn neighbours(a: (int, int), b: (int, int)) -> bool {
    (a.0 == b.0 && (a.1 - b.1 == 1 || b.1 - a.1 == 1)) || (a.1 == b.1 && (a.0 - b.0 == 1 || b.0 - a.0 == 1))
}

/// `cell` can be reached from the start in at most `k` moves between
/// neighbouring passable cells.
pub open spec fn reached_in(cols: Seq<Seq<u8>>, k: int, cell: (int, int)) -> bool
    decreases k,
{
    if k <= 0 {
        cell == start_cell(cols.len() as int)
    } else {
        let (c, r) = cell;
        reached_in(cols, k - 1, cell) || (passable(cols, c, r) && (reached_in(cols, k - 1, (c - 1, r)) || reached_in(
            cols,
            k - 1,
            (c + 1, r),
        ) || reached_in(cols, k - 1, (c, r - 1)) || reached_in(cols, k - 1, (c, r + 1))))
    }
}

/// `cell` can be reached from the start, ignoring gravity.
pub open spec fn reached(cols: Seq<Seq<u8>>, cell: (int, int)) -> bool {
    exists|k: int| #[trigger] reached_in(cols, k, cell)
}

/// How many flags are set.
pub open spec fn count_set(s: Seq<bool>) -> nat
    decreases s.len(),
{
    if s.len() == 0 { 0 } else { count_set(s.drop_last()) + if s.last() { 1nat } else { 0nat } }
}

/// Setting a clear flag adds one to the count, which stays below the length.
proof fn lemma_count_set(s: Seq<bool>, i: int)
    requires
        0 <= i < s.len(),
        !s[i],
    ensures
        count_set(s.update(i, true)) == count_set(s) + 1,
        count_set(s) < s.len(),
    decreases s.len(),
{
    let t = s.update(i, true);
    if i == s.len() - 1 {
        assert(t.drop_last() =~= s.drop_last());
        lemma_count_le(s.drop_last());
    } else {
        assert(t.drop_last() =~= s.drop_last().update(i, true));
        lemma_count_set(s.drop_last(), i);
    }
}

proof fn lemma_count_le(s: Seq<bool>)
    ensures
        count_set(s) <= s.len(),
    decreases s.len(),
{
    if s.len() > 0 {
        lemma_count_le(s.drop_last());
    }
}

/// The fill's flag for cell `(c, r)`.
pub open spec fn flag(seen: Seq<bool>, c: int, r: int) -> bool {
    seen[c * 16 + r]
}

/// Every passable neighbour of `(c, r)` is flagged.
pub open spec fn closed(cols: Seq<Seq<u8>>, seen: Seq<bool>, c: int, r: int) -> bool {
    forall|n: (int, int)| neighbours((c, r), n) && passable(cols, n.0, n.1) ==> #[trigger] flag(seen, n.0, n.1)
}

/// What the flood fill keeps true: flags only on reachable cells, the
/// start flagged, every queued cell flagged, and every flagged cell that is
/// neither queued nor being visited has its passable neighbours flagged.
pub open spec fn fill_state(cols: Seq<Seq<u8>>, seen: Seq<bool>, queue: Seq<(usize, usize)>, cur: Option<(int, int)>) -> bool {
    let w = cols.len() as int;
    &&& seen.len() == w * 16
    &&& forall|c: int, r: int| 0 <= c < w && 0 <= r < 16 && #[trigger] flag(seen, c, r) ==> reached(cols, (c, r))
    &&& flag(seen, start_cell(w).0, start_cell(w).1)
    &&& forall|q: int| 0 <= q < queue.len() ==> (#[trigger] queue[q]).0 < w && queue[q].1 < 16 && flag(seen, queue[q].0 as int, queue[q].1 as int)
    &&& forall|i: int, j: int| 0 <= i < j < queue.len() ==> #[trigger] queue[i] != #[trigger] queue[j]
    &&& forall|c: int, r: int| 0 <= c < w && 0 <= r < 16 && #[trigger] flag(seen, c, r) && !queue.contains((c as usize, r as usize)) && cur != Some((c, r))
        ==> closed(cols, seen, c, r)
}


/// One move past a reached cell onto a passable neighbour is reached.
proof fn lemma_reach_step(cols: Seq<Seq<u8>>, k: int, p: (int, int), cell: (int, int))
    requires
        reached_in(cols, k, p),
        neighbours(p, cell),
        passable(cols, cell.0, cell.1),
    ensures
        reached(cols, cell),
{
    let kk = if k < 0 { 0 } else { k };
    assert(reached_in(cols, kk, p));
    assert(reached_in(cols, kk + 1, cell));
}

/// Flag cell `(nc, nr)`, a neighbour of the cell being visited, and queue it,
/// unless it is flagged already or solid.
#[verifier::rlimit(40)]
fn visit(columns: &[Column], seen: &mut Vec<bool>, queue: &mut Vec<(usize, usize)>, cur: (usize, usize), nc: usize, nr: usize, marked: Ghost<nat>) -> (m: Ghost<nat>)
    requires
        columns@.len() >= 1,
        columns@.len() * 16 <= usize::MAX,
        nc < columns@.len(),
        nr < 16,
        cur.0 < columns@.len() && cur.1 < 16,
        neighbours((cur.0 as int, cur.1 as int), (nc as int, nr as int)),
        flag(old(seen)@, cur.0 as int, cur.1 as int),
        fill_state(column_views(columns@), old(seen)@, old(queue)@, Some((cur.0 as int, cur.1 as int))),
        marked@ == count_set(old(seen)@),
        !old(queue)@.contains(cur),
    ensures
        fill_state(column_views(columns@), final(seen)@, final(queue)@, Some((cur.0 as int, cur.1 as int))),
        m@ == count_set(final(seen)@),
        m@ <= columns@.len() * 16,
        m@ + final(queue)@.len() == marked@ + old(queue)@.len() + 2 * (m@ - marked@),
        m@ >= marked@,
        flag(final(seen)@, cur.0 as int, cur.1 as int),
        !final(queue)@.contains(cur),
        passable(column_views(columns@), nc as int, nr as int) ==> flag(final(seen)@, nc as int, nr as int),
        forall|c: int, r: int| 0 <= c < columns@.len() && 0 <= r < 16 && flag(old(seen)@, c, r) ==> #[trigger] flag(final(seen)@, c, r),
{
    let ghost cols = column_views(columns@);
    let ghost w = columns@.len() as int;
    let i = nc * 16 + nr;
    assert(nc * 16 + nr < w * 16) by (nonlinear_arith)
        requires nc < w, nr < 16;
    assert(cols[nc as int] == columns@[nc as int]@);
    if seen[i] || is_solid(columns[nc][nr]) {
        proof {
            lemma_count_le(seen@);
        }
        return marked;
    }
    let ghost old_seen = seen@;
    proof {
        lemma_count_set(seen@, i as int);
        // The new cell is reachable one move past the current one.
        let k = choose|k: int| #[trigger] reached_in(cols, k, (cur.0 as int, cur.1 as int));
        assert(reached_in(cols, k, (cur.0 as int, cur.1 as int)));
        assert(!solid_tile(cols[nc as int][nr as int]));
        assert(passable(cols, nc as int, nr as int));
        lemma_reach_step(cols, k, (cur.0 as int, cur.1 as int), (nc as int, nr as int));
    }
    seen.set(i, true);
    queue.push((nc, nr));
    proof {
        assert forall|c: int, r: int| 0 <= c < w && 0 <= r < 16 implies #[trigger] flag(seen@, c, r) == (flag(old_seen, c, r) || (c == nc && r == nr)) by {
            assert(0 <= c * 16 + r < w * 16) by (nonlinear_arith)
                requires 0 <= c < w, 0 <= r < 16;
            if c * 16 + r == i {
                assert(c == nc && r == nr) by (nonlinear_arith)
                    requires c * 16 + r == nc * 16 + nr, 0 <= r < 16, 0 <= nr < 16;
            }
        }
        assert forall|c: int, r: int| 0 <= c < w && 0 <= r < 16 && #[trigger] flag(seen@, c, r) implies reached(cols, (c, r)) by {
            if c == nc && r == nr {
                let k = choose|k: int| #[trigger] reached_in(cols, k, (cur.0 as int, cur.1 as int));
                assert(reached_in(cols, k, (cur.0 as int, cur.1 as int)));
                assert(passable(cols, nc as int, nr as int));
                lemma_reach_step(cols, k, (cur.0 as int, cur.1 as int), (nc as int, nr as int));
            } else {
                assert(flag(old_seen, c, r));
            }
        }
        assert forall|q: int| 0 <= q < queue@.len() implies (#[trigger] queue@[q]).0 < w && queue@[q].1 < 16 && flag(seen@, queue@[q].0 as int, queue@[q].1 as int) by {
            if q < queue@.len() - 1 {
                assert(queue@[q] == old(queue)@[q]);
            }
        }
        assert forall|a: int, b: int| 0 <= a < b < queue@.len() implies #[trigger] queue@[a] != #[trigger] queue@[b] by {
            if b == queue@.len() - 1 {
                assert(queue@[a] == old(queue)@[a]);
                assert(flag(old_seen, old(queue)@[a].0 as int, old(queue)@[a].1 as int));
                assert(!flag(old_seen, nc as int, nr as int));
            } else {
                assert(queue@[a] == old(queue)@[a] && queue@[b] == old(queue)@[b]);
            }
        }
        assert forall|c: int, r: int| 0 <= c < w && 0 <= r < 16 && #[trigger] flag(seen@, c, r) && !queue@.contains((c as usize, r as usize))
            && Some((cur.0 as int, cur.1 as int)) != Some((c, r)) implies closed(cols, seen@, c, r) by {
            assert(!(c == nc && r == nr)) by {
                if c == nc && r == nr {
                    assert(queue@[queue@.len() - 1] == (nc, nr));
                }
            }
            assert(flag(old_seen, c, r));
            if old(queue)@.contains((c as usize, r as usize)) {
                let q = choose|q: int| 0 <= q < old(queue)@.len() && old(queue)@[q] == (c as usize, r as usize);
                assert(queue@[q] == old(queue)@[q]);
            }
            assert(closed(cols, old_seen, c, r));
            assert forall|n: (int, int)| neighbours((c, r), n) && passable(cols, n.0, n.1) implies #[trigger] flag(seen@, n.0, n.1) by {
                assert(flag(old_seen, n.0, n.1));
            }
        }
        assert(!queue@.contains(cur)) by {
            if queue@.contains(cur) {
                let q = choose|q: int| 0 <= q < queue@.len() && queue@[q] == cur;
                if q < queue@.len() - 1 {
                    assert(old(queue)@[q] == cur);
                }
            }
        }
        assert(seen@ == old_seen.update(i as int, true));
        lemma_count_le(seen@);
    }
    Ghost((marked@ + 1) as nat)
}

/// No flag set, no count.
proof fn lemma_count_none(s: Seq<bool>)
    requires
        forall|i: int| 0 <= i < s.len() ==> !s[i],
    ensures
        count_set(s) == 0,
    decreases s.len(),
{
    if s.len() > 0 {
        lemma_count_none(s.drop_last());
    }
}

/// Once the queue is empty, every reached cell is flagged.
proof fn lemma_fill_complete(cols: Seq<Seq<u8>>, seen: Seq<bool>, k: int, cell: (int, int))
    requires
        cols.len() >= 1,
        fill_state(cols, seen, seq![], None),
        reached_in(cols, k, cell),
    ensures
        0 <= cell.0 < cols.len() && 0 <= cell.1 < 16 && flag(seen, cell.0, cell.1),
    decreases k,
{
    let empty: Seq<(usize, usize)> = seq![];
    if k <= 0 {
    } else if reached_in(cols, k - 1, cell) {
        lemma_fill_complete(cols, seen, k - 1, cell);
    } else {
        let (c, r) = cell;
        let n = if reached_in(cols, k - 1, (c - 1, r)) {
            (c - 1, r)
        } else if reached_in(cols, k - 1, (c + 1, r)) {
            (c + 1, r)
        } else if reached_in(cols, k - 1, (c, r - 1)) {
            (c, r - 1)
        } else {
            (c, r + 1)
        };
        lemma_fill_complete(cols, seen, k - 1, n);
        assert(!empty.contains((n.0 as usize, n.1 as usize)));
        assert(closed(cols, seen, n.0, n.1));
        assert(neighbours((n.0, n.1), cell));
    }
}

/// Which cells of the level Mario could get to from the spawn, ignoring
/// gravity: a flood fill over everything that is not solid. The flag of
/// column `c`, row `r` is at `c * 16 + r`.
#[verifier::rlimit(40)]
fn reachable(columns: &[Column]) -> (seen: Vec<bool>)
    requires
        columns@.len() >= 1,
        columns@.len() * 16 <= usize::MAX,
    ensures
        seen@.len() == columns@.len() * 16,
        forall|c: int, r: int| 0 <= c < columns@.len() && 0 <= r < 16 ==> #[trigger] flag(seen@, c, r) == reached(column_views(columns@), (c, r)),
{
    let ghost cols = column_views(columns@);
    let width = columns.len();
    let total = width * 16;
    let mut seen = crate::engine::level::vec_of_false(total);
    let sc = if SPAWN_COLUMN < width - 1 { SPAWN_COLUMN } else { width - 1 };
    let start = (sc, GROUND_ROW - 1);
    proof {
        lemma_count_none(seen@);
        lemma_count_set(seen@, sc * 16 + 13);
    }
    seen.set(sc * 16 + 13, true);
    let mut queue: Vec<(usize, usize)> = Vec::new();
    queue.push(start);
    let ghost mut marked: nat = 1;
    proof {
        assert(reached_in(cols, 0, (sc as int, 13)));
        assert forall|c: int, r: int| 0 <= c < width && 0 <= r < 16 implies #[trigger] flag(seen@, c, r) == (c == sc && r == 13) by {
            assert(0 <= c * 16 + r < width * 16) by (nonlinear_arith)
                requires 0 <= c < width, 0 <= r < 16;
            if c * 16 + r == sc * 16 + 13 {
                assert(c == sc && r == 13) by (nonlinear_arith)
                    requires c * 16 + r == sc * 16 + 13, 0 <= r < 16;
            }
        }
        assert(queue@[0] == start);
        assert forall|c: int, r: int| 0 <= c < width && 0 <= r < 16 && #[trigger] flag(seen@, c, r) && !queue@.contains((c as usize, r as usize))
            && None::<(int, int)> != Some((c, r)) implies closed(cols, seen@, c, r) by {
            assert(c == sc && r == 13);
            assert(queue@.contains((c as usize, r as usize)));
        }
        assert(fill_state(cols, seen@, queue@, None));
    }
    while queue.len() > 0
        invariant
            width == columns@.len(),
            width >= 1,
            total == width * 16,
            total <= usize::MAX,
            cols == column_views(columns@),
            fill_state(cols, seen@, queue@, None),
            marked == count_set(seen@),
            marked <= total,
            queue@.len() <= marked,
        decreases 5 * (total - marked) + queue@.len(),
    {
        let ghost q0 = queue@;
        let cur = queue.pop().unwrap();
        let ghost m0 = marked;
        proof {
            assert(queue@ == q0.subrange(0, q0.len() - 1));
            assert(cur == q0[q0.len() - 1]);
            assert(!queue@.contains(cur)) by {
                if queue@.contains(cur) {
                    let q = choose|q: int| 0 <= q < queue@.len() && queue@[q] == cur;
                    assert(q0[q] == q0[q0.len() - 1]);
                }
            }
            assert forall|q: int| 0 <= q < queue@.len() implies (#[trigger] queue@[q]).0 < width && queue@[q].1 < 16 && flag(seen@, queue@[q].0 as int, queue@[q].1 as int) by {
                assert(queue@[q] == q0[q]);
            }
            assert forall|a: int, b: int| 0 <= a < b < queue@.len() implies #[trigger] queue@[a] != #[trigger] queue@[b] by {
                assert(queue@[a] == q0[a] && queue@[b] == q0[b]);
            }
            assert forall|c: int, r: int| 0 <= c < width && 0 <= r < 16 && #[trigger] flag(seen@, c, r) && !queue@.contains((c as usize, r as usize))
                && Some((cur.0 as int, cur.1 as int)) != Some((c, r)) implies closed(cols, seen@, c, r) by {
                if q0.contains((c as usize, r as usize)) {
                    let q = choose|q: int| 0 <= q < q0.len() && q0[q] == (c as usize, r as usize);
                    if q < q0.len() - 1 {
                        assert(queue@[q] == q0[q]);
                    }
                }
            }
        }
        let (c, r) = cur;
        let ghost before = seen@;
        let mut m = Ghost(marked);
        if c + 1 < width {
            m = visit(columns, &mut seen, &mut queue, cur, c + 1, r, m);
        }
        if c > 0 {
            m = visit(columns, &mut seen, &mut queue, cur, c - 1, r, m);
        }
        if r + 1 < 16 {
            m = visit(columns, &mut seen, &mut queue, cur, c, r + 1, m);
        }
        if r > 0 {
            m = visit(columns, &mut seen, &mut queue, cur, c, r - 1, m);
        }
        proof {
            marked = m@;
            assert(closed(cols, seen@, c as int, r as int)) by {
                assert forall|n: (int, int)| neighbours((c as int, r as int), n) && passable(cols, n.0, n.1) implies #[trigger] flag(seen@, n.0, n.1) by {
                }
            }
            assert forall|cc: int, rr: int| 0 <= cc < width && 0 <= rr < 16 && #[trigger] flag(seen@, cc, rr) && !queue@.contains((cc as usize, rr as usize))
                && None::<(int, int)> != Some((cc, rr)) implies closed(cols, seen@, cc, rr) by {
                if cc == c && rr == r {
                } else {
                    assert(Some((cur.0 as int, cur.1 as int)) != Some((cc, rr)));
                }
            }
        }
    }
    proof {
        assert(queue@ =~= Seq::<(usize, usize)>::empty());
        assert forall|c: int, r: int| 0 <= c < width && 0 <= r < 16 implies #[trigger] flag(seen@, c, r) == reached(cols, (c, r)) by {
            if reached(cols, (c, r)) {
                let k = choose|k: int| #[trigger] reached_in(cols, k, (c, r));
                lemma_fill_complete(cols, seen@, k, (c, r));
            }
        }
    }
    seen
}

/// Mario could stand at `(c, r)`: the cell and the one above are free and
/// the one below is solid.
pub open spec fn standing(cols: Seq<Seq<u8>>, c: int, r: int) -> bool {
    !solid_tile(cols[c][r]) && !solid_tile(cols[c][r - 1]) && solid_tile(cols[c][r + 1])
}

/// A place for the end trigger: Mario can stand there and just left of it,
/// and can get there from the spawn.
pub open spec fn end_spot(cols: Seq<Seq<u8>>, c: int, r: int) -> bool {
    1 <= c < cols.len() && 1 <= r < 15 && standing(cols, c, r) && standing(cols, c - 1, r) && reached(cols, (c, r))
}

/// The rightmost end spot, and the lowest in that column.
pub open spec fn far_end_spec(cols: Seq<Seq<u8>>) -> Option<(usize, usize)> {
    if exists|c: int, r: int| #[trigger] end_spot(cols, c, r) {
        let (c, r) = choose|c: int, r: int| #[trigger] end_spot(cols, c, r)
            && forall|c2: int, r2: int| #[trigger] end_spot(cols, c2, r2) ==> c2 < c || (c2 == c && r2 <= r);
        Some((c as usize, r as usize))
    } else {
        None
    }
}

/// Mario could stand at row `r` of `col`.
fn stands(col: &Column, r: usize) -> (b: bool)
    requires
        1 <= r < 15,
    ensures
        b == (!solid_tile(col@[r as int]) && !solid_tile(col@[r - 1]) && solid_tile(col@[r + 1])),
{
    !is_solid(col[r]) && !is_solid(col[r - 1]) && is_solid(col[r + 1])
}

/// `(c, r)` is the rightmost end spot, and the lowest in its column.
proof fn lemma_far_end_pick(cols: Seq<Seq<u8>>, c: int, r: int)
    requires
        end_spot(cols, c, r),
        forall|c2: int, r2: int| c < c2 ==> !#[trigger] end_spot(cols, c2, r2),
        forall|r2: int| r < r2 ==> !#[trigger] end_spot(cols, c, r2),
    ensures
        far_end_spec(cols) == Some((c as usize, r as usize)),
{
    assert forall|c2: int, r2: int| #[trigger] end_spot(cols, c2, r2) implies c2 < c || (c2 == c && r2 <= r) by {
        if c2 > c {
        } else if c2 == c && r2 > r {
        }
    }
    let w = choose|c1: int, r1: int| #[trigger] end_spot(cols, c1, r1)
        && forall|c2: int, r2: int| #[trigger] end_spot(cols, c2, r2) ==> c2 < c1 || (c2 == c1 && r2 <= r1);
    assert(end_spot(cols, w.0, w.1));
    assert(w.0 == c && w.1 == r);
}

/// Where to put the end trigger in a level with no exit door: the rightmost
/// cell Mario could actually stand on and reach, and the lowest in its
/// column.
#[verifier::rlimit(30)]
pub fn far_end(columns: &[Column]) -> (r: Option<(usize, usize)>)
    requires
        columns@.len() >= 1,
        columns@.len() * 16 <= usize::MAX,
    ensures
        r == far_end_spec(column_views(columns@)),
        r matches Some(p) ==> 1 <= p.0 < columns@.len() && 1 <= p.1 < 15,
{
    let ghost cols = column_views(columns@);
    let open = reachable(columns);
    let mut c = columns.len();
    while c > 1
        invariant
            1 <= c <= columns@.len(),
            columns@.len() * 16 <= usize::MAX,
            cols == column_views(columns@),
            open@.len() == columns@.len() * 16,
            forall|cc: int, rr: int| 0 <= cc < columns@.len() && 0 <= rr < 16 ==> #[trigger] flag(open@, cc, rr) == reached(cols, (cc, rr)),
            forall|c2: int, r2: int| c <= c2 ==> !#[trigger] end_spot(cols, c2, r2),
        decreases c,
    {
        c = c - 1;
        let col = &columns[c];
        let left = &columns[c - 1];
        assert(cols[c as int] == col@ && cols[c - 1] == left@);
        let mut r: usize = 15;
        while r > 1
            invariant
                1 <= r <= 15,
                1 <= c < columns@.len(),
                columns@.len() * 16 <= usize::MAX,
                cols == column_views(columns@),
                cols[c as int] == col@ && cols[c - 1] == left@,
                open@.len() == columns@.len() * 16,
                forall|cc: int, rr: int| 0 <= cc < columns@.len() && 0 <= rr < 16 ==> #[trigger] flag(open@, cc, rr) == reached(cols, (cc, rr)),
                forall|c2: int, r2: int| c < c2 ==> !#[trigger] end_spot(cols, c2, r2),
                forall|r2: int| r <= r2 ==> !#[trigger] end_spot(cols, c as int, r2),
            decreases r,
        {
            r = r - 1;
            let here = stands(col, r);
            let beside = stands(left, r);
            assert(c * 16 + r < columns@.len() * 16) by (nonlinear_arith)
                requires c < columns@.len(), r < 16;
            let at = c * 16 + r;
            if here && beside && open[at] {
                proof {
                    assert(flag(open@, c as int, r as int));
                    assert(end_spot(cols, c as int, r as int));
                    lemma_far_end_pick(cols, c as int, r as int);
                }
                return Some((c, r));
            }
            proof {
                if end_spot(cols, c as int, r as int) {
                    assert(flag(open@, c as int, r as int));
                }
            }
        }
        proof {
            assert forall|c2: int, r2: int| c <= c2 implies !#[trigger] end_spot(cols, c2, r2) by {
                if c2 == c && r2 < 1 {
                }
            }
        }
    }
    proof {
        assert(!exists|c2: int, r2: int| #[trigger] end_spot(cols, c2, r2));
    }
    None
}

/// The glyph of a tile in the level text format: `#` solid, `^` a one-way
/// platform, `C` a coin, `.` empty.
pub open spec fn glyph(t: u8) -> u8 {
    if solid_tile(t) {
        0x23u8
    } else if platform_tile(t) {
        0x5Eu8
    } else if coin_tile(t) {
        0x43u8
    } else {
        0x2Eu8
    }
}

/// The terrain as rows of glyphs, top row first.
pub open spec fn terrain_rows(cols: Seq<Seq<u8>>) -> Seq<Seq<u8>> {
    Seq::new(16, |r: int| Seq::new(cols.len(), |c: int| glyph(cols[c][r])))
}

/// One object record `(column, row, marker)` stamped in, where its cell is
/// on the grid and still empty.
pub open spec fn stamp(rows: Seq<Seq<u8>>, obj: (usize, usize, u8)) -> Seq<Seq<u8>> {
    let (c, r, m) = obj;
    if r < rows.len() && c < rows[r as int].len() && rows[r as int][c as int] == 0x2Eu8 {
        rows.update(r as int, rows[r as int].update(c as int, m))
    } else {
        rows
    }
}

/// The records stamped in one after another.
pub open spec fn stamp_all(rows: Seq<Seq<u8>>, objects: Seq<(usize, usize, u8)>) -> Seq<Seq<u8>>
    decreases objects.len(),
{
    if objects.len() == 0 {
        rows
    } else {
        stamp(stamp_all(rows, objects.drop_last()), objects.last())
    }
}

/// Where the end trigger goes: the exit door, else the far end, else two
/// columns from the right at the spawn row.
pub open spec fn end_cell(cols: Seq<Seq<u8>>) -> (usize, usize) {
    match exit_door_spec(cols) {
        Some(p) => p,
        None => match far_end_spec(cols) {
            Some(p) => p,
            None => ((cols.len() - 2) as usize, (GROUND_ROW - 1) as usize),
        },
    }
}

/// The column Mario spawns in on a level `width` columns wide.
pub open spec fn spawn_column(width: int) -> int {
    if SPAWN_COLUMN < width - 1 { SPAWN_COLUMN as int } else { width - 1 }
}

/// The grid with objects, spawn `M` and end `E` on it. Levels narrower than
/// two columns get no markers.
pub open spec fn marked_rows(cols: Seq<Seq<u8>>, objects: Seq<(usize, usize, u8)>) -> Seq<Seq<u8>> {
    let g = stamp_all(terrain_rows(cols), objects);
    if cols.len() >= 2 {
        let sr = GROUND_ROW - 1;
        let g2 = g.update(sr, g[sr].update(spawn_column(cols.len() as int), 0x4Du8));
        let e = end_cell(cols);
        g2.update(e.1 as int, g2[e.1 as int].update(e.0 as int, 0x45u8))
    } else {
        g
    }
}

/// A row of ASCII bytes as characters.
pub open spec fn row_chars(row: Seq<u8>) -> Seq<char> {
    row.map_values(|b: u8| b as char)
}

/// Rows of text, each ended by a newline.
pub open spec fn lines_text(rows: Seq<Seq<u8>>) -> Seq<char>
    decreases rows.len(),
{
    if rows.len() == 0 {
        Seq::empty()
    } else {
        lines_text(rows.drop_last()) + row_chars(rows.last()).push('\n')
    }
}

/// The level text of `cols` with `objects` stamped in.
pub open spec fn level_text(cols: Seq<Seq<u8>>, objects: Seq<(usize, usize, u8)>) -> Seq<char> {
    lines_text(marked_rows(cols, objects))
}

/// Markers are single ASCII characters.
pub open spec fn ascii_markers(objects: Seq<(usize, usize, u8)>) -> bool {
    forall|k: int| 0 <= k < objects.len() ==> #[trigger] objects[k].2 < 0x80
}

fn glyph_of(t: u8) -> (g: u8)
    ensures
        g == glyph(t),
{
    if is_solid(t) {
        0x23
    } else if is_platform(t) {
        0x5E
    } else if is_coin(t) {
        0x43
    } else {
        0x2E
    }
}

/// The terrain glyph rows.
fn terrain_grid(columns: &[Column]) -> (g: Vec<Vec<u8>>)
    ensures
        g@.len() == 16,
        forall|r: int| 0 <= r < 16 ==> #[trigger] g@[r]@ == terrain_rows(column_views(columns@))[r],
{
    let ghost cols = column_views(columns@);
    let mut g: Vec<Vec<u8>> = Vec::new();
    let mut r: usize = 0;
    while r < 16
        invariant
            r <= 16,
            g@.len() == r,
            cols == column_views(columns@),
            forall|k: int| 0 <= k < r ==> #[trigger] g@[k]@ == terrain_rows(cols)[k],
        decreases 16 - r,
    {
        let mut row: Vec<u8> = Vec::new();
        let mut c: usize = 0;
        while c < columns.len()
            invariant
                c <= columns@.len(),
                r < 16,
                row@.len() == c,
                cols == column_views(columns@),
                forall|k: int| 0 <= k < c ==> #[trigger] row@[k] == glyph(cols[k][r as int]),
            decreases columns@.len() - c,
        {
            let t = columns[c][r];
            assert(cols[c as int][r as int] == t);
            row.push(glyph_of(t));
            c = c + 1;
        }
        assert(row@ =~= terrain_rows(cols)[r as int]);
        g.push(row);
        r = r + 1;
    }
    g
}

/// Sets one cell of the grid.
fn set_cell(g: &mut Vec<Vec<u8>>, r: usize, c: usize, v: u8)
    requires
        r < old(g)@.len(),
        c < old(g)@[r as int]@.len(),
    ensures
        final(g)@.len() == old(g)@.len(),
        forall|k: int| 0 <= k < final(g)@.len() ==> #[trigger] final(g)@[k]@
            == (if k == r { old(g)@[k]@.update(c as int, v) } else { old(g)@[k]@ }),
{
    let mut row = g[r].clone();
    row.set(c, v);
    g.set(r, row);
}

/// The grid as views.
pub open spec fn grid_views(g: Seq<Vec<u8>>) -> Seq<Seq<u8>> {
    Seq::new(g.len(), |k: int| g[k]@)
}

/// Render decoded columns as the plain-text level format: `#` solid, `^` a
/// one-way platform, `C` a coin, `.` empty, `M` spawn, `E` end trigger.
pub fn to_level_text(columns: &[Column]) -> (r: String)
    requires
        columns@.len() * 16 <= usize::MAX,
    ensures
        r@ == level_text(column_views(columns@), Seq::empty()),
{
    let none: Vec<(usize, usize, u8)> = Vec::new();
    to_level_text_with_objects(columns, &none)
}

/// The same, with object markers stamped in, each on a cell that is still
/// empty; a record off the grid or on a filled cell is dropped.
#[verifier::rlimit(40)]
pub fn to_level_text_with_objects(columns: &[Column], objects: &[(usize, usize, u8)]) -> (r: String)
    requires
        columns@.len() * 16 <= usize::MAX,
        ascii_markers(objects@),
    ensures
        r@ == level_text(column_views(columns@), objects@),
{
    let ghost cols = column_views(columns@);
    let width = columns.len();
    let mut g = terrain_grid(columns);
    proof {
        assert(grid_views(g@) =~= terrain_rows(cols));
        assert(objects@.take(0) =~= Seq::<(usize, usize, u8)>::empty());
    }
    let mut k: usize = 0;
    while k < objects.len()
        invariant
            k <= objects@.len(),
            cols == column_views(columns@),
            g@.len() == 16,
            forall|q: int| 0 <= q < 16 ==> #[trigger] g@[q]@.len() == width,
            width == columns@.len(),
            grid_views(g@) == stamp_all(terrain_rows(cols), objects@.take(k as int)),
        decreases objects@.len() - k,
    {
        let (c, r, m) = objects[k];
        let ghost before = grid_views(g@);
        if r < 16 && c < width && g[r][c] == 0x2E {
            set_cell(&mut g, r, c, m);
            assert(grid_views(g@) =~= stamp(before, objects@[k as int]));
        } else {
            assert(before == stamp(before, objects@[k as int]));
        }
        proof {
            assert(objects@.take(k + 1).drop_last() =~= objects@.take(k as int));
        }
        k = k + 1;
    }
    proof {
        assert(objects@.take(k as int) =~= objects@);
    }
    if width >= 2 {
        let sc = if SPAWN_COLUMN < width - 1 { SPAWN_COLUMN } else { width - 1 };
        let ghost g1 = grid_views(g@);
        set_cell(&mut g, GROUND_ROW - 1, sc, 0x4D);
        let ghost g2 = grid_views(g@);
        assert(g2 =~= g1.update(13, g1[13].update(sc as int, 0x4Du8)));
        let end = match exit_door(columns) {
            Some(p) => p,
            None => match far_end(columns) {
                Some(p) => p,
                None => (width - 2, GROUND_ROW - 1),
            },
        };
        assert(end == end_cell(cols));
        set_cell(&mut g, end.1, end.0, 0x45);
        assert(grid_views(g@) =~= g2.update(end.1 as int, g2[end.1 as int].update(end.0 as int, 0x45u8)));
    }
    assert(grid_views(g@) == marked_rows(cols, objects@));
    grid_text(&g)
}

/// The grid as text, one line per row.
fn grid_text(g: &Vec<Vec<u8>>) -> (s: String)
    ensures
        s@ == lines_text(grid_views(g@)),
{
    let mut s = String::new();
    let mut r: usize = 0;
    while r < g.len()
        invariant
            r <= g@.len(),
            s@ == lines_text(grid_views(g@).take(r as int)),
        decreases g@.len() - r,
    {
        let row = &g[r];
        let ghost start = s@;
        let mut c: usize = 0;
        while c < row.len()
            invariant
                c <= row@.len(),
                s@ == start + row_chars(row@.take(c as int)),
            decreases row@.len() - c,
        {
            s.push(row[c] as char);
            assert(row_chars(row@.take(c + 1)) =~= row_chars(row@.take(c as int)).push(row@[c as int] as char));
            c = c + 1;
        }
        s.push('\n');
        proof {
            assert(row@.take(c as int) =~= row@);
            assert(grid_views(g@).take(r + 1).drop_last() =~= grid_views(g@).take(r as int));
            assert(grid_views(g@)[r as int] == row@);
        }
        r = r + 1;
    }
    proof {
        assert(grid_views(g@).take(r as int) =~= grid_views(g@));
    }
    s
}

/// A column with something solid or a platform in it.
pub open spec fn has_ground(col: Seq<u8>) -> bool {
    exists|r: int| 0 <= r < 16 && (solid_tile(#[trigger] col[r]) || platform_tile(col[r]))
}

/// How many of `cols` have something solid or a platform in them.
pub open spec fn ground_count(cols: Seq<Seq<u8>>) -> nat
    decreases cols.len(),
{
    if cols.len() == 0 {
        0
    } else {
        ground_count(cols.drop_last()) + if has_ground(cols.last()) { 1nat } else { 0nat }
    }
}

/// The fewest screens a screen list can have.
pub const MIN_SCREENS: usize = 6;

/// Whether `start` holds a screen list: at least [`MIN_SCREENS`] pointers,
/// every one of them decoding 20 column records, and at least seven in ten of
/// the columns holding something solid or a platform.
pub open spec fn list_at(rom: Seq<u8>, start: usize) -> bool {
    let ptrs = list_from(rom, start as int);
    let cols = level_columns(rom, start);
    &&& ptrs.len() >= MIN_SCREENS
    &&& cols.len() == ptrs.len() * SCREEN_COLUMNS
    &&& 10 * ground_count(cols) >= 7 * cols.len()
}

/// The screen lists starting in `BANK_WINDOW..hi`, in order.
pub open spec fn lists_below(rom: Seq<u8>, hi: int) -> Seq<(usize, Seq<u16>)>
    decreases hi - BANK_WINDOW,
{
    if hi <= BANK_WINDOW {
        Seq::empty()
    } else {
        let s = (hi - 1) as usize;
        lists_below(rom, hi - 1) + if list_at(rom, s) { seq![(s, list_from(rom, s as int))] } else { Seq::empty() }
    }
}

/// Overlapping finds collapsed: a list is dropped when it starts inside the
/// pointer run of the last one kept.
pub open spec fn collapsed(found: Seq<(usize, Seq<u16>)>) -> Seq<(usize, Seq<u16>)>
    decreases found.len(),
{
    if found.len() == 0 {
        Seq::empty()
    } else {
        let kept = collapsed(found.drop_last());
        let e = found.last();
        if kept.len() > 0 && e.0 < kept.last().0 + 2 * kept.last().1.len() {
            kept
        } else {
            kept.push(e)
        }
    }
}

/// The lists as plain values.
pub open spec fn found_views(v: Seq<(usize, Vec<u16>)>) -> Seq<(usize, Seq<u16>)> {
    Seq::new(v.len(), |k: int| (v[k].0, v[k].1@))
}

proof fn lemma_list_len(rom: Seq<u8>, i: int)
    requires
        0 <= i,
    ensures
        list_from(rom, i).len() <= rom.len(),
        i <= rom.len() ==> list_from(rom, i).len() <= rom.len() - i,
    decreases rom.len() - i,
{
    if !(i < 0 || i + 1 >= rom.len() || rom[i] == 0xFF) {
        lemma_list_len(rom, i + 2);
    }
}

fn ground_in(col: &Column) -> (b: bool)
    ensures
        b == has_ground(col@),
{
    let mut r: usize = 0;
    while r < 16
        invariant
            r <= 16,
            forall|q: int| 0 <= q < r ==> !solid_tile(#[trigger] col@[q]) && !platform_tile(col@[q]),
        decreases 16 - r,
    {
        if is_solid(col[r]) || is_platform(col[r]) {
            return true;
        }
        r = r + 1;
    }
    false
}

fn count_ground(columns: &Vec<Column>) -> (n: usize)
    ensures
        n == ground_count(column_views(columns@)),
        n <= columns@.len(),
{
    let mut n: usize = 0;
    let mut c: usize = 0;
    while c < columns.len()
        invariant
            c <= columns@.len(),
            n <= c,
            n == ground_count(column_views(columns@.take(c as int))),
        decreases columns@.len() - c,
    {
        proof {
            assert(column_views(columns@.take(c + 1)).drop_last() =~= column_views(columns@.take(c as int)));
            assert(column_views(columns@.take(c + 1)).last() == columns@[c as int]@);
        }
        if ground_in(&columns[c]) {
            n = n + 1;
        }
        c = c + 1;
    }
    proof {
        assert(columns@.take(c as int) =~= columns@);
    }
    n
}

/// Whether `start` holds a screen list, and its pointers.
fn list_here(rom: &[u8], start: usize) -> (r: Option<Vec<u16>>)
    requires
        start < rom@.len() < 0x2_0000,
    ensures
        match r {
            Some(p) => list_at(rom@, start) && p@ == list_from(rom@, start as int),
            None => !list_at(rom@, start),
        },
{
    let pointers = screen_list(rom, start);
    if pointers.len() < MIN_SCREENS {
        return None;
    }
    proof {
        lemma_list_len(rom@, start as int);
    }
    let columns = decode_level(rom, start);
    if columns.len() != pointers.len() * SCREEN_COLUMNS {
        return None;
    }
    let solid = count_ground(&columns);
    if 10 * solid < 7 * columns.len() {
        return None;
    }
    Some(pointers)
}

/// Every screen list in the ROM, found by structure rather than by a pointer
/// table: a run of pointers into the bank window, terminated by `0xFF`, where
/// every pointer decodes 20 valid column records and at least seven in ten of
/// the columns hold something solid. A list also decodes from two bytes in,
/// minus its first screen, so a find that starts inside the last kept list's
/// pointer run is dropped.
///
/// The share is compared in integers; for column counts below 2^21 that is
/// the same as comparing against seven tenths in single precision. A list of
/// `n` pointers takes `2n` bytes and gives `20n` columns, so a ROM under
/// 128 KiB (the cartridge itself is 64 KiB, and the extractors check its hash
/// first) stays under that count; on larger input the two comparisons could
/// part, and the function is not stated for it.
#[verifier::rlimit(40)]
pub fn find_screen_lists(rom: &[u8]) -> (r: Vec<(usize, Vec<u16>)>)
    requires
        rom@.len() < 0x2_0000,
    ensures
        found_views(r@) == collapsed(lists_below(rom@, rom@.len() as int)),
{
    let mut kept: Vec<(usize, Vec<u16>)> = Vec::new();
    let mut start = BANK_WINDOW;
    if rom.len() <= start {
        proof {
            assert(found_views(kept@) =~= collapsed(lists_below(rom@, rom@.len() as int)));
        }
        return kept;
    }
    proof {
        assert(found_views(kept@) =~= collapsed(lists_below(rom@, start as int)));
    }
    while start < rom.len()
        invariant
            BANK_WINDOW <= start <= rom@.len() < 0x2_0000,
            found_views(kept@) == collapsed(lists_below(rom@, start as int)),
            forall|k: int| 0 <= k < kept@.len() ==> #[trigger] kept@[k].1@.len() <= rom@.len() && kept@[k].0 < rom@.len(),
        decreases rom@.len() - start,
    {
        let ghost prev = lists_below(rom@, start as int);
        match list_here(rom, start) {
            Some(pointers) => {
                let ghost e = (start, pointers@);
                proof {
                    lemma_list_len(rom@, start as int);
                    assert(lists_below(rom@, start + 1) == prev.push(e));
                    assert(prev.push(e).drop_last() =~= prev);
                }
                let n = kept.len();
                let skip = n > 0 && start < kept[n - 1].0 + 2 * kept[n - 1].1.len();
                if !skip {
                    let ghost before = kept@;
                    kept.push((start, pointers));
                    proof {
                        assert(found_views(kept@) =~= found_views(before).push(e));
                    }
                }
            },
            None => {
                proof {
                    assert(lists_below(rom@, start + 1) =~= prev);
                }
            },
        }
        start = start + 1;
    }
    kept
}

/// Decode the level whose screen list starts at `start` out of a ROM image,
/// once the image is confirmed to be the expected dump. A start that decodes
/// no column at all is `BadFormat`.
pub fn extract_level_from(data: &[u8], start: usize) -> (r: Result<Vec<Column>, super::AssetError>)
    ensures
        match r {
            Ok(v) => super::verify_data_outcome(data@) && level_columns(data@, start).len() > 0
                && column_views(v@) == level_columns(data@, start),
            Err(super::AssetError::Rom(crate::rom::VerifyError::Mismatch(_))) => !super::verify_data_outcome(data@),
            Err(super::AssetError::BadFormat) => super::verify_data_outcome(data@) && level_columns(data@, start).len() == 0,
            Err(_) => false,
        },
{
    match crate::rom::verify_data(data) {
        Err(e) => {
            return Err(super::AssetError::Rom(e));
        },
        Ok(_) => {},
    }
    let columns = decode_level(data, start);
    if columns.len() == 0 {
        return Err(super::AssetError::BadFormat);
    }
    Ok(columns)
}

/// The tile ids of one screen of the level, `SCREEN_COLUMNS` wide and all 16
/// rows tall, row by row, starting at world column `first` and wrapping
/// around the level's right edge.
pub open spec fn screen_ids(cols: Seq<Seq<u8>>, first: int) -> Seq<u8> {
    Seq::new(320, |k: int| cols[(first + k % 20) % (cols.len() as int)][k / 20])
}

/// A blank tile: every pixel color 0.
pub open spec fn is_blank(t: crate::tiles::Tile) -> bool {
    forall|y: int, x: int| 0 <= y < 8 && 0 <= x < 8 ==> #[trigger] t.pixels[y][x] == 0
}

fn screen_tile_ids(columns: &Vec<Column>, first: usize) -> (r: Vec<u8>)
    requires
        columns@.len() > 0,
        first + SCREEN_COLUMNS <= usize::MAX,
    ensures
        r@ == screen_ids(column_views(columns@), first as int),
{
    let ghost cols = column_views(columns@);
    let mut ids: Vec<u8> = Vec::new();
    let mut row: usize = 0;
    while row < 16
        invariant
            row <= 16,
            columns@.len() > 0,
            first + SCREEN_COLUMNS <= usize::MAX,
            cols == column_views(columns@),
            ids@.len() == row * 20,
            forall|k: int| 0 <= k < ids@.len() ==> #[trigger] ids@[k] == screen_ids(cols, first as int)[k],
        decreases 16 - row,
    {
        let mut i: usize = 0;
        while i < SCREEN_COLUMNS
            invariant
                i <= SCREEN_COLUMNS,
                row < 16,
                columns@.len() > 0,
                first + SCREEN_COLUMNS <= usize::MAX,
                cols == column_views(columns@),
                ids@.len() == row * 20 + i,
                forall|k: int| 0 <= k < ids@.len() ==> #[trigger] ids@[k] == screen_ids(cols, first as int)[k],
            decreases SCREEN_COLUMNS - i,
        {
            let c = (first + i) % columns.len();
            let id = columns[c][row];
            proof {
                let k = row * 20 + i;
                assert(k % 20 == i && k / 20 == row) by (nonlinear_arith)
                    requires k == row * 20 + i, i < 20;
                assert(cols[c as int][row as int] == id);
            }
            ids.push(id);
            i = i + 1;
        }
        row = row + 1;
    }
    assert(ids@ =~= screen_ids(cols, first as int));
    ids
}

/// One screen of a level as the cartridge draws it, from a ROM image once it
/// is confirmed to be the expected dump: a sheet of the screen's distinct
/// tiles after a blank one, and a 20 by 18 map of indices into it starting at
/// world column `first_column`. The top two rows are blank: the status bar
/// goes there.
#[verifier::rlimit(40)]
pub fn extract_screen_from(data: &[u8], list: usize, first_column: usize) -> (r: Result<(super::TileSheet, Vec<u8>), super::AssetError>)
    requires
        first_column + SCREEN_COLUMNS <= usize::MAX,
    ensures
        match r {
            Ok((sheet, cells)) => {
                &&& super::verify_data_outcome(data@)
                &&& level_columns(data@, list).len() > 0
                &&& data@.len() >= 0x9832
                &&& sheet.palette == super::DEFAULT_BGP
                &&& sheet.tiles@.len() >= 1 && is_blank(sheet.tiles@[0])
                &&& cells@.len() == 360
                &&& forall|k: int| 0 <= k < 40 ==> #[trigger] cells@[k] == 0
                &&& super::title::sheet_matches(
                    level_vram(data@, list),
                    screen_ids(level_columns(data@, list), first_column as int),
                    sheet.tiles@.skip(1),
                    cells@.skip(40),
                    1,
                )
            },
            Err(super::AssetError::Rom(crate::rom::VerifyError::Mismatch(_))) => !super::verify_data_outcome(data@),
            Err(super::AssetError::BadFormat) => super::verify_data_outcome(data@) && level_columns(data@, list).len() == 0,
            Err(super::AssetError::OutOfRange { end, len }) => super::verify_data_outcome(data@) && level_columns(data@, list).len()
                > 0 && data@.len() < 0x9832 && end == 0x9832 && len == data@.len(),
            Err(_) => false,
        },
{
    match crate::rom::verify_data(data) {
        Err(e) => {
            return Err(super::AssetError::Rom(e));
        },
        Ok(_) => {},
    }
    let columns = decode_level(data, list);
    if columns.len() == 0 {
        return Err(super::AssetError::BadFormat);
    }
    let vram = match tiles_for_level(data, list) {
        Ok(v) => v,
        Err(e) => {
            return Err(e);
        },
    };
    let ids = screen_tile_ids(&columns, first_column);
    let raws = super::title::gather(&vram, &ids);
    let (distinct, found) = super::intern(&raws, 1);
    let decoded_tiles = super::title::decode_all(&distinct);
    let mut tiles: Vec<crate::tiles::Tile> = Vec::new();
    let blank = crate::tiles::Tile { pixels: [[0u8; 8]; 8] };
    assert(is_blank(blank));
    tiles.push(blank);
    let mut k: usize = 0;
    while k < decoded_tiles.len()
        invariant
            k <= decoded_tiles@.len(),
            tiles@.len() == k + 1,
            is_blank(tiles@[0]),
            tiles@.skip(1) == decoded_tiles@.take(k as int),
        decreases decoded_tiles@.len() - k,
    {
        tiles.push(decoded_tiles[k]);
        k = k + 1;
        assert(tiles@.skip(1) =~= decoded_tiles@.take(k as int));
    }
    assert(decoded_tiles@.take(k as int) =~= decoded_tiles@);
    let mut cells: Vec<u8> = Vec::new();
    let mut q: usize = 0;
    while q < 40
        invariant
            q <= 40,
            cells@.len() == q,
            forall|j: int| 0 <= j < q ==> #[trigger] cells@[j] == 0,
        decreases 40 - q,
    {
        cells.push(0);
        q = q + 1;
    }
    let mut j: usize = 0;
    while j < found.len()
        invariant
            j <= found@.len(),
            cells@.len() == 40 + j,
            forall|i: int| 0 <= i < 40 ==> #[trigger] cells@[i] == 0,
            cells@.skip(40) == found@.take(j as int),
        decreases found@.len() - j,
    {
        cells.push(found[j]);
        j = j + 1;
        assert(cells@.skip(40) =~= found@.take(j as int));
    }
    assert(found@.take(j as int) =~= found@);
    proof {
        super::title::lemma_sheet_matches(vram@, ids@, raws@, distinct@, found@, decoded_tiles@, 1);
    }
    Ok((super::TileSheet::new(tiles, super::DEFAULT_BGP), cells))
}

/// The tile data in video RAM while a level of `world` (counting from 1)
/// plays: World 2 loads its overlay, the other worlds use the shared atlas as
/// it stands, since no overlay of theirs has been measured.
pub open spec fn world_vram(rom: Seq<u8>, world: usize) -> Seq<u8> {
    level_vram(rom, if world == 2 { LEVEL_2_1_LIST } else { LEVEL_1_1_LIST })
}

/// The tile data in video RAM while a level of `world` plays.
pub fn tiles_for_world(rom: &[u8], world: usize) -> (r: Result<Vec<u8>, super::AssetError>)
    ensures
        match r {
            Ok(v) => 0x9832 <= rom@.len() && v@ == world_vram(rom@, world),
            Err(e) => rom@.len() < 0x9832 && (e matches super::AssetError::OutOfRange { end, len } && end == 0x9832 && len == rom@.len()),
        },
{
    let list = if world == 2 { LEVEL_2_1_LIST } else { LEVEL_1_1_LIST };
    tiles_for_level(rom, list)
}

/// The lists that survive the collapse never overlap: each one starts past
/// the whole pointer run of the one kept before it.
pub proof fn law_kept_lists_do_not_overlap(found: Seq<(usize, Seq<u16>)>)
    ensures
        forall|k: int| 0 < k < collapsed(found).len() ==> #[trigger] collapsed(found)[k].0 >= collapsed(found)[k - 1].0
            + 2 * collapsed(found)[k - 1].1.len(),
    decreases found.len(),
{
    if found.len() > 0 {
        law_kept_lists_do_not_overlap(found.drop_last());
        let kept = collapsed(found.drop_last());
        let e = found.last();
        if !(kept.len() > 0 && e.0 < kept.last().0 + 2 * kept.last().1.len()) {
            assert forall|k: int| 0 < k < collapsed(found).len() implies #[trigger] collapsed(found)[k].0 >= collapsed(found)[k - 1].0
                + 2 * collapsed(found)[k - 1].1.len() by {
                if k < kept.len() {
                    assert(collapsed(found)[k] == kept[k]);
                    assert(collapsed(found)[k - 1] == kept[k - 1]);
                }
            }
        }
    }
}

/// ASCII characters as bytes.
pub open spec fn chars_as_bytes(cs: Seq<char>) -> Seq<u8> {
    Seq::new(cs.len(), |i: int| cs[i] as u8)
}

/// Rows of bytes, each ended by a newline byte.
pub open spec fn lines_bytes(rows: Seq<Seq<u8>>) -> Seq<u8>
    decreases rows.len(),
{
    if rows.len() == 0 {
        Seq::empty()
    } else {
        lines_bytes(rows.drop_last()) + rows.last().push(10u8)
    }
}

/// No row holds a line break byte.
pub open spec fn no_breaks(rows: Seq<Seq<u8>>) -> bool {
    forall|r: int, c: int| 0 <= r < rows.len() && 0 <= c < rows[r].len() ==> #[trigger] rows[r][c] != 10 && rows[r][c] != 13
}

proof fn lemma_lines_as_bytes(rows: Seq<Seq<u8>>)
    ensures
        chars_as_bytes(lines_text(rows)) == lines_bytes(rows),
    decreases rows.len(),
{
    if rows.len() > 0 {
        lemma_lines_as_bytes(rows.drop_last());
        let last = rows.last();
        assert forall|i: int| 0 <= i < last.len() implies (#[trigger] row_chars(last)[i]) as u8 == last[i] by {
            let b = last[i];
            assert((b as char) as u8 == b);
        }
        assert(chars_as_bytes(lines_text(rows)) =~= lines_bytes(rows));
    }
}

proof fn lemma_split_append(y: Seq<u8>, r: Seq<u8>)
    requires
        forall|i: int| 0 <= i < r.len() ==> #[trigger] r[i] != 10,
    ensures
        split_newlines(y + r) == split_newlines(y).update(
            split_newlines(y).len() - 1,
            split_newlines(y).last() + r,
        ),
    decreases r.len(),
{
    crate::engine::level::lemma_split_bounds(y);
    if r.len() == 0 {
        assert(y + r =~= y);
        assert(split_newlines(y).last() + r =~= split_newlines(y).last());
        assert(split_newlines(y).update(split_newlines(y).len() - 1, split_newlines(y).last()) =~= split_newlines(y));
    } else {
        let r1 = r.drop_last();
        lemma_split_append(y, r1);
        assert((y + r).drop_last() =~= y + r1);
        assert((y + r).last() == r.last());
        assert((split_newlines(y).last() + r1).push(r.last()) =~= split_newlines(y).last() + r);
        assert(split_newlines(y + r) =~= split_newlines(y).update(split_newlines(y).len() - 1, split_newlines(y).last() + r));
    }
}

proof fn lemma_split_lines(rows: Seq<Seq<u8>>)
    requires
        rows.len() >= 1,
        no_breaks(rows),
    ensures
        split_newlines(lines_bytes(rows).drop_last()) == rows,
    decreases rows.len(),
{
    let dl = rows.drop_last();
    let last = rows.last();
    assert(lines_bytes(rows).drop_last() =~= lines_bytes(dl) + last);
    assert forall|i: int| 0 <= i < last.len() implies #[trigger] last[i] != 10 by {
        assert(rows[rows.len() - 1][i] == last[i]);
    }
    lemma_split_append(lines_bytes(dl), last);
    if rows.len() == 1 {
        assert(lines_bytes(dl) =~= Seq::<u8>::empty());
        assert(split_newlines(Seq::<u8>::empty()) =~= seq![seq![]]);
        assert(seq![Seq::<u8>::empty()].update(0, Seq::<u8>::empty() + last) =~= rows);
    } else {
        assert(no_breaks(dl)) by {
            assert forall|r: int, c: int| 0 <= r < dl.len() && 0 <= c < dl[r].len() implies #[trigger] dl[r][c] != 10 && dl[r][c] != 13 by {
                assert(dl[r] == rows[r]);
            }
        }
        lemma_split_lines(dl);
        let lb = lines_bytes(dl);
        assert(lb.len() > 0 && lb.last() == 10);
        assert(lb.drop_last().push(10u8) =~= lb);
        assert(split_newlines(lb) == split_newlines(lb.drop_last()).push(seq![]));
        assert(split_newlines(lb) == dl.push(seq![]));
        assert(dl.push(seq![]).update(dl.len() as int, Seq::<u8>::empty() + last) =~= rows);
    }
}

/// Written as text and split back into rows the way a level file is read,
/// rows that are not empty and hold no line break come back unchanged.
pub proof fn lemma_rows_read_back(rows: Seq<Seq<u8>>)
    requires
        rows.len() >= 1,
        forall|r: int| 0 <= r < rows.len() ==> (#[trigger] rows[r]).len() >= 1,
        no_breaks(rows),
    ensures
        text_rows(chars_as_bytes(lines_text(rows))) == rows,
{
    lemma_lines_as_bytes(rows);
    let b = lines_bytes(rows);
    let dl = rows.drop_last();
    let last = rows.last();
    assert(b == lines_bytes(dl) + last.push(10u8));
    assert(b.len() > 0 && b.last() == 10);
    assert(b.drop_last() =~= lines_bytes(dl) + last);
    assert(last.len() >= 1);
    assert(rows[rows.len() - 1] == last);
    assert(b.drop_last().last() == last.last());
    assert(last.last() == rows[rows.len() - 1][last.len() - 1]);
    assert(trimmed(b) == trimmed(b.drop_last()));
    assert(trimmed(b.drop_last()) == b.drop_last());
    lemma_split_lines(rows);
    assert(b.drop_last().len() > 0);
    let pieces = split_newlines(b.drop_last());
    assert forall|r: int| 0 <= r < rows.len() implies #[trigger] strip_cr(rows[r]) == rows[r] by {
        assert(rows[r][rows[r].len() - 1] != 13);
    }
    assert(pieces.map_values(|l: Seq<u8>| strip_cr(l)) =~= rows);
}

/// Every byte of every row is below `limit` and is no line break.
pub open spec fn plain_rows(rows: Seq<Seq<u8>>, width: int) -> bool {
    &&& rows.len() == 16
    &&& forall|r: int| 0 <= r < 16 ==> (#[trigger] rows[r]).len() == width
    &&& forall|r: int, c: int| 0 <= r < 16 && 0 <= c < width ==> #[trigger] rows[r][c] < 0x80 && rows[r][c] != 10 && rows[r][c] != 13
}

/// Markers that can stand in a level file: ASCII, and no line break.
pub open spec fn plain_markers(objects: Seq<(usize, usize, u8)>) -> bool {
    forall|k: int| 0 <= k < objects.len() ==> #[trigger] objects[k].2 < 0x80 && objects[k].2 != 10 && objects[k].2 != 13
}

proof fn lemma_stamped_plain(cols: Seq<Seq<u8>>, objects: Seq<(usize, usize, u8)>)
    requires
        plain_markers(objects),
    ensures
        plain_rows(stamp_all(terrain_rows(cols), objects), cols.len() as int),
    decreases objects.len(),
{
    if objects.len() == 0 {
    } else {
        let dl = objects.drop_last();
        assert(plain_markers(dl)) by {
            assert forall|k: int| 0 <= k < dl.len() implies #[trigger] dl[k].2 < 0x80 && dl[k].2 != 10 && dl[k].2 != 13 by {
                assert(dl[k] == objects[k]);
            }
        }
        lemma_stamped_plain(cols, dl);
        let g = stamp_all(terrain_rows(cols), dl);
        let o = objects.last();
        assert(o == objects[objects.len() - 1]);
        let g2 = stamp(g, o);
        assert forall|r: int, c: int| 0 <= r < 16 && 0 <= c < cols.len() implies #[trigger] g2[r][c] < 0x80 && g2[r][c] != 10
            && g2[r][c] != 13 by {
            assert(g[r][c] < 0x80);
        }
    }
}

/// Set cell `(c, r)` of `rows` to `v`.
pub open spec fn with_cell(rows: Seq<Seq<u8>>, c: int, r: int, v: u8) -> Seq<Seq<u8>> {
    rows.update(r, rows[r].update(c, v))
}

proof fn lemma_with_cell_plain(rows: Seq<Seq<u8>>, width: int, c: int, r: int, v: u8)
    requires
        plain_rows(rows, width),
        0 <= c < width,
        0 <= r < 16,
        v < 0x80 && v != 10 && v != 13,
    ensures
        plain_rows(with_cell(rows, c, r, v), width),
{
    let g = with_cell(rows, c, r, v);
    assert forall|rr: int, cc: int| 0 <= rr < 16 && 0 <= cc < width implies #[trigger] g[rr][cc] < 0x80 && g[rr][cc] != 10
        && g[rr][cc] != 13 by {
        assert(rows[rr][cc] < 0x80);
    }
}

/// The lowest door cell, and of those the rightmost, at or after `(c, r)`.
pub open spec fn best_door(cols: Seq<Seq<u8>>, c: int, r: int) -> bool {
    &&& 0 <= c < cols.len() && 0 <= r < 16 && cols[c][r] == EXIT_DOOR
    &&& forall|c2: int, r2: int| 0 <= c2 < cols.len() && 0 <= r2 < 16 && #[trigger] cols[c2][r2] == EXIT_DOOR
        ==> r2 < r || (r2 == r && c2 <= c)
}

proof fn lemma_best_door_from(cols: Seq<Seq<u8>>, c: int, r: int)
    requires
        0 <= c < cols.len(),
        0 <= r < 16,
        cols[c][r] == EXIT_DOOR,
    ensures
        exists|c1: int, r1: int| #[trigger] best_door(cols, c1, r1),
    decreases 16 * cols.len() - (r * cols.len() + c),
{
    if best_door(cols, c, r) {
    } else {
        let (c2, r2) = choose|c2: int, r2: int| 0 <= c2 < cols.len() && 0 <= r2 < 16 && #[trigger] cols[c2][r2] == EXIT_DOOR
            && !(r2 < r || (r2 == r && c2 <= c));
        let n = cols.len() as int;
        assert(r2 * n + c2 > r * n + c && r2 * n + c2 < 16 * n) by (nonlinear_arith)
            requires
                0 <= c < n, 0 <= r < 16, 0 <= c2 < n, 0 <= r2 < 16, !(r2 < r || (r2 == r && c2 <= c));
        lemma_best_door_from(cols, c2, r2);
    }
}

/// The rightmost end spot, and the lowest in its column, at or after `(c, r)`.
pub open spec fn best_spot(cols: Seq<Seq<u8>>, c: int, r: int) -> bool {
    &&& end_spot(cols, c, r)
    &&& forall|c2: int, r2: int| #[trigger] end_spot(cols, c2, r2) ==> c2 < c || (c2 == c && r2 <= r)
}

proof fn lemma_best_spot_from(cols: Seq<Seq<u8>>, c: int, r: int)
    requires
        end_spot(cols, c, r),
    ensures
        exists|c1: int, r1: int| #[trigger] best_spot(cols, c1, r1),
    decreases 16 * cols.len() - (c * 16 + r),
{
    if best_spot(cols, c, r) {
    } else {
        let (c2, r2) = choose|c2: int, r2: int| #[trigger] end_spot(cols, c2, r2) && !(c2 < c || (c2 == c && r2 <= r));
        lemma_best_spot_from(cols, c2, r2);
    }
}

proof fn lemma_end_cell_in_level(cols: Seq<Seq<u8>>)
    requires
        cols.len() >= 2,
    ensures
        end_cell(cols).0 < cols.len(),
        end_cell(cols).1 < 16,
{
    if exists|c: int, r: int| 0 <= c < cols.len() && 0 <= r < 16 && #[trigger] cols[c][r] == EXIT_DOOR {
        let (c0, r0) = choose|c: int, r: int| 0 <= c < cols.len() && 0 <= r < 16 && #[trigger] cols[c][r] == EXIT_DOOR;
        lemma_best_door_from(cols, c0, r0);
        let (c1, r1) = choose|c1: int, r1: int| #[trigger] best_door(cols, c1, r1);
        assert(0 <= c1 < cols.len() && 0 <= r1 < 16 && cols[c1][r1] == EXIT_DOOR);
    } else if exists|c: int, r: int| #[trigger] end_spot(cols, c, r) {
        let (c0, r0) = choose|c: int, r: int| #[trigger] end_spot(cols, c, r);
        lemma_best_spot_from(cols, c0, r0);
        let (c1, r1) = choose|c1: int, r1: int| #[trigger] best_spot(cols, c1, r1);
        assert(end_spot(cols, c1, r1));
    }
}

proof fn lemma_lines_ascii(rows: Seq<Seq<u8>>)
    requires
        forall|r: int, c: int| 0 <= r < rows.len() && 0 <= c < rows[r].len() ==> #[trigger] rows[r][c] < 0x80,
    ensures
        vstd::utf8::is_ascii_chars(lines_text(rows)),
    decreases rows.len(),
{
    if rows.len() > 0 {
        let dl = rows.drop_last();
        assert forall|r: int, c: int| 0 <= r < dl.len() && 0 <= c < dl[r].len() implies #[trigger] dl[r][c] < 0x80 by {
            assert(dl[r] == rows[r]);
        }
        lemma_lines_ascii(dl);
        let last = rows.last();
        let t = lines_text(rows);
        let head = lines_text(dl);
        assert forall|i: int| 0 <= i < t.len() implies '\0' <= #[trigger] t[i] <= '\u{7f}' by {
            if i < head.len() {
                assert(t[i] == head[i]);
            } else if i < head.len() + last.len() {
                let b = last[i - head.len()];
                assert(rows[rows.len() - 1][i - head.len()] == b);
                assert(t[i] == b as char);
            } else {
                assert(t[i] == '\n');
            }
        }
    }
}

/// A level written out as text reads back as the grid it was written from:
/// split into rows the way a level file is read, the text gives back the
/// marked grid row for row, sixteen rows as wide as the level, in plain ASCII
/// and with no ragged row. So a level file loads as the grid it was written
/// from, whenever its markers are ASCII and no line break.
pub proof fn law_level_text_reads_back(cols: Seq<Seq<u8>>, objects: Seq<(usize, usize, u8)>)
    requires
        cols.len() >= 1,
        plain_markers(objects),
    ensures
        vstd::utf8::is_ascii_chars(level_text(cols, objects)),
        text_rows(chars_as_bytes(level_text(cols, objects))) == marked_rows(cols, objects),
        marked_rows(cols, objects).len() == 16,
        forall|r: int| 0 <= r < 16 ==> (#[trigger] marked_rows(cols, objects)[r]).len() == cols.len(),
        crate::engine::level::first_ragged(marked_rows(cols, objects)) is None,
{
    let w = cols.len() as int;
    lemma_stamped_plain(cols, objects);
    let g = stamp_all(terrain_rows(cols), objects);
    if cols.len() >= 2 {
        let sc = spawn_column(w);
        lemma_with_cell_plain(g, w, sc, 13, 0x4Du8);
        let g2 = with_cell(g, sc, 13, 0x4Du8);
        lemma_end_cell_in_level(cols);
        let e = end_cell(cols);
        lemma_with_cell_plain(g2, w, e.0 as int, e.1 as int, 0x45u8);
        assert(marked_rows(cols, objects) == with_cell(g2, e.0 as int, e.1 as int, 0x45u8));
    }
    let m = marked_rows(cols, objects);
    assert(plain_rows(m, w));
    assert(no_breaks(m)) by {
        assert forall|r: int, c: int| 0 <= r < m.len() && 0 <= c < m[r].len() implies #[trigger] m[r][c] != 10 && m[r][c] != 13 by {
            assert(m[r][c] < 0x80);
        }
    }
    assert forall|r: int| 0 <= r < m.len() implies (#[trigger] m[r]).len() >= 1 by {}
    lemma_rows_read_back(m);
    assert forall|r: int, c: int| 0 <= r < m.len() && 0 <= c < m[r].len() implies #[trigger] m[r][c] < 0x80 by {}
    lemma_lines_ascii(m);
    assert(!exists|i: int| 0 <= i < m.len() && #[trigger] m[i].len() != m[0].len());
}

} // verus!
