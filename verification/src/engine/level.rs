//! Level geometry: which tiles are solid, and the text format levels are
//! written in.
//!
//! Collision works against a grid of solid or empty 8x8 tiles. A level's
//! solids can be written as rows of text, which keeps levels human editable.
use super::block::BlockKind;
use super::enemy::EnemyKind;
use super::lift::LiftAxis;
use super::powerup::ItemKind;
use crate::math::div_floor;
use crate::text::{decimal, push_decimal};
use crate::tiles::Tile;
use vstd::prelude::*;
use vstd::string::{is_ascii, StringExecFns, StringSliceAdditionalSpecFns};

verus! {

/// Tile size in pixels.
pub const TILE: i32 = 8;

/// The tile a pixel coordinate falls in, rounding toward negative infinity.
pub open spec fn tile_of(p: int) -> int {
    p / 8
}

/// A grid of solid tiles. Anything outside the grid reads as empty.
#[derive(Debug, PartialEq, Eq)]
pub struct Solids {
    pub width: usize,
    pub height: usize,
    /// One flag per tile, row major.
    pub cells: Vec<bool>,
    /// Tiles that hold Mario up from above but do not block him sideways or
    /// from below, row major.
    pub platforms: Vec<bool>,
}

/// Row-major position of tile `(tx, ty)` in a grid `w` wide.
pub open spec fn cell_index(w: int, tx: int, ty: int) -> int {
    ty * w + tx
}

pub proof fn lemma_cell_index_in_grid(w: int, h: int, tx: int, ty: int)
    requires
        0 <= tx < w,
        0 <= ty < h,
    ensures
        0 <= cell_index(w, tx, ty) < w * h,
{
    assert(0 <= ty * w + tx < w * h) by (nonlinear_arith)
        requires
            0 <= tx < w,
            0 <= ty < h,
    ;
}

impl Solids {
    /// The flag vectors both cover the whole grid.
    pub open spec fn wf(&self) -> bool {
        &&& self.cells@.len() == self.width * self.height
        &&& self.platforms@.len() == self.width * self.height
        &&& self.width * self.height <= usize::MAX
    }

    pub open spec fn in_grid(&self, tx: int, ty: int) -> bool {
        0 <= tx < self.width && 0 <= ty < self.height
    }

    /// Whether tile `(tx, ty)` is solid. Out-of-range tiles are empty.
    pub open spec fn solid_at(&self, tx: int, ty: int) -> bool {
        self.in_grid(tx, ty) && self.cells@[cell_index(self.width as int, tx, ty)]
    }

    /// Whether tile `(tx, ty)` is a one-way platform. Out of range is not.
    pub open spec fn platform_at(&self, tx: int, ty: int) -> bool {
        self.in_grid(tx, ty) && self.platforms@[cell_index(self.width as int, tx, ty)]
    }

    /// Whether any solid tile is touched by the inclusive pixel rectangle.
    pub open spec fn rect_solid(&self, left: int, top: int, right: int, bottom: int) -> bool {
        exists|tx: int, ty: int|
            tile_of(left) <= tx <= tile_of(right) && tile_of(top) <= ty <= tile_of(bottom)
                && #[trigger] self.solid_at(tx, ty)
    }

    /// The platform row under the pixel span, if any tile of it in that row
    /// is a platform.
    pub open spec fn platform_row(&self, left: int, right: int, bottom: int) -> Option<int> {
        if exists|tx: int| tile_of(left) <= tx <= tile_of(right) && #[trigger] self.platform_at(tx, tile_of(bottom)) {
            Some(tile_of(bottom))
        } else {
            None
        }
    }

    pub fn new(width: usize, height: usize, cells: Vec<bool>) -> (r: Self)
        requires
            cells@.len() == width * height,
        ensures
            r.wf(),
            r.width == width,
            r.height == height,
            r.cells@ == cells@,
            forall|i: int| 0 <= i < r.platforms@.len() ==> !r.platforms@[i],
    {
        let n = cells.len();
        assert(width * height <= usize::MAX);
        let platforms = vec_of_false(n);
        Solids { width, height, cells, platforms }
    }

    /// Mark the tile at (tx, ty) as a one-way platform. No effect out of range.
    pub fn set_platform(&mut self, tx: usize, ty: usize)
        requires
            old(self).wf(),
        ensures
            final(self).wf(),
            final(self).width == old(self).width,
            final(self).height == old(self).height,
            final(self).cells@ == old(self).cells@,
            forall|x: int, y: int|
                #[trigger] final(self).platform_at(x, y) == (old(self).platform_at(x, y) || (x == tx && y == ty
                    && old(self).in_grid(x, y))),
    {
        if tx < self.width && ty < self.height {
            proof {
                lemma_cell_index_in_grid(self.width as int, self.height as int, tx as int, ty as int);
            }
            let i = ty * self.width + tx;
            self.platforms.set(i, true);
            proof {
                assert forall|x: int, y: int|
                    #[trigger] self.platform_at(x, y) == (old(self).platform_at(x, y) || (x == tx && y == ty
                        && old(self).in_grid(x, y))) by {
                    if old(self).in_grid(x, y) {
                        lemma_cell_index_in_grid(self.width as int, self.height as int, x, y);
                        if cell_index(self.width as int, x, y) == cell_index(self.width as int, tx as int, ty as int) {
                            lemma_cell_index_injective(self.width as int, x, y, tx as int, ty as int);
                        }
                    }
                }
            }
        }
    }

    /// Is the tile at (tx, ty) a one-way platform? Out of range is not.
    pub fn is_platform(&self, tx: i32, ty: i32) -> (r: bool)
        requires
            self.wf(),
        ensures
            r == self.platform_at(tx as int, ty as int),
    {
        if tx < 0 || ty < 0 || tx as usize >= self.width || ty as usize >= self.height {
            return false;
        }
        proof {
            lemma_cell_index_in_grid(self.width as int, self.height as int, tx as int, ty as int);
        }
        self.platforms[ty as usize * self.width + tx as usize]
    }

    /// The topmost platform row touched by the pixel span, if any.
    pub fn platform_under(&self, left: i32, right: i32, bottom: i32) -> (r: Option<i32>)
        requires
            self.wf(),
        ensures
            r == (match self.platform_row(left as int, right as int, bottom as int) {
                Some(row) => Some(row as i32),
                None => None,
            }),
    {
        let ty = div_floor(bottom, TILE);
        let tx0 = div_floor(left, TILE);
        let tx1 = div_floor(right, TILE);
        let mut tx = tx0;
        while tx <= tx1
            invariant
                self.wf(),
                tx0 <= tx,
                tx0 == left as int / 8,
                tx1 == right as int / 8,
                ty == bottom as int / 8,
                tx <= tx1 + 1 || tx == tx0,
                tx1 < i32::MAX,
                forall|x: int| tx0 <= x < tx ==> !#[trigger] self.platform_at(x, ty as int),
            decreases tx1 + 1 - tx,
        {
            if self.is_platform(tx, ty) {
                assert(self.platform_at(tx as int, tile_of(bottom as int)));
                return Some(ty);
            }
            tx = tx + 1;
        }
        None
    }

    pub fn empty(width: usize, height: usize) -> (r: Self)
        requires
            width * height <= usize::MAX,
        ensures
            r.wf(),
            r.width == width,
            r.height == height,
            forall|tx: int, ty: int| !#[trigger] r.solid_at(tx, ty),
            forall|tx: int, ty: int| !#[trigger] r.platform_at(tx, ty),
    {
        let cells = vec_of_false(width * height);
        let r = Solids::new(width, height, cells);
        assert forall|tx: int, ty: int| !#[trigger] r.solid_at(tx, ty) by {
            if r.in_grid(tx, ty) {
                lemma_cell_index_in_grid(width as int, height as int, tx, ty);
                assert(!r.cells@[cell_index(width as int, tx, ty)]);
            }
        }
        assert forall|tx: int, ty: int| !#[trigger] r.platform_at(tx, ty) by {
            if r.in_grid(tx, ty) {
                lemma_cell_index_in_grid(width as int, height as int, tx, ty);
                assert(!r.platforms@[cell_index(width as int, tx, ty)]);
            }
        }
        r
    }

    /// Build from rows of text. Solid tiles are `#` and the block markers `?`
    /// (question), `B` (brick) and `P` (power), since blocks are part of the
    /// solid world; `^` is a one-way platform. Anything else is empty. Rows
    /// must be equal length; the grid may be of any size.
    pub fn from_rows(rows: &[&str]) -> (r: Self)
        requires
            rectangular(grid_of(rows@), grid_width(grid_of(rows@))),
            forall|i: int| 0 <= i < rows@.len() ==> is_ascii(#[trigger] rows@[i]),
        ensures
            r.wf(),
            r.width == grid_width(grid_of(rows@)),
            r.height == rows@.len(),
            forall|tx: int, ty: int|
                #[trigger] r.solid_at(tx, ty) == (r.in_grid(tx, ty) && solid_byte(grid_of(rows@)[ty][tx])),
            forall|tx: int, ty: int|
                #[trigger] r.platform_at(tx, ty) == (r.in_grid(tx, ty) && platform_byte(grid_of(rows@)[ty][tx])),
    {
        let grid = rows_to_grid(rows);
        Self::from_grid(&grid)
    }

    /// The same, from rows already split into bytes.
    #[verifier::rlimit(40)]
    pub fn from_grid(rows: &Vec<Vec<u8>>) -> (r: Self)
        requires
            rectangular(grid_view(rows@), grid_width(grid_view(rows@))),
        ensures
            r.wf(),
            r.width == grid_width(grid_view(rows@)),
            r.height == rows@.len(),
            forall|tx: int, ty: int|
                #[trigger] r.solid_at(tx, ty) == (r.in_grid(tx, ty) && solid_byte(grid_view(rows@)[ty][tx])),
            forall|tx: int, ty: int|
                #[trigger] r.platform_at(tx, ty) == (r.in_grid(tx, ty) && platform_byte(grid_view(rows@)[ty][tx])),
    {
        let ghost grid = grid_view(rows@);
        let height = rows.len();
        let width = if height == 0 {
            0
        } else {
            rows[0].len()
        };
        let mut cells: Vec<bool> = Vec::new();
        let mut platforms: Vec<bool> = Vec::new();
        let mut ty: usize = 0;
        while ty < height
            invariant
                grid == grid_view(rows@),
                rectangular(grid, grid_width(grid)),
                height == rows@.len(),
                width == grid_width(grid),
                ty <= height,
                cells@.len() == ty * width,
                platforms@.len() == ty * width,
                forall|y: int, x: int|
                    0 <= y < ty && 0 <= x < width ==> cells@[#[trigger] cell_index(width as int, x, y)]
                        == solid_byte(grid[y][x]) && platforms@[cell_index(width as int, x, y)] == platform_byte(
                        grid[y][x],
                    ),
            decreases height - ty,
        {
            let row = &rows[ty];
            assert(row@ == grid[ty as int]);
            let mut tx: usize = 0;
            while tx < width
                invariant
                    grid == grid_view(rows@),
                    rectangular(grid, grid_width(grid)),
                    height == rows@.len(),
                    width == grid_width(grid),
                    ty < height,
                    row@ == grid[ty as int],
                    row@.len() == width,
                    tx <= width,
                    cells@.len() == ty * width + tx,
                    platforms@.len() == ty * width + tx,
                    forall|y: int, x: int|
                        ((0 <= y < ty && 0 <= x < width) || (y == ty && 0 <= x < tx)) ==> cells@[#[trigger] cell_index(
                            width as int,
                            x,
                            y,
                        )] == solid_byte(grid[y][x]) && platforms@[cell_index(width as int, x, y)]
                            == platform_byte(grid[y][x]),
                decreases width - tx,
            {
                let b = row[tx];
                proof {
                    assert forall|y: int, x: int| ((0 <= y < ty && 0 <= x < width) || (y == ty && 0 <= x < tx)) implies cell_index(width as int, x, y) < ty * width + tx by {
                        lemma_row_major_before(width as int, x, y, tx as int, ty as int);
                    }
                }
                cells.push(b == 35 || b == 63 || b == 66 || b == 80);
                platforms.push(b == 94);
                tx = tx + 1;
            }
            proof {
                lemma_next_row(width as int, ty as int);
            }
            ty = ty + 1;
        }
        let _n = cells.len();
        let r = Solids { width, height, cells, platforms };
        proof {
            assert forall|tx: int, ty: int|
                #[trigger] r.solid_at(tx, ty) == (r.in_grid(tx, ty) && solid_byte(grid[ty][tx])) by {
                if r.in_grid(tx, ty) {
                    lemma_cell_index_in_grid(width as int, height as int, tx, ty);
                }
            }
            assert forall|tx: int, ty: int|
                #[trigger] r.platform_at(tx, ty) == (r.in_grid(tx, ty) && platform_byte(grid[ty][tx])) by {
                if r.in_grid(tx, ty) {
                    lemma_cell_index_in_grid(width as int, height as int, tx, ty);
                }
            }
            assert(width * height == height * width) by (nonlinear_arith);
        }
        r
    }

    /// Make the tile at (tx, ty) empty (for example, a broken brick). No effect
    /// if it is out of range.
    pub fn clear(&mut self, tx: i32, ty: i32)
        requires
            old(self).wf(),
        ensures
            final(self).wf(),
            final(self).width == old(self).width,
            final(self).height == old(self).height,
            final(self).platforms@ == old(self).platforms@,
            forall|x: int, y: int|
                #[trigger] final(self).solid_at(x, y) == (old(self).solid_at(x, y) && !(x == tx && y == ty)),
    {
        if tx >= 0 && ty >= 0 && (tx as usize) < self.width && (ty as usize) < self.height {
            proof {
                lemma_cell_index_in_grid(self.width as int, self.height as int, tx as int, ty as int);
            }
            let i = ty as usize * self.width + tx as usize;
            self.cells.set(i, false);
            proof {
                assert forall|x: int, y: int|
                    #[trigger] self.solid_at(x, y) == (old(self).solid_at(x, y) && !(x == tx && y == ty)) by {
                    if old(self).in_grid(x, y) {
                        lemma_cell_index_in_grid(self.width as int, self.height as int, x, y);
                        if cell_index(self.width as int, x, y) == cell_index(self.width as int, tx as int, ty as int) {
                            lemma_cell_index_injective(self.width as int, x, y, tx as int, ty as int);
                        }
                    }
                }
            }
        }
    }

    /// Is the tile at (tx, ty) solid? Out-of-range tiles are empty.
    pub fn is_solid(&self, tx: i32, ty: i32) -> (r: bool)
        requires
            self.wf(),
        ensures
            r == self.solid_at(tx as int, ty as int),
    {
        if tx < 0 || ty < 0 || tx as usize >= self.width || ty as usize >= self.height {
            return false;
        }
        proof {
            lemma_cell_index_in_grid(self.width as int, self.height as int, tx as int, ty as int);
        }
        self.cells[ty as usize * self.width + tx as usize]
    }

    /// Is any solid tile touched by the pixel rectangle [left, right] x
    /// [top, bottom] (inclusive, in pixels)?
    pub fn rect_hits_solid(&self, left: i32, top: i32, right: i32, bottom: i32) -> (r: bool)
        requires
            self.wf(),
        ensures
            r == self.rect_solid(left as int, top as int, right as int, bottom as int),
    {
        let tx0 = div_floor(left, TILE);
        let tx1 = div_floor(right, TILE);
        let ty0 = div_floor(top, TILE);
        let ty1 = div_floor(bottom, TILE);
        let mut ty = ty0;
        while ty <= ty1
            invariant
                self.wf(),
                tx0 == left as int / 8,
                tx1 == right as int / 8,
                ty0 == top as int / 8,
                ty1 == bottom as int / 8,
                ty0 <= ty <= ty1 + 1 || ty == ty0,
                ty1 < i32::MAX,
                tx1 < i32::MAX,
                forall|x: int, y: int| tx0 <= x <= tx1 && ty0 <= y < ty ==> !#[trigger] self.solid_at(x, y),
            decreases ty1 + 1 - ty,
        {
            let mut tx = tx0;
            while tx <= tx1
                invariant
                    self.wf(),
                    tx0 == left as int / 8,
                    tx1 == right as int / 8,
                    ty0 == top as int / 8,
                    ty1 == bottom as int / 8,
                    ty0 <= ty <= ty1,
                    tx0 <= tx <= tx1 + 1 || tx == tx0,
                    ty1 < i32::MAX,
                    tx1 < i32::MAX,
                    forall|x: int, y: int| tx0 <= x <= tx1 && ty0 <= y < ty ==> !#[trigger] self.solid_at(x, y),
                    forall|x: int| tx0 <= x < tx ==> !#[trigger] self.solid_at(x, ty as int),
                decreases tx1 + 1 - tx,
            {
                if self.is_solid(tx, ty) {
                    return true;
                }
                tx = tx + 1;
            }
            ty = ty + 1;
        }
        false
    }
}

/// The grid of bytes a set of text rows spells.
pub open spec fn grid_of(rows: Seq<&str>) -> Seq<Seq<u8>> {
    rows.map_values(|r: &str| r.spec_bytes())
}

/// The grid of bytes a vector of byte rows holds.
pub open spec fn grid_view(rows: Seq<Vec<u8>>) -> Seq<Seq<u8>> {
    rows.map_values(|r: Vec<u8>| r@)
}

/// Copy text rows into byte rows.
pub fn rows_to_grid(rows: &[&str]) -> (r: Vec<Vec<u8>>)
    ensures
        grid_view(r@) == grid_of(rows@),
{
    let mut out: Vec<Vec<u8>> = Vec::new();
    let mut i: usize = 0;
    while i < rows.len()
        invariant
            i <= rows@.len(),
            out@.len() == i,
            forall|j: int| 0 <= j < i ==> (#[trigger] out@[j])@ == rows@[j].spec_bytes(),
        decreases rows@.len() - i,
    {
        let bytes = rows[i].as_bytes();
        let mut v: Vec<u8> = Vec::new();
        let mut k: usize = 0;
        while k < bytes.len()
            invariant
                k <= bytes@.len(),
                v@ == bytes@.subrange(0, k as int),
            decreases bytes@.len() - k,
        {
            v.push(bytes[k]);
            k = k + 1;
            assert(v@ =~= bytes@.subrange(0, k as int));
        }
        assert(v@ =~= bytes@);
        out.push(v);
        i = i + 1;
    }
    assert(grid_view(out@) =~= grid_of(rows@));
    out
}

/// Every row of the grid is `w` bytes long.
pub open spec fn rectangular(grid: Seq<Seq<u8>>, w: int) -> bool {
    forall|i: int| 0 <= i < grid.len() ==> #[trigger] grid[i].len() == w
}

/// The width a grid of rows has: its first row's, or zero with no rows.
pub open spec fn grid_width(grid: Seq<Seq<u8>>) -> int {
    if grid.len() == 0 { 0 } else { grid[0].len() as int }
}

/// A grid small enough that every tile's pixel position fits in `i32`:
/// under 2^28 rows and columns, at eight pixels a tile.
pub open spec fn grid_fits(grid: Seq<Seq<u8>>) -> bool {
    grid.len() < 0x1000_0000 && grid_width(grid) < 0x1000_0000 && rectangular(grid, grid_width(grid))
}

/// Solid in the text format: `#`, and the block markers `?`, `B` and `P`.
pub open spec fn solid_byte(b: u8) -> bool {
    b == 35 || b == 63 || b == 66 || b == 80
}

/// A one-way platform in the text format: `^`.
pub open spec fn platform_byte(b: u8) -> bool {
    b == 94
}

/// The marks `f` finds in the first `n` bytes of row `ty`, with the top-left
/// pixel of each marked tile, left to right.
pub open spec fn row_marks<K>(row: Seq<u8>, ty: int, n: int, f: spec_fn(u8) -> Option<K>) -> Seq<(i32, i32, K)>
    decreases n,
{
    if n <= 0 {
        seq![]
    } else {
        let prev = row_marks(row, ty, n - 1, f);
        match f(row[n - 1]) {
            Some(k) => prev.push((((n - 1) * 8) as i32, (ty * 8) as i32, k)),
            None => prev,
        }
    }
}

/// The marks `f` finds in the first `m` rows, in reading order.
pub open spec fn grid_marks<K>(grid: Seq<Seq<u8>>, m: int, f: spec_fn(u8) -> Option<K>) -> Seq<(i32, i32, K)>
    decreases m,
{
    if m <= 0 {
        seq![]
    } else {
        grid_marks(grid, m - 1, f) + row_marks(grid[m - 1], m - 1, grid[m - 1].len() as int, f)
    }
}

/// All marks of a grid.
pub open spec fn marks<K>(grid: Seq<Seq<u8>>, f: spec_fn(u8) -> Option<K>) -> Seq<(i32, i32, K)> {
    grid_marks(grid, grid.len() as int, f)
}

/// The marks with their payload dropped: just the tile positions.
pub open spec fn positions<K>(s: Seq<(i32, i32, K)>) -> Seq<(i32, i32)> {
    s.map_values(|e: (i32, i32, K)| (e.0, e.1))
}

/// The position of the last mark, if there is one.
pub open spec fn last_position<K>(s: Seq<(i32, i32, K)>) -> Option<(i32, i32)> {
    if s.len() == 0 { None } else { Some((s.last().0, s.last().1)) }
}

/// `G` a Goomba, `T` a walker that turns at ledges, `F` a Bouncer, `J` the
/// jumper, `D` a faller.
pub open spec fn enemy_mark(b: u8) -> Option<EnemyKind> {
    if b == 71 { Some(EnemyKind::Goomba) }
    else if b == 84 { Some(EnemyKind::LedgeTurner) }
    else if b == 70 { Some(EnemyKind::Bouncer) }
    else if b == 74 { Some(EnemyKind::Fly) }
    else if b == 68 { Some(EnemyKind::Faller) }
    else { None }
}

/// `?` a question block, `P` a power block, `B` a brick.
pub open spec fn block_mark(b: u8) -> Option<BlockKind> {
    if b == 63 { Some(BlockKind::Question) }
    else if b == 80 { Some(BlockKind::PowerUp) }
    else if b == 66 { Some(BlockKind::Brick) }
    else { None }
}

/// `S` a star, `W` a flower.
pub open spec fn item_mark(b: u8) -> Option<ItemKind> {
    if b == 83 { Some(ItemKind::Star) }
    else if b == 87 { Some(ItemKind::Flower) }
    else { None }
}

/// `V` and `H` a lift running up and down or side to side.
pub open spec fn lift_mark(b: u8) -> Option<LiftAxis> {
    if b == 86 { Some(LiftAxis::Vertical) }
    else if b == 72 { Some(LiftAxis::Horizontal) }
    else { None }
}

/// A single marker byte.
pub open spec fn byte_mark(want: u8) -> spec_fn(u8) -> Option<()> {
    |b: u8| if b == want { Some(()) } else { None }
}

/// The mark functions as closures.
pub open spec fn enemy_marks() -> spec_fn(u8) -> Option<EnemyKind> { |b: u8| enemy_mark(b) }
pub open spec fn block_marks() -> spec_fn(u8) -> Option<BlockKind> { |b: u8| block_mark(b) }
pub open spec fn item_marks() -> spec_fn(u8) -> Option<ItemKind> { |b: u8| item_mark(b) }
pub open spec fn lift_marks() -> spec_fn(u8) -> Option<LiftAxis> { |b: u8| lift_mark(b) }

pub proof fn lemma_row_major_before(w: int, x: int, y: int, tx: int, ty: int)
    requires
        0 <= tx,
        0 <= ty,
        0 <= w,
        (0 <= y < ty && 0 <= x < w) || (y == ty && 0 <= x < tx),
    ensures
        0 <= cell_index(w, x, y) < ty * w + tx,
{
    if y < ty {
        assert(0 <= y * w) by (nonlinear_arith)
            requires
                0 <= y,
                0 <= x < w,
        ;
        assert((y + 1) * w <= ty * w) by (nonlinear_arith)
            requires
                y + 1 <= ty,
                0 <= x < w,
        ;
        assert((y + 1) * w == y * w + w) by (nonlinear_arith);
    } else {
        assert(0 <= y * w) by (nonlinear_arith)
            requires
                0 <= y,
                0 <= w,
        ;
    }
}

pub proof fn lemma_next_row(w: int, ty: int)
    ensures
        ty * w + w == (ty + 1) * w,
{
    assert(ty * w + w == (ty + 1) * w) by (nonlinear_arith);
}

pub proof fn lemma_cell_index_injective(w: int, x1: int, y1: int, x2: int, y2: int)
    requires
        0 <= x1 < w,
        0 <= x2 < w,
        cell_index(w, x1, y1) == cell_index(w, x2, y2),
    ensures
        x1 == x2 && y1 == y2,
{
    assert(y1 == y2) by (nonlinear_arith)
        requires
            0 <= x1 < w,
            0 <= x2 < w,
            y1 * w + x1 == y2 * w + x2,
    ;
}

/// A vector of `n` false flags.
pub fn vec_of_false(n: usize) -> (r: Vec<bool>)
    ensures
        r@.len() == n,
        forall|i: int| 0 <= i < n ==> !#[trigger] r@[i],
{
    let mut v: Vec<bool> = Vec::with_capacity(n);
    let mut i: usize = 0;
    while i < n
        invariant
            i <= n,
            v@.len() == i,
            forall|j: int| 0 <= j < i ==> !#[trigger] v@[j],
        decreases n - i,
    {
        v.push(false);
        i = i + 1;
    }
    v
}


/// A playable level: the solid geometry plus where things start. Visuals are
/// loaded separately; this is the gameplay side.
#[derive(Debug, PartialEq, Eq)]
pub struct Level {
    pub solids: Solids,
    /// Mario's spawn, top-left pixel.
    pub spawn: (i32, i32),
    /// Enemy spawn points: top-left pixel and kind.
    pub enemy_spawns: Vec<(i32, i32, EnemyKind)>,
    /// Coin positions, top-left pixel.
    pub coins: Vec<(i32, i32)>,
    /// Interactive block spawns: top-left pixel and kind.
    pub blocks: Vec<(i32, i32, BlockKind)>,
    /// The level-end trigger, top-left pixel, if the level has one.
    pub end: Option<(i32, i32)>,
    /// Free-standing item spawns: top-left pixel and kind.
    pub items: Vec<(i32, i32, ItemKind)>,
    /// Moving platforms: top-left pixel and the axis they run on.
    pub lifts: Vec<(i32, i32, LiftAxis)>,
    /// The cartridge's own background graphics, when the level came from the
    /// ROM. A hand-written level has none and renders with placeholders.
    pub graphics: Option<Graphics>,
    /// World and level number, for the status bar.
    pub number: Option<(u8, u8)>,
}

/// A level's background as the cartridge draws it: one tile id per cell, row
/// major, and the sheet those ids index.
#[derive(Debug, PartialEq, Eq)]
pub struct Graphics {
    pub cells: Vec<u8>,
    pub tiles: Vec<Tile>,
    pub palette: u8,
    /// The one tile the cartridge animates: its id and its two pictures.
    pub animated: Option<(u8, Tile, Tile)>,
}

/// Two optional sets of level graphics hold the same map, tiles, palette and
/// animated tile, or are both absent.
pub open spec fn same_graphics(a: Option<Graphics>, b: Option<Graphics>) -> bool {
    match (a, b) {
        (Some(x), Some(y)) => {
            &&& x.cells@ == y.cells@
            &&& x.tiles@ == y.tiles@
            &&& x.palette == y.palette
            &&& x.animated == y.animated
        },
        (None, None) => true,
        _ => false,
    }
}

/// How long the cartridge holds each frame of its animated background tile.
pub const ANIMATION_HOLD: u32 = 8;

impl Level {
    /// Everything `from_rows` reads out of a grid of text: solids, spawn,
    /// enemies, coins, blocks, end trigger, items and lifts, in reading order.
    pub open spec fn parsed_from(self, grid: Seq<Seq<u8>>) -> bool {
        &&& self.solids.wf()
        &&& self.solids.width == grid_width(grid)
        &&& self.solids.height == grid.len()
        &&& forall|tx: int, ty: int|
            #[trigger] self.solids.solid_at(tx, ty) == (self.solids.in_grid(tx, ty) && solid_byte(grid[ty][tx]))
        &&& forall|tx: int, ty: int|
            #[trigger] self.solids.platform_at(tx, ty) == (self.solids.in_grid(tx, ty) && platform_byte(
                grid[ty][tx],
            ))
        &&& self.spawn == (match last_position(marks(grid, byte_mark(77))) {
            Some(p) => p,
            None => (0i32, 0i32),
        })
        &&& self.enemy_spawns@ == marks(grid, enemy_marks())
        &&& self.coins@ == positions(marks(grid, byte_mark(67)))
        &&& self.blocks@ == marks(grid, block_marks())
        &&& self.end == last_position(marks(grid, byte_mark(69)))
        &&& self.items@ == marks(grid, item_marks())
        &&& self.lifts@ == marks(grid, lift_marks())
        &&& self.graphics is None
        &&& self.number is None
    }

    /// Build a level from rows of text. `#` is a solid tile, `^` a one-way
    /// platform, `M` marks Mario's spawn, `G` a Goomba, `T` a walker that
    /// turns at ledges, `F` a Bouncer, `J` the jumper, `D` a faller, `C` a
    /// coin, `S` a star, `W` a flower, `?` a question block, `P` a power
    /// block, `B` a brick block, `E` the level-end trigger, `V` and `H` a lift
    /// running up and down or side to side. The block markers are also solid.
    /// Anything else is empty. Rows must be equal length.
    pub fn from_rows(rows: &[&str]) -> (r: Self)
        requires
            grid_fits(grid_of(rows@)),
            forall|i: int| 0 <= i < rows@.len() ==> is_ascii(#[trigger] rows@[i]),
        ensures
            r.parsed_from(grid_of(rows@)),
    {
        let grid = rows_to_grid(rows);
        Self::from_grid(&grid)
    }

    /// The same, from rows already split into bytes.
    #[verifier::rlimit(40)]
    pub fn from_grid(rows: &Vec<Vec<u8>>) -> (r: Self)
        requires
            grid_fits(grid_view(rows@)),
        ensures
            r.parsed_from(grid_view(rows@)),
    {
        let ghost grid = grid_view(rows@);
        let solids = Solids::from_grid(rows);
        let mut spawn_at: Option<(i32, i32)> = None;
        let mut enemy_spawns: Vec<(i32, i32, EnemyKind)> = Vec::new();
        let mut coins: Vec<(i32, i32)> = Vec::new();
        let mut blocks: Vec<(i32, i32, BlockKind)> = Vec::new();
        let mut end: Option<(i32, i32)> = None;
        let mut items: Vec<(i32, i32, ItemKind)> = Vec::new();
        let mut lifts: Vec<(i32, i32, LiftAxis)> = Vec::new();
        let height = rows.len();
        let mut ty: usize = 0;
        while ty < height
            invariant
                grid == grid_view(rows@),
                grid_fits(grid),
                height == rows@.len(),
                ty <= height,
                spawn_at == last_position(grid_marks(grid, ty as int, byte_mark(77))),
                end == last_position(grid_marks(grid, ty as int, byte_mark(69))),
                enemy_spawns@ == grid_marks(grid, ty as int, enemy_marks()),
                coins@ == positions(grid_marks(grid, ty as int, byte_mark(67))),
                blocks@ == grid_marks(grid, ty as int, block_marks()),
                items@ == grid_marks(grid, ty as int, item_marks()),
                lifts@ == grid_marks(grid, ty as int, lift_marks()),
            decreases height - ty,
        {
            let row = &rows[ty];
            let width = row.len();
            assert(row@ == grid[ty as int]);
            let ghost gm_spawn = grid_marks(grid, ty as int, byte_mark(77));
            let ghost gm_end = grid_marks(grid, ty as int, byte_mark(69));
            let ghost gm_coin = grid_marks(grid, ty as int, byte_mark(67));
            let mut tx: usize = 0;
            while tx < width
                invariant
                    grid == grid_view(rows@),
                    grid_fits(grid),
                    height == rows@.len(),
                    ty < height,
                    row@ == grid[ty as int],
                    width == row@.len(),
                    tx <= width,
                    gm_spawn == grid_marks(grid, ty as int, byte_mark(77)),
                    gm_end == grid_marks(grid, ty as int, byte_mark(69)),
                    gm_coin == grid_marks(grid, ty as int, byte_mark(67)),
                    spawn_at == last_position(gm_spawn + row_marks(row@, ty as int, tx as int, byte_mark(77))),
                    end == last_position(gm_end + row_marks(row@, ty as int, tx as int, byte_mark(69))),
                    enemy_spawns@ == grid_marks(grid, ty as int, enemy_marks()) + row_marks(
                        row@,
                        ty as int,
                        tx as int,
                        enemy_marks(),
                    ),
                    coins@ == positions(gm_coin + row_marks(row@, ty as int, tx as int, byte_mark(67))),
                    blocks@ == grid_marks(grid, ty as int, block_marks()) + row_marks(
                        row@,
                        ty as int,
                        tx as int,
                        block_marks(),
                    ),
                    items@ == grid_marks(grid, ty as int, item_marks()) + row_marks(
                        row@,
                        ty as int,
                        tx as int,
                        item_marks(),
                    ),
                    lifts@ == grid_marks(grid, ty as int, lift_marks()) + row_marks(
                        row@,
                        ty as int,
                        tx as int,
                        lift_marks(),
                    ),
                decreases width - tx,
            {
                proof {
                    assert(grid[0].len() == grid_width(grid));
                    assert(grid[ty as int].len() == grid_width(grid));
                }
                let px = tx as i32 * TILE;
                let py = ty as i32 * TILE;
                let ch = row[tx];
                proof {
                    assert(px == (tx * 8) as i32);
                    assert(py == (ty * 8) as i32);
                }
                let ghost sp0 = gm_spawn + row_marks(row@, ty as int, tx as int, byte_mark(77));
                let ghost en0 = gm_end + row_marks(row@, ty as int, tx as int, byte_mark(69));
                let ghost co0 = gm_coin + row_marks(row@, ty as int, tx as int, byte_mark(67));
                if ch == 77 {
                    spawn_at = Some((px, py));
                } else if ch == 71 {
                    enemy_spawns.push((px, py, EnemyKind::Goomba));
                } else if ch == 84 {
                    enemy_spawns.push((px, py, EnemyKind::LedgeTurner));
                } else if ch == 70 {
                    enemy_spawns.push((px, py, EnemyKind::Bouncer));
                } else if ch == 74 {
                    enemy_spawns.push((px, py, EnemyKind::Fly));
                } else if ch == 68 {
                    enemy_spawns.push((px, py, EnemyKind::Faller));
                } else if ch == 67 {
                    coins.push((px, py));
                } else if ch == 63 {
                    blocks.push((px, py, BlockKind::Question));
                } else if ch == 80 {
                    blocks.push((px, py, BlockKind::PowerUp));
                } else if ch == 66 {
                    blocks.push((px, py, BlockKind::Brick));
                } else if ch == 83 {
                    items.push((px, py, ItemKind::Star));
                } else if ch == 87 {
                    items.push((px, py, ItemKind::Flower));
                } else if ch == 69 {
                    end = Some((px, py));
                } else if ch == 86 {
                    lifts.push((px, py, LiftAxis::Vertical));
                } else if ch == 72 {
                    lifts.push((px, py, LiftAxis::Horizontal));
                }
                proof {
                    let sp1 = gm_spawn + row_marks(row@, ty as int, tx + 1, byte_mark(77));
                    let en1 = gm_end + row_marks(row@, ty as int, tx + 1, byte_mark(69));
                    let co1 = gm_coin + row_marks(row@, ty as int, tx + 1, byte_mark(67));
                    if ch == 77 {
                        assert(sp1 == sp0.push((px, py, ())));
                    } else {
                        assert(sp1 == sp0);
                    }
                    if ch == 69 {
                        assert(en1 == en0.push((px, py, ())));
                    } else {
                        assert(en1 == en0);
                    }
                    if ch == 67 {
                        assert(co1 == co0.push((px, py, ())));
                        assert(positions(co1) =~= positions(co0).push((px, py)));
                    } else {
                        assert(co1 == co0);
                    }
                    assert(grid_marks(grid, ty as int, enemy_marks()) + row_marks(row@, ty as int, tx + 1, enemy_marks())
                        =~= enemy_spawns@);
                    assert(grid_marks(grid, ty as int, block_marks()) + row_marks(row@, ty as int, tx + 1, block_marks())
                        =~= blocks@);
                    assert(grid_marks(grid, ty as int, item_marks()) + row_marks(row@, ty as int, tx + 1, item_marks())
                        =~= items@);
                    assert(grid_marks(grid, ty as int, lift_marks()) + row_marks(row@, ty as int, tx + 1, lift_marks())
                        =~= lifts@);
                }
                tx = tx + 1;
            }
            proof {
                assert(grid_marks(grid, ty + 1, byte_mark(77)) == gm_spawn + row_marks(row@, ty as int, tx as int, byte_mark(77)));
                assert(grid_marks(grid, ty + 1, byte_mark(69)) == gm_end + row_marks(row@, ty as int, tx as int, byte_mark(69)));
                assert(grid_marks(grid, ty + 1, byte_mark(67)) == gm_coin + row_marks(row@, ty as int, tx as int, byte_mark(67)));
            }
            ty = ty + 1;
        }
        let spawn = match spawn_at {
            Some(p) => p,
            None => (0, 0),
        };
        Level {
            solids,
            spawn,
            enemy_spawns,
            coins,
            blocks,
            end,
            items,
            lifts,
            graphics: None,
            number: None,
        }
    }
}


/// A copy of a vector of plain values.
pub fn copy_vec<T: Copy>(v: &Vec<T>) -> (r: Vec<T>)
    ensures
        r@ == v@,
{
    let mut out: Vec<T> = Vec::new();
    let mut i: usize = 0;
    while i < v.len()
        invariant
            i <= v@.len(),
            out@ == v@.subrange(0, i as int),
        decreases v@.len() - i,
    {
        out.push(v[i]);
        i = i + 1;
        assert(out@ =~= v@.subrange(0, i as int));
    }
    assert(out@ =~= v@);
    out
}

/// The text with its trailing line breaks (`\n` and `\r`) removed.
pub open spec fn trimmed(b: Seq<u8>) -> Seq<u8>
    decreases b.len(),
{
    if b.len() > 0 && (b.last() == 10 || b.last() == 13) {
        trimmed(b.drop_last())
    } else {
        b
    }
}

/// The pieces between `\n` bytes, the last possibly empty.
pub open spec fn split_newlines(b: Seq<u8>) -> Seq<Seq<u8>>
    decreases b.len(),
{
    if b.len() == 0 {
        seq![seq![]]
    } else {
        let p = split_newlines(b.drop_last());
        if b.last() == 10 {
            p.push(seq![])
        } else {
            p.update(p.len() - 1, p.last().push(b.last()))
        }
    }
}

/// A line with the carriage return of a `\r\n` ending removed.
pub open spec fn strip_cr(l: Seq<u8>) -> Seq<u8> {
    if l.len() > 0 && l.last() == 13 { l.drop_last() } else { l }
}

/// The rows of a level file: the lines of the text once trailing line breaks
/// are gone, each without its `\r`.
pub open spec fn text_rows(b: Seq<u8>) -> Seq<Seq<u8>> {
    let t = trimmed(b);
    if t.len() == 0 {
        seq![]
    } else {
        split_newlines(t).map_values(|l: Seq<u8>| strip_cr(l))
    }
}

/// Splitting never yields more pieces than bytes plus one, nor a piece
/// longer than the whole.
pub proof fn lemma_split_bounds(b: Seq<u8>)
    ensures
        split_newlines(b).len() <= b.len() + 1,
        split_newlines(b).len() >= 1,
        forall|i: int| 0 <= i < split_newlines(b).len() ==> #[trigger] split_newlines(b)[i].len() <= b.len(),
    decreases b.len(),
{
    if b.len() > 0 {
        lemma_split_bounds(b.drop_last());
    }
}

/// The first row whose width differs from the first row's, if any.
pub open spec fn first_ragged(rows: Seq<Seq<u8>>) -> Option<int> {
    if exists|i: int| 0 <= i < rows.len() && #[trigger] rows[i].len() != rows[0].len() {
        Some(choose|i: int| 0 <= i < rows.len() && #[trigger] rows[i].len() != rows[0].len() && forall|j: int| #![trigger rows[j]] 0 <= j < i ==> rows[j].len() == rows[0].len())
    } else {
        None
    }
}

/// The error text for a ragged level.
pub open spec fn ragged_message(bad: nat, bad_width: nat, width: nat) -> Seq<char> {
    "row "@ + decimal(bad) + " is "@ + decimal(bad_width) + " wide but the level is "@ + decimal(width) + " wide"@
}

impl Level {
    /// Parse a level from a block of text, one row per line. Trailing blank
    /// lines are ignored. Every remaining row must be the same width,
    /// otherwise this returns an error naming the first row that is not.
    ///
    /// A level that parses is asked to have fewer than 2^28 rows and columns
    /// (`grid_fits`), so every tile's pixel position, eight pixels a tile, is
    /// an `i32`; empty and ragged text is answered whatever its size.
    #[verifier::rlimit(60)]
    pub fn from_text(text: &str) -> (r: Result<Self, String>)
        requires
            text_rows(text.spec_bytes()).len() > 0 && first_ragged(text_rows(text.spec_bytes())) is None ==> {
                &&& text_rows(text.spec_bytes()).len() < 0x1000_0000
                &&& text_rows(text.spec_bytes())[0].len() < 0x1000_0000
            },
            is_ascii(text) || first_ragged(text_rows(text.spec_bytes())) is Some,
        ensures
            text_rows(text.spec_bytes()).len() == 0 ==> (r matches Err(e) && e@ == "level is empty"@),
            text_rows(text.spec_bytes()).len() > 0 ==> match first_ragged(text_rows(text.spec_bytes())) {
                Some(bad) => (r matches Err(e) && e@ == ragged_message(
                    bad as nat,
                    text_rows(text.spec_bytes())[bad].len(),
                    text_rows(text.spec_bytes())[0].len(),
                )),
                None => (r matches Ok(level) && level.parsed_from(text_rows(text.spec_bytes()))),
            },
    {
        let bytes = text.as_bytes();
        let ghost b = bytes@;
        let mut end = bytes.len();
        assert(b.subrange(0, end as int) =~= b);
        while end > 0 && (bytes[end - 1] == 10 || bytes[end - 1] == 13)
            invariant
                end <= b.len(),
                bytes@ == b,
                trimmed(b.subrange(0, end as int)) == trimmed(b),
            decreases end,
        {
            proof {
                assert(b.subrange(0, end as int).drop_last() =~= b.subrange(0, end - 1));
            }
            end = end - 1;
        }
        proof {
            assert(trimmed(b.subrange(0, end as int)) == b.subrange(0, end as int));
        }
        let ghost t = b.subrange(0, end as int);
        let mut lines: Vec<Vec<u8>> = Vec::new();
        if end > 0 {
            let mut current: Vec<u8> = Vec::new();
            let mut i: usize = 0;
            while i < end
                invariant
                    i <= end,
                    end <= b.len(),
                    bytes@ == b,
                    t == b.subrange(0, end as int),
                    grid_view(lines@).push(current@) == split_newlines(t.subrange(0, i as int)),
                decreases end - i,
            {
                let c = bytes[i];
                proof {
                    assert(t.subrange(0, i + 1).drop_last() =~= t.subrange(0, i as int));
                }
                if c == 10 {
                    let done = current;
                    lines.push(done);
                    current = Vec::new();
                    proof {
                        assert(grid_view(lines@).push(current@) =~= split_newlines(t.subrange(0, i as int)).push(seq![]));
                    }
                } else {
                    current.push(c);
                    proof {
                        let p = split_newlines(t.subrange(0, i as int));
                        assert(grid_view(lines@).push(current@) =~= p.update(p.len() - 1, p.last().push(c)));
                    }
                }
                i = i + 1;
            }
            lines.push(current);
            proof {
                assert(t.subrange(0, end as int) =~= t);
            }
        }
        // Strip each line's carriage return.
        let mut rows: Vec<Vec<u8>> = Vec::new();
        let mut k: usize = 0;
        while k < lines.len()
            invariant
                k <= lines@.len(),
                grid_view(rows@) == grid_view(lines@).subrange(0, k as int).map_values(|l: Seq<u8>| strip_cr(l)),
            decreases lines@.len() - k,
        {
            let line = &lines[k];
            assert(grid_view(lines@)[k as int] == line@);
            let n = line.len();
            let keep = if n > 0 && line[n - 1] == 13 { n - 1 } else { n };
            let mut row: Vec<u8> = Vec::new();
            let mut j: usize = 0;
            while j < keep
                invariant
                    j <= keep,
                    keep <= line@.len(),
                    row@ == line@.subrange(0, j as int),
                decreases keep - j,
            {
                row.push(line[j]);
                j = j + 1;
                assert(row@ =~= line@.subrange(0, j as int));
            }
            proof {
                assert(row@ =~= strip_cr(line@));
            }
            let ghost prev = rows@;
            rows.push(row);
            proof {
                assert(grid_view(rows@) =~= grid_view(prev).push(row@));
                assert(grid_view(lines@).subrange(0, k + 1) =~= grid_view(lines@).subrange(0, k as int).push(line@));
            }
            k = k + 1;
            proof {
                assert(grid_view(rows@) =~= grid_view(lines@).subrange(0, k as int).map_values(|l: Seq<u8>| strip_cr(l)));
            }
        }
        proof {
            assert(grid_view(lines@).subrange(0, lines@.len() as int) =~= grid_view(lines@));
            if end > 0 {
                assert(grid_view(rows@) =~= text_rows(b));
            } else {
                assert(t.len() == 0);
                assert(grid_view(rows@) =~= text_rows(b));
            }
        }
        let ghost g = grid_view(rows@);
        if rows.len() == 0 {
            return Err(String::from_str("level is empty"));
        }
        let width = rows[0].len();
        let mut bad: usize = 0;
        while bad < rows.len()
            invariant
                bad <= rows@.len(),
                g == grid_view(rows@),
                g == text_rows(text.spec_bytes()),
                width == g[0].len(),
                rows@.len() > 0,
                forall|j: int| 0 <= j < bad ==> g[j].len() == width,
            decreases rows@.len() - bad,
        {
            if rows[bad].len() != width {
                let mut msg = String::from_str("row ");
                push_decimal(&mut msg, bad as u64);
                msg.append(" is ");
                push_decimal(&mut msg, rows[bad].len() as u64);
                msg.append(" wide but the level is ");
                push_decimal(&mut msg, width as u64);
                msg.append(" wide");
                proof {
                    reveal_strlit("row ");
                    reveal_strlit(" is ");
                    reveal_strlit(" wide but the level is ");
                    reveal_strlit(" wide");
                    assert(g[bad as int].len() != g[0].len());
                    let f = first_ragged(g);
                    assert(f == Some(bad as int));
                    assert(msg@ =~= ragged_message(bad as nat, g[bad as int].len(), g[0].len()));
                }
                return Err(msg);
            }
            bad = bad + 1;
        }
        proof {
            assert(first_ragged(g) is None);
            assert(g.len() < 0x1000_0000 && g[0].len() < 0x1000_0000);
            assert(grid_fits(g)) by {
                assert forall|i: int| 0 <= i < g.len() implies #[trigger] g[i].len() == grid_width(g) by {}
            }
        }
        Ok(Self::from_grid(&rows))
    }

    /// A copy of the level.
    pub fn duplicate(&self) -> (r: Self)
        ensures
            r.same_as(*self),
    {
        let solids = Solids {
            width: self.solids.width,
            height: self.solids.height,
            cells: copy_vec(&self.solids.cells),
            platforms: copy_vec(&self.solids.platforms),
        };
        let graphics = match &self.graphics {
            Some(g) => Some(
                Graphics {
                    cells: copy_vec(&g.cells),
                    tiles: copy_vec(&g.tiles),
                    palette: g.palette,
                    animated: g.animated,
                },
            ),
            None => None,
        };
        Level {
            solids,
            spawn: self.spawn,
            enemy_spawns: copy_vec(&self.enemy_spawns),
            coins: copy_vec(&self.coins),
            blocks: copy_vec(&self.blocks),
            end: self.end,
            items: copy_vec(&self.items),
            lifts: copy_vec(&self.lifts),
            graphics,
            number: self.number,
        }
    }

    /// Two levels hold the same content.
    pub open spec fn same_as(self, other: Level) -> bool {
        &&& self.solids.width == other.solids.width
        &&& self.solids.height == other.solids.height
        &&& self.solids.cells@ == other.solids.cells@
        &&& self.solids.platforms@ == other.solids.platforms@
        &&& self.spawn == other.spawn
        &&& self.enemy_spawns@ == other.enemy_spawns@
        &&& self.coins@ == other.coins@
        &&& self.blocks@ == other.blocks@
        &&& self.end == other.end
        &&& self.items@ == other.items@
        &&& self.lifts@ == other.lifts@
        &&& same_graphics(self.graphics, other.graphics)
        &&& self.number == other.number
    }

    /// Drop the spawns for content Super Mario Land does not have: the star,
    /// and the Bouncer (ours, marker `F`). Everything else is kept, in order.
    pub fn without_non_canonical(self) -> (r: Self)
        ensures
            r.items@ == self.items@.filter(|t: (i32, i32, ItemKind)| t.2 != ItemKind::Star),
            r.enemy_spawns@ == self.enemy_spawns@.filter(|t: (i32, i32, EnemyKind)| t.2 != EnemyKind::Bouncer),
            r.solids == self.solids,
            r.spawn == self.spawn,
            r.coins == self.coins,
            r.blocks == self.blocks,
            r.end == self.end,
            r.lifts == self.lifts,
            r.graphics == self.graphics,
            r.number == self.number,
    {
        let ghost item_pred = |t: (i32, i32, ItemKind)| t.2 != ItemKind::Star;
        let ghost enemy_pred = |t: (i32, i32, EnemyKind)| t.2 != EnemyKind::Bouncer;
        let mut items: Vec<(i32, i32, ItemKind)> = Vec::new();
        let mut i: usize = 0;
        while i < self.items.len()
            invariant
                i <= self.items@.len(),
                item_pred == (|t: (i32, i32, ItemKind)| t.2 != ItemKind::Star),
                items@ == self.items@.take(i as int).filter(item_pred),
            decreases self.items@.len() - i,
        {
            let t = self.items[i];
            proof {
                assert(self.items@.take(i + 1) == self.items@.take(i as int).push(t));
                self.items@.take(i as int).lemma_filter_push(t, item_pred);
            }
            if t.2 != ItemKind::Star {
                items.push(t);
            }
            i = i + 1;
        }
        let mut enemies: Vec<(i32, i32, EnemyKind)> = Vec::new();
        let mut j: usize = 0;
        while j < self.enemy_spawns.len()
            invariant
                j <= self.enemy_spawns@.len(),
                enemy_pred == (|t: (i32, i32, EnemyKind)| t.2 != EnemyKind::Bouncer),
                enemies@ == self.enemy_spawns@.take(j as int).filter(enemy_pred),
            decreases self.enemy_spawns@.len() - j,
        {
            let t = self.enemy_spawns[j];
            proof {
                assert(self.enemy_spawns@.take(j + 1) == self.enemy_spawns@.take(j as int).push(t));
                self.enemy_spawns@.take(j as int).lemma_filter_push(t, enemy_pred);
            }
            if t.2 != EnemyKind::Bouncer {
                enemies.push(t);
            }
            j = j + 1;
        }
        proof {
            assert(self.items@.take(self.items@.len() as int) == self.items@);
            assert(self.enemy_spawns@.take(self.enemy_spawns@.len() as int) == self.enemy_spawns@);
        }
        Level { items, enemy_spawns: enemies, ..self }
    }
}

/// The marks of a row prefix are no more than its bytes, each at a tile of
/// that prefix in row `ty`.
pub proof fn lemma_row_marks_bounded<K>(row: Seq<u8>, ty: int, n: int, f: spec_fn(u8) -> Option<K>)
    requires
        0 <= n <= row.len(),
        n < 0x1000_0000,
        0 <= ty < 0x1000_0000,
    ensures
        row_marks(row, ty, n, f).len() <= n,
        forall|i: int| #![trigger row_marks(row, ty, n, f)[i]]
            0 <= i < row_marks(row, ty, n, f).len() ==> 0 <= row_marks(row, ty, n, f)[i].0 < 8 * n
                && row_marks(row, ty, n, f)[i].1 == 8 * ty,
    decreases n,
{
    if n > 0 {
        lemma_row_marks_bounded(row, ty, n - 1, f);
    }
}

/// The marks of the first `m` rows of a grid whose rows are at most `w`
/// bytes: at most `m * w` of them, each inside the first `m` rows and `w`
/// columns.
pub proof fn lemma_grid_marks_bounded<K>(grid: Seq<Seq<u8>>, m: int, f: spec_fn(u8) -> Option<K>, w: int)
    requires
        0 <= m <= grid.len(),
        grid.len() < 0x1000_0000,
        0 <= w < 0x1000_0000,
        forall|i: int| 0 <= i < grid.len() ==> #[trigger] grid[i].len() <= w,
    ensures
        grid_marks(grid, m, f).len() <= m * w,
        forall|i: int| #![trigger grid_marks(grid, m, f)[i]]
            0 <= i < grid_marks(grid, m, f).len() ==> 0 <= grid_marks(grid, m, f)[i].0 < 8 * w
                && 0 <= grid_marks(grid, m, f)[i].1 < 8 * m,
    decreases m,
{
    if m > 0 {
        lemma_grid_marks_bounded(grid, m - 1, f, w);
        let row = grid[m - 1];
        lemma_row_marks_bounded(row, m - 1, row.len() as int, f);
        let a = grid_marks(grid, m - 1, f);
        let b = row_marks(row, m - 1, row.len() as int, f);
        assert(grid_marks(grid, m, f) == a + b);
        assert((m - 1) * w + w == m * w) by (nonlinear_arith);
        assert forall|i: int| #![trigger (a + b)[i]] 0 <= i < (a + b).len() implies 0 <= (a + b)[i].0 < 8 * w
            && 0 <= (a + b)[i].1 < 8 * m by {
            if i < a.len() {
                assert((a + b)[i] == a[i]);
            } else {
                assert((a + b)[i] == b[i - a.len()]);
            }
        }
    }
}

} // verus!
