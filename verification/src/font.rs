//! A tiny 3x5 bitmap font for the HUD: the ten digits, our own drawing.
//!
//! Each glyph is five rows of three bits, most significant bit on the left.
use crate::render::{on_screen, Framebuffer, Shade};
use crate::text::{digits, digits_of, lemma_digits_valid};
use vstd::prelude::*;

verus! {

pub const GLYPH_W: i32 = 3;
pub const GLYPH_H: i32 = 5;
/// One blank column between digits.
pub const ADVANCE: i32 = 4;

/// Row `row` of digit `d`'s glyph, three bits wide.
pub open spec fn glyph_row_spec(d: nat, row: int) -> u8 {
    let rows: Seq<u8> = if d == 0 {
        seq![7u8, 5, 5, 5, 7]
    } else if d == 1 {
        seq![2u8, 6, 2, 2, 7]
    } else if d == 2 {
        seq![7u8, 1, 7, 4, 7]
    } else if d == 3 {
        seq![7u8, 1, 7, 1, 7]
    } else if d == 4 {
        seq![5u8, 5, 7, 1, 1]
    } else if d == 5 {
        seq![7u8, 4, 7, 1, 7]
    } else if d == 6 {
        seq![7u8, 4, 7, 5, 7]
    } else if d == 7 {
        seq![7u8, 1, 1, 2, 2]
    } else if d == 8 {
        seq![7u8, 5, 7, 5, 7]
    } else {
        seq![7u8, 5, 7, 1, 7]
    };
    rows[row]
}

fn glyph_row(d: u8, row: usize) -> (r: u8)
    requires
        d < 10,
        row < 5,
    ensures
        r == glyph_row_spec(d as nat, row as int),
{
    let rows: [u8; 5] = if d == 0 {
        [7, 5, 5, 5, 7]
    } else if d == 1 {
        [2, 6, 2, 2, 7]
    } else if d == 2 {
        [7, 1, 7, 4, 7]
    } else if d == 3 {
        [7, 1, 7, 1, 7]
    } else if d == 4 {
        [5, 5, 7, 1, 1]
    } else if d == 5 {
        [7, 4, 7, 1, 7]
    } else if d == 6 {
        [7, 4, 7, 5, 7]
    } else if d == 7 {
        [7, 1, 1, 2, 2]
    } else if d == 8 {
        [7, 5, 7, 5, 7]
    } else {
        [7, 5, 7, 1, 7]
    };
    rows[row]
}

/// Whether the glyph of digit `d` drawn at (gx, gy) inks pixel (px, py).
pub open spec fn digit_inks(d: nat, gx: int, gy: int, px: int, py: int) -> bool {
    0 <= px - gx < 3 && 0 <= py - gy < 5 && (glyph_row_spec(d, py - gy) >> ((2 - (px - gx)) as u8)) & 1u8 == 1u8
}

/// Whether a run of digits drawn from (x, y), one every `ADVANCE` pixels,
/// inks pixel (px, py).
pub open spec fn number_inks(ds: Seq<nat>, x: int, y: int, px: int, py: int) -> bool {
    exists|i: int| 0 <= i < ds.len() && #[trigger] digit_inks(ds[i], x + 4 * i, y, px, py)
}

fn draw_digit(fb: &mut Framebuffer, digit: u8, x: i32, y: i32, shade: Shade)
    requires
        old(fb).wf(),
        digit < 10,
        x <= 0x7fff_fffd,
        y <= 0x7fff_fffb,
    ensures
        final(fb).wf(),
        forall|px: int, py: int|
            on_screen(px, py) ==> #[trigger] final(fb).at(px, py) == (if digit_inks(digit as nat, x as int, y as int, px, py) {
                shade
            } else {
                old(fb).at(px, py)
            }),
{
    let mut row: usize = 0;
    while row < 5
        invariant
            fb.wf(),
            digit < 10,
            row <= 5,
            x <= 0x7fff_fffd,
            y <= 0x7fff_fffb,
            forall|px: int, py: int|
                on_screen(px, py) ==> #[trigger] fb.at(px, py) == (if digit_inks(digit as nat, x as int, y as int, px, py)
                    && py < y + row {
                    shade
                } else {
                    old(fb).at(px, py)
                }),
        decreases 5 - row,
    {
        let bits = glyph_row(digit, row);
        let mut col: i32 = 0;
        while col < GLYPH_W
            invariant
                fb.wf(),
                digit < 10,
                row < 5,
                0 <= col <= 3,
                bits == glyph_row_spec(digit as nat, row as int),
                x <= 0x7fff_fffd,
                y <= 0x7fff_fffb,
                forall|px: int, py: int|
                    on_screen(px, py) ==> #[trigger] fb.at(px, py) == (if digit_inks(digit as nat, x as int, y as int, px, py)
                        && (py < y + row || (py == y + row && px < x + col)) {
                        shade
                    } else {
                        old(fb).at(px, py)
                    }),
            decreases 3 - col,
        {
            let shift = (GLYPH_W - 1 - col) as u8;
            if (bits >> shift) & 1 == 1 {
                let px = x + col;
                let py = y + row as i32;
                if px >= 0 && py >= 0 && (px as u32) < crate::SCREEN_WIDTH && (py as u32) < crate::SCREEN_HEIGHT {
                    fb.set(px as u32, py as u32, shade);
                }
            }
            col = col + 1;
        }
        row = row + 1;
    }
}

/// Draw a number left to right starting at (x, y), in decimal with no
/// leading zeros. Returns the x just past it: one `ADVANCE` per digit.
/// Any position works whose end is still an `i32`.
pub fn draw_number(fb: &mut Framebuffer, x: i32, y: i32, value: u32, shade: Shade) -> (end: i32)
    requires
        old(fb).wf(),
        x + 4 * digits(value as nat).len() <= 0x7fff_ffff,
        y <= 0x7fff_fffb,
    ensures
        final(fb).wf(),
        end == x + 4 * digits(value as nat).len(),
        forall|px: int, py: int|
            on_screen(px, py) ==> #[trigger] final(fb).at(px, py) == (if number_inks(digits(value as nat), x as int, y as int, px, py) {
                shade
            } else {
                old(fb).at(px, py)
            }),
{
    let ds = digits_of(value as u64);
    let ghost dig = digits(value as nat);
    proof {
        lemma_digits_valid(value as nat);
        assert(dig.len() <= 10) by {
            lemma_digit_count(value as nat);
        }
    }
    let mut cx = x;
    let mut i: usize = 0;
    while i < ds.len()
        invariant
            fb.wf(),
            i <= ds@.len(),
            ds@.len() == dig.len(),
            dig.len() <= 10,
            forall|k: int| 0 <= k < ds@.len() ==> ds@[k] as nat == #[trigger] dig[k],
            forall|k: int| 0 <= k < dig.len() ==> #[trigger] dig[k] < 10,
            cx == x + 4 * i,
            x + 4 * dig.len() <= 0x7fff_ffff,
            y <= 0x7fff_fffb,
            forall|px: int, py: int|
                on_screen(px, py) ==> #[trigger] fb.at(px, py) == (if number_inks(dig.take(i as int), x as int, y as int, px, py) {
                    shade
                } else {
                    old(fb).at(px, py)
                }),
        decreases ds@.len() - i,
    {
        let d = ds[i];
        assert(d < 10) by {
            assert(dig[i as int] < 10);
        }
        draw_digit(fb, d, cx, y, shade);
        proof {
            assert forall|px: int, py: int| on_screen(px, py) implies number_inks(dig.take(i + 1), x as int, y as int, px, py)
                == (number_inks(dig.take(i as int), x as int, y as int, px, py) || digit_inks(d as nat, cx as int, y as int, px, py)) by {
                if number_inks(dig.take(i + 1), x as int, y as int, px, py) {
                    let k = choose|k: int| 0 <= k < i + 1 && #[trigger] digit_inks(dig.take(i + 1)[k], x + 4 * k, y as int, px, py);
                    if k < i {
                        assert(digit_inks(dig.take(i as int)[k], x + 4 * k, y as int, px, py));
                    }
                }
                if number_inks(dig.take(i as int), x as int, y as int, px, py) {
                    let k = choose|k: int| 0 <= k < i && #[trigger] digit_inks(dig.take(i as int)[k], x + 4 * k, y as int, px, py);
                    assert(digit_inks(dig.take(i + 1)[k], x + 4 * k, y as int, px, py));
                }
                if digit_inks(d as nat, cx as int, y as int, px, py) {
                    assert(digit_inks(dig.take(i + 1)[i as int], x + 4 * i, y as int, px, py));
                }
            }
        }
        cx = cx + 4;
        i = i + 1;
    }
    assert(dig.take(dig.len() as int) =~= dig);
    cx
}

/// A number below 2^32 has at most ten digits.
pub proof fn lemma_digit_count(n: nat)
    requires
        n < 0x1_0000_0000,
    ensures
        digits(n).len() <= 10,
{
    reveal_with_fuel(crate::text::pow10, 11);
    lemma_digit_count_bound(n, 10);
}

proof fn lemma_digit_count_bound(n: nat, k: nat)
    requires
        n < crate::text::pow10(k),
        k >= 1,
    ensures
        digits(n).len() <= k,
    decreases n,
{
    if n >= 10 {
        assert(crate::text::pow10(k) == 10 * crate::text::pow10((k - 1) as nat));
        assert(n / 10 < crate::text::pow10((k - 1) as nat));
        if k == 1 {
            assert(false);
        } else {
            lemma_digit_count_bound(n / 10, (k - 1) as nat);
        }
    }
}

} // verus!
