//! The cartridge's status bar.
//!
//! Two rows of 8x8 background tiles across the top of the screen, drawn with
//! the font at the start of the shared tile atlas. The layout and every id are
//! read off an emulator capture of World 1-1's opening.
use crate::text::{lemma_div_pow10_step, pow10};
use vstd::prelude::*;

verus! {

/// Columns and rows the bar covers.
pub const COLUMNS: usize = 20;
pub const ROWS: usize = 2;
/// An empty cell.
pub const BLANK: u8 = 0x6F;
/// The game draws a zero with the same tile it draws the letter O with.
pub const ZERO: u8 = 0x18;
pub const DASH: u8 = 0x29;
/// The coin symbol in front of the coin count.
pub const COIN: u8 = 0x2A;
/// The multiplication sign in "MARIO x02" and in the coin count.
pub const TIMES: u8 = 0x2B;

/// The tile for a decimal digit (the value's last digit).
pub open spec fn digit_tile(value: nat) -> u8 {
    if value % 10 == 0 { ZERO } else { (value % 10) as u8 }
}

/// The tile for an uppercase letter.
pub open spec fn letter_tile(c: char) -> u8 {
    (10 + (c as int - 65)) as u8
}

/// The tile for a decimal digit.
pub fn digit(value: u8) -> (r: u8)
    ensures
        r == digit_tile(value as nat),
{
    let d = value % 10;
    if d == 0 {
        ZERO
    } else {
        d
    }
}

/// The tile for an uppercase letter.
pub fn letter(c: char) -> (r: u8)
    requires
        65 <= c as u32 <= 255,
    ensures
        r == letter_tile(c),
{
    let code = c as u32;
    (10 + (code - 65)) as u8
}

fn write(row: &mut [u8; 20], at: usize, text: &str)
    requires
        at + text@.len() <= 20,
        forall|i: int| 0 <= i < text@.len() ==> 65 <= #[trigger] text@[i] as u32 <= 90,
        text@.len() <= 5,
    ensures
        forall|i: int|
            0 <= i < 20 ==> #[trigger] final(row)@[i] == (if at <= i < at + text@.len() {
                letter_tile(text@[i - at])
            } else {
                old(row)@[i]
            }),
{
    let n = text.unicode_len();
    let mut i: usize = 0;
    while i < n
        invariant
            n == text@.len(),
            at + n <= 20,
            i <= n,
            forall|k: int| 0 <= k < text@.len() ==> 65 <= #[trigger] text@[k] as u32 <= 90,
            forall|k: int|
                0 <= k < 20 ==> #[trigger] row@[k] == (if at <= k < at + i {
                    letter_tile(text@[k - at])
                } else {
                    old(row)@[k]
                }),
        decreases n - i,
    {
        let c = text.get_char(i);
        row[at + i] = letter(c);
        i = i + 1;
    }
}

/// Digit `i` (0 leftmost) of `value` written in a field `width` wide with
/// leading zeros; higher digits that do not fit are dropped.
pub open spec fn padded_digit(value: nat, width: nat, i: int) -> u8 {
    digit_tile((value / pow10((width - 1 - i) as nat)) % 10)
}

/// Zero-padded digits, most significant first.
fn padded(value: u32, width: usize) -> (r: Vec<u8>)
    requires
        1 <= width <= 3,
    ensures
        r@.len() == width,
        forall|i: int| 0 <= i < width ==> #[trigger] r@[i] == padded_digit(value as nat, width as nat, i),
{
    let mut out: Vec<u8> = Vec::new();
    let mut k: usize = 0;
    while k < width
        invariant
            k <= width,
            out@.len() == k,
        decreases width - k,
    {
        out.push(ZERO);
        k = k + 1;
    }
    let mut left = value;
    let mut j: usize = 0;
    assert(pow10(0) == 1);
    while j < width
        invariant
            j <= width,
            1 <= width <= 3,
            out@.len() == width,
            left == value as nat / pow10(j as nat),
            forall|i: int|
                width - j <= i < width ==> #[trigger] out@[i] == padded_digit(value as nat, width as nat, i),
        decreases width - j,
    {
        let cell = width - 1 - j;
        out.set(cell, digit((left % 10) as u8));
        proof {
            lemma_div_pow10_step(value as nat, j as nat);
            assert(padded_digit(value as nat, width as nat, cell as int) == digit_tile((left % 10) as nat));
        }
        left = left / 10;
        j = j + 1;
    }
    out
}

/// The cell `c` (0..6) of the score field: right aligned, blanks in front,
/// a single zero for a score of zero, and the lowest six digits of a longer
/// score.
pub open spec fn score_cell(score: nat, c: int) -> u8 {
    let j = 5 - c;
    if j == 0 || score / pow10(j as nat) > 0 {
        digit_tile((score / pow10(j as nat)) % 10)
    } else {
        BLANK
    }
}

/// The whole status bar as tile ids, row major: "MARIO x" and the lives,
/// "WORLD", "TIME" on top; the score, the coin count, the world and level,
/// and the time below.
pub open spec fn status_bar_spec(score: nat, coins: nat, lives: nat, world: (u8, u8), time: nat) -> (Seq<u8>, Seq<u8>) {
    let top = seq![
        letter_tile('M'), letter_tile('A'), letter_tile('R'), letter_tile('I'), letter_tile('O'),
        TIMES, padded_digit(lives, 2, 0), padded_digit(lives, 2, 1), BLANK, BLANK,
        letter_tile('W'), letter_tile('O'), letter_tile('R'), letter_tile('L'), letter_tile('D'),
        BLANK, letter_tile('T'), letter_tile('I'), letter_tile('M'), letter_tile('E')
    ];
    let bottom = seq![
        score_cell(score, 0), score_cell(score, 1), score_cell(score, 2), score_cell(score, 3),
        score_cell(score, 4), score_cell(score, 5), BLANK, COIN, TIMES,
        padded_digit(coins, 2, 0), padded_digit(coins, 2, 1), BLANK,
        digit_tile(world.0 as nat), DASH, digit_tile(world.1 as nat), BLANK, BLANK,
        padded_digit(time, 3, 0), padded_digit(time, 3, 1), padded_digit(time, 3, 2)
    ];
    (top, bottom)
}

/// The status bar as tile ids, row major.
pub fn status_bar(score: u32, coins: u32, lives: u32, world: (u8, u8), time: u32) -> (r: [[u8; 20]; 2])
    ensures
        r[0]@ == status_bar_spec(score as nat, coins as nat, lives as nat, world, time as nat).0,
        r[1]@ == status_bar_spec(score as nat, coins as nat, lives as nat, world, time as nat).1,
{
    proof {
        reveal_strlit("MARIO");
        reveal_strlit("WORLD");
        reveal_strlit("TIME");
    }
    let mut top = [BLANK; 20];
    write(&mut top, 0, "MARIO");
    top[5] = TIMES;
    let l = padded(lives, 2);
    top[6] = l[0];
    top[7] = l[1];
    write(&mut top, 10, "WORLD");
    write(&mut top, 16, "TIME");

    let mut bottom = [BLANK; 20];
    let mut left = score;
    let mut j: usize = 0;
    assert(pow10(0) == 1);
    while j < 6 && !(j > 0 && left == 0)
        invariant
            j <= 6,
            left == score as nat / pow10(j as nat),
            forall|c: int| 0 <= c < 20 && !(6 - j <= c < 6) ==> #[trigger] bottom@[c] == BLANK,
            forall|c: int| 6 - j <= c < 6 ==> #[trigger] bottom@[c] == score_cell(score as nat, c),
        decreases 6 - j,
    {
        let column = 5 - j;
        bottom[column] = digit((left % 10) as u8);
        proof {
            lemma_div_pow10_step(score as nat, j as nat);
        }
        left = left / 10;
        j = j + 1;
    }
    proof {
        if j < 6 {
            assert forall|c: int| 0 <= c < 6 - j implies score_cell(score as nat, c) == BLANK by {
                lemma_pow10_monotone_div(score as nat, j as nat, (5 - c) as nat);
            }
        }
    }
    assert forall|c: int| 0 <= c < 6 implies #[trigger] bottom@[c] == score_cell(score as nat, c) by {}
    bottom[7] = COIN;
    bottom[8] = TIMES;
    let c = padded(coins, 2);
    bottom[9] = c[0];
    bottom[10] = c[1];
    bottom[12] = digit(world.0);
    bottom[13] = DASH;
    bottom[14] = digit(world.1);
    let t = padded(time, 3);
    bottom[17] = t[0];
    bottom[18] = t[1];
    bottom[19] = t[2];
    assert(top@ =~= status_bar_spec(score as nat, coins as nat, lives as nat, world, time as nat).0);
    assert(bottom@ =~= status_bar_spec(score as nat, coins as nat, lives as nat, world, time as nat).1);
    [top, bottom]
}

/// Once a number divided by 10^a is zero, so is it divided by any higher power.
proof fn lemma_pow10_monotone_div(v: nat, a: nat, b: nat)
    requires
        v / pow10(a) == 0,
        a <= b,
    ensures
        v / pow10(b) == 0,
    decreases b - a,
{
    if a < b {
        lemma_div_pow10_step(v, a);
        lemma_pow10_monotone_div(v, a + 1, b);
    }
}

} // verus!
