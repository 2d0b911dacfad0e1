//! The counter of scrolling digits.
//!
//! Positions are in half pixels, so that the middle of a canvas of odd size has one.

use vstd::prelude::*;

use crate::seed::{lcg_bits, wrapping_sum};

verus! {

/// The digits, seven rows of five cells each; the highest of the five bits is the leftmost cell.
pub const DIGITS: [[u8; 7]; 10] = [
    [0b01110, 0b10001, 0b10011, 0b10101, 0b11001, 0b10001, 0b01110],
    [0b00100, 0b01100, 0b00100, 0b00100, 0b00100, 0b00100, 0b01110],
    [0b01110, 0b10001, 0b00001, 0b00110, 0b01000, 0b10000, 0b11111],
    [0b11111, 0b00010, 0b00100, 0b00110, 0b00001, 0b10001, 0b01110],
    [0b00010, 0b00110, 0b01010, 0b10010, 0b11111, 0b00010, 0b00010],
    [0b11111, 0b10000, 0b11110, 0b00001, 0b00001, 0b10001, 0b01110],
    [0b00110, 0b01000, 0b10000, 0b11110, 0b10001, 0b10001, 0b01110],
    [0b11111, 0b00001, 0b00010, 0b00100, 0b01000, 0b01000, 0b01000],
    [0b01110, 0b10001, 0b10001, 0b01110, 0b10001, 0b10001, 0b01110],
    [0b01110, 0b10001, 0b10001, 0b01111, 0b00001, 0b00010, 0b01100],
];

/// The cells of a row of a digit, as bits.
pub open spec fn row_bits(digit: u8, row: int) -> u8 {
    DIGITS@[if digit < 9 { digit as int } else { 9 }]@[row]
}

/// The cell in column `col` of row `row` of a digit is lit. What is above 9 looks like a 9.
pub open spec fn lit(digit: u8, row: int, col: int) -> bool {
    row_bits(digit, row) & (1u8 << ((4 - col) as u8)) != 0
}

/// The upper left corner of a lit cell, which is two pixels wide and high.
#[derive(Clone, Copy, Debug, PartialEq, Eq, Structural)]
pub struct Dot {
    pub x: i64,
    pub y: i64,
}

/// The dot of cell `k`, counted row by row, of a digit at (`x`, `y`).
pub open spec fn dot(x: i64, y: i64, k: int) -> Dot {
    Dot { x: (x + 4 * (k % 5)) as i64, y: (y + 4 * (k / 5)) as i64 }
}

/// A dot begins on a canvas of `pw` by `ph` pixels.
pub open spec fn on_canvas(d: Dot, pw: u32, ph: u32) -> bool {
    0 <= d.x < 2 * pw && 0 <= d.y < 2 * ph
}

/// The dots of the first `n` cells of a digit: those that are lit and on the canvas, row by row.
pub open spec fn dots(pw: u32, ph: u32, digit: u8, x: i64, y: i64, n: nat) -> Seq<Dot>
    decreases n,
{
    if n == 0 {
        seq![]
    } else {
        let before = dots(pw, ph, digit, x, y, (n - 1) as nat);
        let k = n - 1;
        if lit(digit, k / 5, k % 5) && on_canvas(dot(x, y, k), pw, ph) {
            before.push(dot(x, y, k))
        } else {
            before
        }
    }
}

/// The dots of a digit, of which a faint one has none.
pub open spec fn shown(pw: u32, ph: u32, digit: u8, x: i64, y: i64, faint: bool) -> Seq<Dot> {
    if faint {
        seq![]
    } else {
        dots(pw, ph, digit, x, y, 35)
    }
}

/// Finds the dots of a digit at (`x`, `y`) on a canvas of `pw` by `ph` pixels. A digit that is
/// too faint to be seen has none.
pub fn draw_pixel_digit(pw: u32, ph: u32, digit: u8, x: i64, y: i64, faint: bool) -> (res: Vec<Dot>)
    requires
        x <= i64::MAX - 16,
        y <= i64::MAX - 24,
    ensures
        res@ == shown(pw, ph, digit, x, y, faint),
{
    let mut res: Vec<Dot> = Vec::new();
    if faint {
        return res;
    }
    let d: usize = if digit < 9 {
        digit as usize
    } else {
        9
    };
    let mut row: u8 = 0;
    while row < 7
        invariant
            x <= i64::MAX - 16,
            y <= i64::MAX - 24,
            d == (if digit < 9 { digit as int } else { 9 }),
            row <= 7,
            res@ == dots(pw, ph, digit, x, y, (5 * row) as nat),
        decreases 7 - row,
    {
        let bits: u8 = DIGITS[d][row as usize];
        let mut col: u8 = 0;
        while col < 5
            invariant
                x <= i64::MAX - 16,
                y <= i64::MAX - 24,
                row < 7,
                col <= 5,
                bits == row_bits(digit, row as int),
                res@ == dots(pw, ph, digit, x, y, (5 * row + col) as nat),
            decreases 5 - col,
        {
            if bits & (1u8 << (4 - col)) != 0 {
                let px: i64 = x + 4 * col as i64;
                let py: i64 = y + 4 * row as i64;
                if px >= 0 && py >= 0 && px < 2 * pw as i64 && py < 2 * ph as i64 {
                    res.push(Dot { x: px, y: py });
                }
            }
            col = col + 1;
        }
        row = row + 1;
    }
    res
}

/// Every dot of a digit begins on the canvas.
pub proof fn lemma_dots_on_canvas(pw: u32, ph: u32, digit: u8, x: i64, y: i64, n: nat)
    ensures
        forall|i: int|
            0 <= i < dots(pw, ph, digit, x, y, n).len() ==> on_canvas(
                #[trigger] dots(pw, ph, digit, x, y, n)[i],
                pw,
                ph,
            ),
    decreases n,
{
    if n > 0 {
        lemma_dots_on_canvas(pw, ph, digit, x, y, (n - 1) as nat);
        let before = dots(pw, ph, digit, x, y, (n - 1) as nat);
        let all = dots(pw, ph, digit, x, y, n);
        assert forall|i: int| 0 <= i < all.len() implies on_canvas(#[trigger] all[i], pw, ph) by {
            if i < before.len() {
                assert(all[i] == before[i]);
            }
        }
    }
}

/// Every dot of a digit at (`x`, `y`) lies within its 10 by 14 pixels.
pub proof fn lemma_dots_in_box(pw: u32, ph: u32, digit: u8, x: i64, y: i64, n: nat)
    requires
        n <= 35,
        x <= i64::MAX - 16,
        y <= i64::MAX - 24,
    ensures
        forall|i: int|
            0 <= i < dots(pw, ph, digit, x, y, n).len() ==> in_box(
                #[trigger] dots(pw, ph, digit, x, y, n)[i],
                x,
                y,
            ),
    decreases n,
{
    if n > 0 {
        lemma_dots_in_box(pw, ph, digit, x, y, (n - 1) as nat);
        let before = dots(pw, ph, digit, x, y, (n - 1) as nat);
        let all = dots(pw, ph, digit, x, y, n);
        assert forall|i: int| 0 <= i < all.len() implies in_box(#[trigger] all[i], x, y) by {
            if i < before.len() {
                assert(all[i] == before[i]);
            }
        }
    }
}

/// A dot, four half pixels wide and high, lies within five columns and seven rows of dots from
/// (`x`, `y`) on.
pub open spec fn in_box(d: Dot, x: i64, y: i64) -> bool {
    x <= d.x && d.x + 4 <= x + 20 && y <= d.y && d.y + 4 <= y + 28
}

/// A digit that lies off the canvas, to whichever side, has no dots.
pub proof fn lemma_no_dots_off_canvas(pw: u32, ph: u32, digit: u8, x: i64, y: i64)
    requires
        x <= i64::MAX - 16,
        y <= i64::MAX - 24,
        x >= 2 * pw || y >= 2 * ph || x <= -20 || y <= -28,
    ensures
        dots(pw, ph, digit, x, y, 35).len() == 0,
{
    lemma_dots_in_box(pw, ph, digit, x, y, 35);
    lemma_dots_on_canvas(pw, ph, digit, x, y, 35);
    let all = dots(pw, ph, digit, x, y, 35);
    if all.len() > 0 {
        assert(in_box(all[0], x, y) && on_canvas(all[0], pw, ph));
    }
}

/// What is above 9 has the dots of a 9.
pub proof fn lemma_above_nine(pw: u32, ph: u32, digit: u8, x: i64, y: i64, n: nat)
    requires
        digit > 9,
    ensures
        dots(pw, ph, digit, x, y, n) == dots(pw, ph, 9, x, y, n),
    decreases n,
{
    if n > 0 {
        lemma_above_nine(pw, ph, digit, x, y, (n - 1) as nat);
    }
}

/// How strongly a digit shows.
#[derive(Clone, Copy, Debug, PartialEq, Eq, Structural)]
pub enum Strength {
    Bright,
    Medium,
    Dim,
}

/// A digit of the counter and where it stands.
#[derive(Clone, Copy, Debug, PartialEq, Eq, Structural)]
pub struct Glyph {
    pub digit: u8,
    pub x: i64,
    pub y: i64,
    pub strength: Strength,
}

/// How many columns the counter has.
pub const COLUMNS: usize = 8;

/// How many digits each column has.
pub const ROWS: usize = 6;

/// The digit in a column and row: the column's ticks, the seed and a number for the place, summed
/// up in 64 bits, and of that sum the last decimal digit.
pub open spec fn digit_at(ticks: u64, col: int, row: int, seed: u64) -> u8 {
    ((ticks + col * 31 + row * 17 + seed) % crate::seed::two_to_64() % 10) as u8
}

/// The digit in column `col` and row `row`, from the bottom up. The columns are 40 pixels apart
/// and stand in the middle of the canvas; the rows are 18 pixels apart, the lowest of them 155
/// pixels below the middle. The top row is bright, the one below it less so.
pub open spec fn glyph(pw: u32, ph: u32, ticks: u64, seed: u64, col: int, row: int) -> Glyph {
    Glyph {
        digit: digit_at(ticks, col, row, seed),
        x: (pw - 320 + 80 * col) as i64,
        y: (ph + 310 - 36 * row) as i64,
        strength: if row == 5 {
            Strength::Bright
        } else if row == 4 {
            Strength::Medium
        } else {
            Strength::Dim
        },
    }
}

/// All digits of the counter, column by column, each from the bottom up.
pub open spec fn glyphs(pw: u32, ph: u32, ticks: Seq<u64>, seed: u64) -> Seq<Glyph> {
    Seq::new(48, |k: int| glyph(pw, ph, ticks[k / 6], seed, k / 6, k % 6))
}

/// The numbers that the speeds of the columns come from.
pub open spec fn columns_drawn(seed: u64) -> Seq<u32> {
    Seq::new(8, |col: int| crate::seed::drawn(seed, (7 * col) as u64))
}

/// Draws the numbers that the speeds of the columns come from.
pub fn column_draws(seed: u64) -> (draws: Vec<u32>)
    ensures
        draws@ == columns_drawn(seed),
{
    let mut draws: Vec<u32> = Vec::new();
    let mut col: u64 = 0;
    while col < 8
        invariant
            col <= 8,
            draws@ == Seq::new(col as nat, |c: int| crate::seed::drawn(seed, (7 * c) as u64)),
        decreases 8 - col,
    {
        draws.push(lcg_bits(seed, col * 7));
        assert(draws@ =~= Seq::new(
            (col + 1) as nat,
            |c: int| crate::seed::drawn(seed, (7 * c) as u64),
        ));
        col = col + 1;
    }
    draws
}

fn last_digit(ticks: u64, col: u64, row: u64, seed: u64) -> (digit: u8)
    requires
        col < COLUMNS,
        row < ROWS,
    ensures
        digit == digit_at(ticks, col as int, row as int, seed),
        digit < 10,
{
    let with_col: u64 = wrapping_sum(ticks, col * 31);
    let with_row: u64 = wrapping_sum(with_col, row * 17);
    let sum: u64 = wrapping_sum(with_row, seed);
    proof {
        let m = crate::seed::two_to_64();
        crate::seed::lemma_reduced_first(ticks + col * 31, with_col as int, row * 17, m);
        crate::seed::lemma_reduced_first(
            ticks + col * 31 + row * 17,
            with_row as int,
            seed as int,
            m,
        );
    }
    (sum % 10) as u8
}

/// Works out the digits of the counter on a canvas of `pw` by `ph` pixels, from how many ticks
/// each column has made.
pub fn counter_glyphs(pw: u32, ph: u32, ticks: &Vec<u64>, seed: u64) -> (res: Vec<Glyph>)
    requires
        ticks@.len() == COLUMNS,
    ensures
        res@ == glyphs(pw, ph, ticks@, seed),
{
    let mut res: Vec<Glyph> = Vec::new();
    let ghost target = glyphs(pw, ph, ticks@, seed);
    let mut col: usize = 0;
    while col < COLUMNS
        invariant
            ticks@.len() == COLUMNS,
            target == glyphs(pw, ph, ticks@, seed),
            col <= COLUMNS,
            res@ == target.take(6 * col),
        decreases COLUMNS - col,
    {
        let mut row: usize = 0;
        while row < ROWS
            invariant
                ticks@.len() == COLUMNS,
                target == glyphs(pw, ph, ticks@, seed),
                col < COLUMNS,
                row <= ROWS,
                res@ == target.take(6 * col + row),
            decreases ROWS - row,
        {
            let strength = if row == ROWS - 1 {
                Strength::Bright
            } else if row == ROWS - 2 {
                Strength::Medium
            } else {
                Strength::Dim
            };
            let g = Glyph {
                digit: last_digit(ticks[col], col as u64, row as u64, seed),
                x: pw as i64 - 320 + 80 * col as i64,
                y: ph as i64 + 310 - 36 * row as i64,
                strength,
            };
            assert(g == target[6 * col + row]);
            res.push(g);
            assert(res@ =~= target.take(6 * col + row + 1));
            row = row + 1;
        }
        col = col + 1;
    }
    assert(res@ =~= target);
    res
}

/// The counter stands in the middle: it leaves as much room on its left as on its right.
pub proof fn lemma_counter_is_centered(pw: u32, ph: u32, ticks: Seq<u64>, seed: u64, row: int)
    requires
        0 <= row < 6,
    ensures
        glyphs(pw, ph, ticks, seed)[row].x == 2 * pw - (glyphs(pw, ph, ticks, seed)[42 + row].x
            + 80),
{
}

/// There are eight columns, and each has a draw of its own, the seventh after that of the column
/// before it.
pub proof fn lemma_columns_draw_apart(seed: u64, col: int)
    requires
        0 <= col < 8,
    ensures
        columns_drawn(seed).len() == 8,
        columns_drawn(seed)[col] == crate::seed::drawn(seed, (7 * col) as u64),
{
}

/// The counter stands in a grid: the digits of a column are 18 pixels above each other, those of
/// a row 40 pixels beside each other, and the lowest row begins 155 pixels below the middle of the
/// canvas.
pub proof fn lemma_counter_stands_in_a_grid(
    pw: u32,
    ph: u32,
    ticks: Seq<u64>,
    seed: u64,
    col: int,
    row: int,
)
    requires
        0 <= col < 8,
        0 <= row < 6,
    ensures
        ({
            let all = glyphs(pw, ph, ticks, seed);
            let here = all[6 * col + row];
            &&& all.len() == 48
            &&& row < 5 ==> all[6 * col + row + 1].x == here.x && all[6 * col + row + 1].y
                == here.y - 36
            &&& col < 7 ==> all[6 * (col + 1) + row].y == here.y && all[6 * (col + 1) + row].x
                == here.x + 80
            &&& row == 0 ==> here.y == ph + 310
            &&& col == 0 ==> here.x + 320 == pw
        }),
{
}

/// The top row is bright, the one below it medium, and the others are dim.
pub proof fn lemma_counter_fades_downward(
    pw: u32,
    ph: u32,
    ticks: Seq<u64>,
    seed: u64,
    col: int,
    row: int,
)
    requires
        0 <= col < 8,
        0 <= row < 6,
    ensures
        ({
            let strength = glyphs(pw, ph, ticks, seed)[6 * col + row].strength;
            &&& strength == Strength::Bright <==> row == 5
            &&& strength == Strength::Medium <==> row == 4
            &&& strength == Strength::Dim <==> row <= 3
        }),
{
}

/// A digit is a decimal one: that of the ticks of its column, the seed, 31 for each column before
/// its own and 17 for each row below its own, summed up in 64 bits.
pub proof fn lemma_digits_of_the_counter(
    pw: u32,
    ph: u32,
    ticks: Seq<u64>,
    seed: u64,
    col: int,
    row: int,
)
    requires
        0 <= col < 8,
        0 <= row < 6,
    ensures
        ({
            let digit = glyphs(pw, ph, ticks, seed)[6 * col + row].digit;
            let sum = (ticks[col] + seed + 31 * col + 17 * row) % 0x1_0000_0000_0000_0000;
            digit < 10 && (sum - digit) % 10 == 0
        }),
{
    assert((6 * col + row) / 6 == col && (6 * col + row) % 6 == row);
    let sum = (ticks[col] + seed + 31 * col + 17 * row) % 0x1_0000_0000_0000_0000;
    assert(ticks[col] + col * 31 + row * 17 + seed == ticks[col] + seed + 31 * col + 17 * row);
    assert(glyphs(pw, ph, ticks, seed)[6 * col + row].digit == sum % 10);
}

/// What the digits look like: seven rows of five cells, the upper left cell in the highest bit.
pub open spec fn shape(digit: u8) -> u64 {
    if digit == 0 {
        0b01110_10001_10011_10101_11001_10001_01110u64
    } else if digit == 1 {
        0b00100_01100_00100_00100_00100_00100_01110u64
    } else if digit == 2 {
        0b01110_10001_00001_00110_01000_10000_11111u64
    } else if digit == 3 {
        0b11111_00010_00100_00110_00001_10001_01110u64
    } else if digit == 4 {
        0b00010_00110_01010_10010_11111_00010_00010u64
    } else if digit == 5 {
        0b11111_10000_11110_00001_00001_10001_01110u64
    } else if digit == 6 {
        0b00110_01000_10000_11110_10001_10001_01110u64
    } else if digit == 7 {
        0b11111_00001_00010_00100_01000_01000_01000u64
    } else if digit == 8 {
        0b01110_10001_10001_01110_10001_10001_01110u64
    } else {
        0b01110_10001_10001_01111_00001_00010_01100u64
    }
}

proof fn lemma_cell_of_shape(bits: u8, whole: u64, row: u64, col: u64)
    requires
        row < 7,
        col < 5,
        bits == (whole >> ((30 - 5 * row) as u64)) & 31,
    ensures
        (bits & (1u8 << ((4 - col) as u8)) != 0) <==> (whole >> ((34 - 5 * row - col) as u64)) & 1
            == 1,
{
    assert(((((whole >> ((30 - 5 * row) as u64)) & 31) as u8) & (1u8 << ((4 - col) as u8)) != 0)
        <==> (whole >> ((34 - 5 * row - col) as u64)) & 1 == 1) by (bit_vector)
        requires
            row < 7,
            col < 5,
    ;
}

proof fn lemma_row_of_shape(digit: u8, row: int)
    requires
        0 <= row < 7,
    ensures
        row_bits(digit, row) == (shape(digit) >> ((30 - 5 * row) as u64)) & 31,
{
    if digit == 0 {
        assert((0b01110_10001_10011_10101_11001_10001_01110u64 >> 30u64) & 31 == 0b01110
            && (0b01110_10001_10011_10101_11001_10001_01110u64 >> 25u64) & 31 == 0b10001
            && (0b01110_10001_10011_10101_11001_10001_01110u64 >> 20u64) & 31 == 0b10011
            && (0b01110_10001_10011_10101_11001_10001_01110u64 >> 15u64) & 31 == 0b10101
            && (0b01110_10001_10011_10101_11001_10001_01110u64 >> 10u64) & 31 == 0b11001
            && (0b01110_10001_10011_10101_11001_10001_01110u64 >> 5u64) & 31 == 0b10001
            && (0b01110_10001_10011_10101_11001_10001_01110u64 >> 0u64) & 31 == 0b01110) by (bit_vector);
    } else if digit == 1 {
        assert((0b00100_01100_00100_00100_00100_00100_01110u64 >> 30u64) & 31 == 0b00100
            && (0b00100_01100_00100_00100_00100_00100_01110u64 >> 25u64) & 31 == 0b01100
            && (0b00100_01100_00100_00100_00100_00100_01110u64 >> 20u64) & 31 == 0b00100
            && (0b00100_01100_00100_00100_00100_00100_01110u64 >> 15u64) & 31 == 0b00100
            && (0b00100_01100_00100_00100_00100_00100_01110u64 >> 10u64) & 31 == 0b00100
            && (0b00100_01100_00100_00100_00100_00100_01110u64 >> 5u64) & 31 == 0b00100
            && (0b00100_01100_00100_00100_00100_00100_01110u64 >> 0u64) & 31 == 0b01110) by (bit_vector);
    } else if digit == 2 {
        assert((0b01110_10001_00001_00110_01000_10000_11111u64 >> 30u64) & 31 == 0b01110
            && (0b01110_10001_00001_00110_01000_10000_11111u64 >> 25u64) & 31 == 0b10001
            && (0b01110_10001_00001_00110_01000_10000_11111u64 >> 20u64) & 31 == 0b00001
            && (0b01110_10001_00001_00110_01000_10000_11111u64 >> 15u64) & 31 == 0b00110
            && (0b01110_10001_00001_00110_01000_10000_11111u64 >> 10u64) & 31 == 0b01000
            && (0b01110_10001_00001_00110_01000_10000_11111u64 >> 5u64) & 31 == 0b10000
            && (0b01110_10001_00001_00110_01000_10000_11111u64 >> 0u64) & 31 == 0b11111) by (bit_vector);
    } else if digit == 3 {
        assert((0b11111_00010_00100_00110_00001_10001_01110u64 >> 30u64) & 31 == 0b11111
            && (0b11111_00010_00100_00110_00001_10001_01110u64 >> 25u64) & 31 == 0b00010
            && (0b11111_00010_00100_00110_00001_10001_01110u64 >> 20u64) & 31 == 0b00100
            && (0b11111_00010_00100_00110_00001_10001_01110u64 >> 15u64) & 31 == 0b00110
            && (0b11111_00010_00100_00110_00001_10001_01110u64 >> 10u64) & 31 == 0b00001
            && (0b11111_00010_00100_00110_00001_10001_01110u64 >> 5u64) & 31 == 0b10001
            && (0b11111_00010_00100_00110_00001_10001_01110u64 >> 0u64) & 31 == 0b01110) by (bit_vector);
    } else if digit == 4 {
        assert((0b00010_00110_01010_10010_11111_00010_00010u64 >> 30u64) & 31 == 0b00010
            && (0b00010_00110_01010_10010_11111_00010_00010u64 >> 25u64) & 31 == 0b00110
            && (0b00010_00110_01010_10010_11111_00010_00010u64 >> 20u64) & 31 == 0b01010
            && (0b00010_00110_01010_10010_11111_00010_00010u64 >> 15u64) & 31 == 0b10010
            && (0b00010_00110_01010_10010_11111_00010_00010u64 >> 10u64) & 31 == 0b11111
            && (0b00010_00110_01010_10010_11111_00010_00010u64 >> 5u64) & 31 == 0b00010
            && (0b00010_00110_01010_10010_11111_00010_00010u64 >> 0u64) & 31 == 0b00010) by (bit_vector);
    } else if digit == 5 {
        assert((0b11111_10000_11110_00001_00001_10001_01110u64 >> 30u64) & 31 == 0b11111
            && (0b11111_10000_11110_00001_00001_10001_01110u64 >> 25u64) & 31 == 0b10000
            && (0b11111_10000_11110_00001_00001_10001_01110u64 >> 20u64) & 31 == 0b11110
            && (0b11111_10000_11110_00001_00001_10001_01110u64 >> 15u64) & 31 == 0b00001
            && (0b11111_10000_11110_00001_00001_10001_01110u64 >> 10u64) & 31 == 0b00001
            && (0b11111_10000_11110_00001_00001_10001_01110u64 >> 5u64) & 31 == 0b10001
            && (0b11111_10000_11110_00001_00001_10001_01110u64 >> 0u64) & 31 == 0b01110) by (bit_vector);
    } else if digit == 6 {
        assert((0b00110_01000_10000_11110_10001_10001_01110u64 >> 30u64) & 31 == 0b00110
            && (0b00110_01000_10000_11110_10001_10001_01110u64 >> 25u64) & 31 == 0b01000
            && (0b00110_01000_10000_11110_10001_10001_01110u64 >> 20u64) & 31 == 0b10000
            && (0b00110_01000_10000_11110_10001_10001_01110u64 >> 15u64) & 31 == 0b11110
            && (0b00110_01000_10000_11110_10001_10001_01110u64 >> 10u64) & 31 == 0b10001
            && (0b00110_01000_10000_11110_10001_10001_01110u64 >> 5u64) & 31 == 0b10001
            && (0b00110_01000_10000_11110_10001_10001_01110u64 >> 0u64) & 31 == 0b01110) by (bit_vector);
    } else if digit == 7 {
        assert((0b11111_00001_00010_00100_01000_01000_01000u64 >> 30u64) & 31 == 0b11111
            && (0b11111_00001_00010_00100_01000_01000_01000u64 >> 25u64) & 31 == 0b00001
            && (0b11111_00001_00010_00100_01000_01000_01000u64 >> 20u64) & 31 == 0b00010
            && (0b11111_00001_00010_00100_01000_01000_01000u64 >> 15u64) & 31 == 0b00100
            && (0b11111_00001_00010_00100_01000_01000_01000u64 >> 10u64) & 31 == 0b01000
            && (0b11111_00001_00010_00100_01000_01000_01000u64 >> 5u64) & 31 == 0b01000
            && (0b11111_00001_00010_00100_01000_01000_01000u64 >> 0u64) & 31 == 0b01000) by (bit_vector);
    } else if digit == 8 {
        assert((0b01110_10001_10001_01110_10001_10001_01110u64 >> 30u64) & 31 == 0b01110
            && (0b01110_10001_10001_01110_10001_10001_01110u64 >> 25u64) & 31 == 0b10001
            && (0b01110_10001_10001_01110_10001_10001_01110u64 >> 20u64) & 31 == 0b10001
            && (0b01110_10001_10001_01110_10001_10001_01110u64 >> 15u64) & 31 == 0b01110
            && (0b01110_10001_10001_01110_10001_10001_01110u64 >> 10u64) & 31 == 0b10001
            && (0b01110_10001_10001_01110_10001_10001_01110u64 >> 5u64) & 31 == 0b10001
            && (0b01110_10001_10001_01110_10001_10001_01110u64 >> 0u64) & 31 == 0b01110) by (bit_vector);
    } else {
        assert((0b01110_10001_10001_01111_00001_00010_01100u64 >> 30u64) & 31 == 0b01110
            && (0b01110_10001_10001_01111_00001_00010_01100u64 >> 25u64) & 31 == 0b10001
            && (0b01110_10001_10001_01111_00001_00010_01100u64 >> 20u64) & 31 == 0b10001
            && (0b01110_10001_10001_01111_00001_00010_01100u64 >> 15u64) & 31 == 0b01111
            && (0b01110_10001_10001_01111_00001_00010_01100u64 >> 10u64) & 31 == 0b00001
            && (0b01110_10001_10001_01111_00001_00010_01100u64 >> 5u64) & 31 == 0b00010
            && (0b01110_10001_10001_01111_00001_00010_01100u64 >> 0u64) & 31 == 0b01100) by (bit_vector);
    }
}

/// Each digit looks as it should: its lit cells are those of its shape.
pub proof fn lemma_digits_have_their_shapes(digit: u8, row: int, col: int)
    requires
        0 <= row < 7,
        0 <= col < 5,
    ensures
        lit(digit, row, col) <==> (shape(digit) >> ((34 - 5 * row - col) as u64)) & 1 == 1,
{
    lemma_row_of_shape(digit, row);
    lemma_cell_of_shape(row_bits(digit, row), shape(digit), row as u64, col as u64);
}

/// A dot comes before another, row by row from the left.
pub open spec fn comes_before(a: Dot, b: Dot) -> bool {
    a.y < b.y || (a.y == b.y && a.x < b.x)
}

proof fn lemma_dots_so_far(pw: u32, ph: u32, digit: u8, x: i64, y: i64, n: nat)
    requires
        n <= 35,
        x <= i64::MAX - 16,
        y <= i64::MAX - 24,
    ensures
        forall|k: int|
            0 <= k < n ==> (dots(pw, ph, digit, x, y, n).contains(#[trigger] dot(x, y, k)) <==> lit(
                digit,
                k / 5,
                k % 5,
            ) && on_canvas(dot(x, y, k), pw, ph)),
        forall|i: int|
            0 <= i < dots(pw, ph, digit, x, y, n).len() ==> exists|k: int|
                0 <= k < n && #[trigger] dots(pw, ph, digit, x, y, n)[i] == dot(x, y, k),
        forall|i: int, j: int|
            0 <= i < j < dots(pw, ph, digit, x, y, n).len() ==> comes_before(
                #[trigger] dots(pw, ph, digit, x, y, n)[i],
                #[trigger] dots(pw, ph, digit, x, y, n)[j],
            ),
    decreases n,
{
    if n > 0 {
        lemma_dots_so_far(pw, ph, digit, x, y, (n - 1) as nat);
        let before = dots(pw, ph, digit, x, y, (n - 1) as nat);
        let all = dots(pw, ph, digit, x, y, n);
        let last = n - 1;
        let new = lit(digit, last / 5, last % 5) && on_canvas(dot(x, y, last), pw, ph);
        assert forall|i: int| 0 <= i < before.len() implies comes_before(
            #[trigger] before[i],
            dot(x, y, last),
        ) by {
            let k = choose|k: int| 0 <= k < n - 1 && before[i] == dot(x, y, k);
            assert(before[i] == dot(x, y, k));
        }
        assert forall|i: int| 0 <= i < all.len() implies exists|k: int|
            0 <= k < n && #[trigger] all[i] == dot(x, y, k) by {
            if i < before.len() {
                assert(all[i] == before[i]);
                let k = choose|k: int| 0 <= k < n - 1 && before[i] == dot(x, y, k);
                assert(all[i] == dot(x, y, k));
            } else {
                assert(all[i] == dot(x, y, last));
            }
        }
        assert forall|k: int| 0 <= k < n implies (all.contains(#[trigger] dot(x, y, k)) <==> lit(
            digit,
            k / 5,
            k % 5,
        ) && on_canvas(dot(x, y, k), pw, ph)) by {
            let d = dot(x, y, k);
            if new {
                assert(all == before.push(dot(x, y, last)));
                assert(all[before.len() as int] == dot(x, y, last));
            }
            if k < last {
                if before.contains(d) {
                    let i = choose|i: int| 0 <= i < before.len() && before[i] == d;
                    assert(all[i] == d);
                }
                if all.contains(d) {
                    let i = choose|i: int| 0 <= i < all.len() && all[i] == d;
                    assert(comes_before(d, dot(x, y, last)));
                    assert(before[i] == d);
                }
            } else if all.contains(d) && !new {
                let i = choose|i: int| 0 <= i < before.len() && before[i] == d;
                assert(comes_before(before[i], dot(x, y, last)));
            }
        }
    }
}

/// A digit that is not faint shows exactly the lit cells of its shape that begin on the canvas,
/// each as one dot at its own place, 2 pixels from its neighbours, row by row from the left.
pub proof fn lemma_digit_shows_its_shape(
    pw: u32,
    ph: u32,
    digit: u8,
    x: i64,
    y: i64,
    row: int,
    col: int,
)
    requires
        x <= i64::MAX - 16,
        y <= i64::MAX - 24,
        0 <= row < 7,
        0 <= col < 5,
    ensures
        ({
            let all = shown(pw, ph, digit, x, y, false);
            let (px, py) = (x + 4 * col, y + 4 * row);
            &&& all.contains(Dot { x: px as i64, y: py as i64 }) <==> {
                &&& (shape(digit) >> ((34 - 5 * row - col) as u64)) & 1 == 1
                &&& 0 <= px < 2 * pw
                &&& 0 <= py < 2 * ph
            }
            &&& forall|i: int|
                0 <= i < all.len() ==> {
                    let d = #[trigger] all[i];
                    &&& x <= d.x <= x + 16 && (d.x - x) % 4 == 0
                    &&& y <= d.y <= y + 24 && (d.y - y) % 4 == 0
                }
            &&& forall|i: int, j: int|
                0 <= i < j < all.len() ==> {
                    let (a, b) = (#[trigger] all[i], #[trigger] all[j]);
                    a.y < b.y || (a.y == b.y && a.x < b.x)
                }
        }),
{
    let all = shown(pw, ph, digit, x, y, false);
    lemma_dots_so_far(pw, ph, digit, x, y, 35);
    lemma_digits_have_their_shapes(digit, row, col);
    let k = 5 * row + col;
    assert(k / 5 == row && k % 5 == col);
    assert(dot(x, y, k) == (Dot { x: (x + 4 * col) as i64, y: (y + 4 * row) as i64 }));
    assert forall|i: int| 0 <= i < all.len() implies {
        let d = #[trigger] all[i];
        &&& x <= d.x <= x + 16 && (d.x - x) % 4 == 0
        &&& y <= d.y <= y + 24 && (d.y - y) % 4 == 0
    } by {
        let n = choose|n: int| 0 <= n < 35 && all[i] == dot(x, y, n);
        assert(all[i] == dot(x, y, n));
    }
    assert forall|i: int, j: int| 0 <= i < j < all.len() implies {
        let (a, b) = (#[trigger] all[i], #[trigger] all[j]);
        a.y < b.y || (a.y == b.y && a.x < b.x)
    } by {
        assert(comes_before(all[i], all[j]));
    }
}

/// A faint digit shows nothing.
pub proof fn lemma_faint_shows_nothing(pw: u32, ph: u32, digit: u8, x: i64, y: i64)
    ensures
        shown(pw, ph, digit, x, y, true).len() == 0,
{
}

} // verus!
