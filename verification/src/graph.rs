//! Braille plotting. Every cell holds 2 columns x 4 rows of dots, so a graph
//! packs twice the samples and four times the vertical detail of block chars.

use vstd::prelude::*;

verus! {

/// The dots of the left column lit from the bottom up, `k` of them:
/// dot 7 (0x40), then dots 3, 2, 1 (0x04, 0x02, 0x01).
pub open spec fn left_dots(k: nat) -> nat {
    if k == 0 {
        0
    } else if k == 1 {
        0x40
    } else if k == 2 {
        0x44
    } else if k == 3 {
        0x46
    } else {
        0x47
    }
}

/// The same for the right column: dot 8 (0x80), then dots 6, 5, 4
/// (0x20, 0x10, 0x08).
pub open spec fn right_dots(k: nat) -> nat {
    if k == 0 {
        0
    } else if k == 1 {
        0x80
    } else if k == 2 {
        0xA0
    } else if k == 3 {
        0xB0
    } else {
        0xB8
    }
}

pub open spec fn at_most_4(k: nat) -> nat {
    if k < 4 {
        k
    } else {
        4
    }
}

/// The braille cell with `left` dots lit in its left column and `right` in
/// its right one, counted from the bottom (four at most).
pub open spec fn braille_cell(left: nat, right: nat) -> char {
    (0x2800 + left_dots(at_most_4(left)) + right_dots(at_most_4(right))) as char
}

/// `char::from_u32`: the char with code point `i` when `i` is a Unicode scalar
/// value (below 0xD800, or from 0xE000 to 0x10FFFF), else `None`.
#[verifier::external_body]
fn char_from_u32(i: u32) -> (r: Option<char>)
    ensures
        (i < 0xD800 || (0xE000 <= i && i <= 0x10FFFF)) ==> r == Some(i as char),
        !(i < 0xD800 || (0xE000 <= i && i <= 0x10FFFF)) ==> r is None,
{
    char::from_u32(i)
}

fn left_mask(k: u8) -> (m: u32)
    ensures
        m == left_dots(at_most_4(k as nat)),
{
    if k == 0 {
        0
    } else if k == 1 {
        0x40
    } else if k == 2 {
        0x44
    } else if k == 3 {
        0x46
    } else {
        0x47
    }
}

fn right_mask(k: u8) -> (m: u32)
    ensures
        m == right_dots(at_most_4(k as nat)),
{
    if k == 0 {
        0
    } else if k == 1 {
        0x80
    } else if k == 2 {
        0xA0
    } else if k == 3 {
        0xB0
    } else {
        0xB8
    }
}

/// The braille cell with `left` and `right` dots lit from the bottom.
pub fn braille(left: u8, right: u8) -> (c: char)
    ensures
        c == braille_cell(left as nat, right as nat),
{
    let mask = left_mask(left) + right_mask(right);
    match char_from_u32(0x2800 + mask) {
        Some(c) => c,
        None => '\u{2800}',
    }
}

// ---- two waveforms in one chart ----------------------------------------------

/// Which series paints a cell of the chart.
#[derive(Clone, Copy, Debug, PartialEq, Eq, Structural)]
pub enum Layer {
    /// The front series reaches the cell.
    Front,
    /// Only the series behind it does.
    Back,
    /// Neither: a zero line, the dotted rule, or blank.
    Faint,
}

/// The dot height at column `i` of a series; past its end, none.
pub open spec fn level_at(levels: Seq<u8>, i: int) -> nat {
    if 0 <= i < levels.len() {
        levels[i] as nat
    } else {
        0
    }
}

/// The dots of a height that land above `floor`.
pub open spec fn above(l: nat, floor: nat) -> nat {
    if l > floor {
        (l - floor) as nat
    } else {
        0
    }
}

pub open spec fn larger(a: nat, b: nat) -> nat {
    if a >= b {
        a
    } else {
        b
    }
}

/// The row of the dotted rule in a chart `rows` tall: `rows - 1` less half
/// of it, rounded half up.
pub open spec fn midline_of(rows: nat) -> nat {
    (rows - 1 - rows / 2) as nat
}

/// Cell `col` of chart row `row` (0 at the top) in a chart `rows` tall: the
/// union of both series' dots in that cell, painted in front wherever the
/// front series reaches it; an empty cell shows the zero line on the bottom
/// row, the rule on the middle one, and nothing elsewhere.
pub open spec fn wave_cell(front: Seq<u8>, back: Seq<u8>, rows: nat, row: nat, col: nat) -> (char, Layer) {
    let floor = ((rows - 1 - row) * 4) as nat;
    let fl = above(level_at(front, 2 * col as int), floor);
    let fr = above(level_at(front, 2 * col as int + 1), floor);
    let bl = above(level_at(back, 2 * col as int), floor);
    let br = above(level_at(back, 2 * col as int + 1), floor);
    let ch = braille_cell(larger(fl, bl), larger(fr, br));
    if ch != '\u{2800}' {
        (ch, if fl > 0 || fr > 0 { Layer::Front } else { Layer::Back })
    } else if row == rows - 1 {
        ('⣀', Layer::Faint)
    } else if row == midline_of(rows) {
        ('⠒', Layer::Faint)
    } else {
        (' ', Layer::Faint)
    }
}

fn level_of(levels: &Vec<u8>, i: usize) -> (l: u8)
    ensures
        l as nat == level_at(levels@, i as int),
{
    if i < levels.len() {
        levels[i]
    } else {
        0
    }
}

fn above_floor(l: u8, floor: u8) -> (r: u8)
    ensures
        r as nat == above(l as nat, floor as nat),
{
    if l > floor {
        l - floor
    } else {
        0
    }
}

fn larger_of(a: u8, b: u8) -> (r: u8)
    ensures
        r as nat == larger(a as nat, b as nat),
{
    if a >= b {
        a
    } else {
        b
    }
}

/// One row of a chart with `front` drawn over `back`, both given as dot
/// heights, two per cell; `width` cells wide.
pub fn wave_row(front: &Vec<u8>, back: &Vec<u8>, width: u16, rows: u16, row: u16) -> (r: Vec<(char, Layer)>)
    requires
        1 <= rows <= 64,
        row < rows,
    ensures
        r@.len() == width,
        forall|c: int| 0 <= c < width ==> #[trigger] r@[c] == wave_cell(front@, back@, rows as nat, row as nat, c as nat),
{
    let floor: u8 = ((rows - 1 - row) as u8) * 4;
    let bottom = row == rows - 1;
    let ruled = row == rows - 1 - rows / 2;
    let mut out: Vec<(char, Layer)> = Vec::new();
    let mut col: u16 = 0;
    while col < width
        invariant
            col <= width,
            1 <= rows <= 64,
            row < rows,
            floor as nat == (rows - 1 - row) * 4,
            bottom == (row == rows - 1),
            ruled == (row as nat == midline_of(rows as nat)),
            out@.len() == col,
            forall|c: int| 0 <= c < col ==> #[trigger] out@[c] == wave_cell(front@, back@, rows as nat, row as nat, c as nat),
        decreases width - col,
    {
        let i = col as usize * 2;
        let fl = above_floor(level_of(front, i), floor);
        let fr = above_floor(level_of(front, i + 1), floor);
        let bl = above_floor(level_of(back, i), floor);
        let br = above_floor(level_of(back, i + 1), floor);
        let ch = braille(larger_of(fl, bl), larger_of(fr, br));
        let cell = if ch != '\u{2800}' {
            (ch, if fl > 0 || fr > 0 { Layer::Front } else { Layer::Back })
        } else if bottom {
            ('⣀', Layer::Faint)
        } else if ruled {
            ('⠒', Layer::Faint)
        } else {
            (' ', Layer::Faint)
        };
        out.push(cell);
        col += 1;
    }
    out
}

} // verus!
