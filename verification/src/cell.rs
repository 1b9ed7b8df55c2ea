//! Terminal cells and the color-to-character quantizer: a fixed ramp of
//! glyphs ordered by ink density, and the decomposition of one source color
//! into a glyph plus a foreground/background pair.

use vstd::arithmetic::div_mod::lemma_div_is_ordered;
use vstd::prelude::*;

use crate::color::Color;
use crate::term::{push_sgr_color, sgr_color, string_from_chars};

verus! {

/// One terminal character position's rendered content: a glyph with a
/// foreground and a background color. Equality is structural and exact; the
/// diff engine rests on it.
#[derive(Clone, Copy, Debug, PartialEq, Eq, Structural)]
pub struct Cell {
    pub glyph: char,
    pub fg: Color,
    pub bg: Color,
}

/// The fixed glyph ramp, ordered from sparse to dense ink.
pub open spec fn ramp() -> Seq<char> {
    seq!['`', '\'', '~', '!', ',', '-', '"', ':', '|', '\\', ';', '/', '(', '<', '>', ')', ']', '+', '[', '{', '}', 'i', '7', '3', '1', 't', '2', 's', 'y', '*', 'u', 'r', '5', 'o', '=', 'd', 'e', 'a', '4', '9', 'p', '6', 'q', '&', '8', 'w', '€', '¥', '0', '$', '%', '@', '#']
}

/// The ramp slot for a brightness weight given as its numerator over 765:
/// the weight mapped linearly onto the ramp's index range.
pub open spec fn ramp_index(sum: int) -> int {
    sum * 52 / 765
}

/// The cell quantized from one source color: the ramp glyph picked by the
/// color's brightness weight, over the decomposition's two reference colors.
pub open spec fn from_color_spec(color: Color) -> Cell {
    Cell {
        glyph: ramp()[ramp_index(color.channel_sum())],
        fg: color.blockify_spec(16),
        bg: color.blockify_spec(16).shift_spec(Color::black_spec(), 700),
    }
}

/// The escape text that paints one cell: foreground code, background code,
/// then the glyph itself.
pub open spec fn render_spec(cell: Cell) -> Seq<char> {
    sgr_color(38, cell.fg) + sgr_color(48, cell.bg) + seq![cell.glyph]
}

/// The ramp glyph at `i`.
pub fn ramp_char(i: usize) -> (c: char)
    requires
        i < 53,
    ensures
        c == ramp()[i as int],
{
    match i {
        0 => '`',
        1 => '\'',
        2 => '~',
        3 => '!',
        4 => ',',
        5 => '-',
        6 => '"',
        7 => ':',
        8 => '|',
        9 => '\\',
        10 => ';',
        11 => '/',
        12 => '(',
        13 => '<',
        14 => '>',
        15 => ')',
        16 => ']',
        17 => '+',
        18 => '[',
        19 => '{',
        20 => '}',
        21 => 'i',
        22 => '7',
        23 => '3',
        24 => '1',
        25 => 't',
        26 => '2',
        27 => 's',
        28 => 'y',
        29 => '*',
        30 => 'u',
        31 => 'r',
        32 => '5',
        33 => 'o',
        34 => '=',
        35 => 'd',
        36 => 'e',
        37 => 'a',
        38 => '4',
        39 => '9',
        40 => 'p',
        41 => '6',
        42 => 'q',
        43 => '&',
        44 => '8',
        45 => 'w',
        46 => '€',
        47 => '¥',
        48 => '0',
        49 => '$',
        50 => '%',
        51 => '@',
        _ => '#',
    }
}

impl Cell {
    pub fn new(glyph: char, fg: Color, bg: Color) -> (c: Cell)
        ensures
            c == (Cell { glyph, fg, bg }),
    {
        Cell { glyph, fg, bg }
    }

    /// Quantizes a color into a cell: decompose the color into two reference
    /// colors and a brightness weight, then pick the ramp glyph the weight
    /// maps to. Identical colors always yield identical cells.
    pub fn from_color(color: Color) -> (cell: Cell)
        ensures
            cell == from_color_spec(color),
    {
        let (fg, bg, weight) = color.decompose();
        proof {
            lemma_ramp_index_bounds(color.channel_sum());
        }
        let idx: usize = ((weight as u32 * 52) / 765) as usize;
        let glyph = ramp_char(idx);
        Cell { glyph, fg, bg }
    }

    /// The escape text that paints this cell: SGR true-color foreground and
    /// background codes followed by the glyph.
    pub fn render(&self) -> (s: String)
        ensures
            s@ == render_spec(*self),
    {
        let mut out: Vec<char> = Vec::new();
        push_sgr_color(&mut out, 38, self.fg);
        push_sgr_color(&mut out, 48, self.bg);
        out.push(self.glyph);
        proof {
            assert(out@ =~= render_spec(*self));
        }
        string_from_chars(&out)
    }
}

/// A brightness weight numerator over 765 maps into the ramp's index range.
pub proof fn lemma_ramp_index_bounds(sum: int)
    requires
        0 <= sum <= 765,
    ensures
        0 <= ramp_index(sum) <= 52,
{
    lemma_div_is_ordered(0, sum * 52, 765);
    lemma_div_is_ordered(sum * 52, (765 * 52) as int, 765);
}

/// The ramp slot is monotone in brightness: a color at least as bright as
/// another is never assigned an earlier (sparser) ramp slot.
pub proof fn lemma_ramp_index_monotone(a: Color, b: Color)
    requires
        a.channel_sum() <= b.channel_sum(),
    ensures
        ramp_index(a.channel_sum()) <= ramp_index(b.channel_sum()),
{
    lemma_div_is_ordered(a.channel_sum() * 52, b.channel_sum() * 52, 765);
}

} // verus!
