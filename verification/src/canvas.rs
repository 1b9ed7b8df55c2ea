//! The canvas: a 2D grid of cells, a queue of pending renderables, and a
//! retained snapshot of the previously displayed grid. Owns the compositing
//! pipeline (apply each renderable in queue order) and the diff/emit
//! pipeline (emit only the cells that changed since the last frame).

use vstd::prelude::*;

use crate::cell::{from_color_spec, render_spec, Cell};
use crate::color::Color;
use crate::geometry::{Circle, DialogBox, Rectangle};
use crate::term::{
    csi, goto_seq, push_goto, push_sgr_color, push_sgr_reset, sgr_color, sgr_reset,
    string_from_chars,
};

verus! {

/// The mathematical value of a grid of cells: a sequence of rows.
pub open spec fn gview(rows: Seq<Vec<Cell>>) -> Seq<Seq<Cell>> {
    rows.map_values(|r: Vec<Cell>| r@)
}

/// A rectangular `h` by `w` grid.
pub open spec fn grid_wf(g: Seq<Seq<Cell>>, w: int, h: int) -> bool {
    &&& g.len() == h
    &&& forall|y: int| 0 <= y < h ==> (#[trigger] g[y]).len() == w
}

/// One cell painted over by a translucent rectangle: the paint glyph
/// replaces the glyph outright, while both colors are blended toward the
/// paint cell's colors at the given power.
pub open spec fn blend_cell(orig: Cell, paint: Cell, alpha: int) -> Cell {
    Cell {
        glyph: paint.glyph,
        fg: orig.fg.shift_spec(paint.fg, alpha),
        bg: orig.bg.shift_spec(paint.bg, alpha),
    }
}

/// The grid with the axis-aligned rectangle `[lx, lx+sx) x [ly, ly+sy)`
/// blended over it; cells outside the grid are clipped away silently.
pub open spec fn apply_rect(
    g: Seq<Seq<Cell>>,
    lx: int,
    ly: int,
    sx: int,
    sy: int,
    paint: Cell,
    alpha: int,
) -> Seq<Seq<Cell>> {
    Seq::new(
        g.len(),
        |y: int|
            Seq::new(
                g[y].len(),
                |x: int|
                    if lx <= x < lx + sx && ly <= y < ly + sy {
                        blend_cell(g[y][x], paint, alpha)
                    } else {
                        g[y][x]
                    },
            ),
    )
}

/// The grid with every cell the circle covers replaced outright by the
/// paint cell.
pub open spec fn apply_circle(g: Seq<Seq<Cell>>, circle: Circle, paint: Cell) -> Seq<Seq<Cell>> {
    Seq::new(
        g.len(),
        |y: int|
            Seq::new(
                g[y].len(),
                |x: int|
                    if circle.covers_spec(x, y) {
                        paint
                    } else {
                        g[y][x]
                    },
            ),
    )
}

/// The grid with the cell at `(x, y)` replaced, or unchanged when the
/// position lies outside the grid.
pub open spec fn set_cell(g: Seq<Seq<Cell>>, x: int, y: int, c: Cell) -> Seq<Seq<Cell>> {
    if 0 <= y < g.len() && 0 <= x < g[y].len() {
        g.update(y, g[y].update(x, c))
    } else {
        g
    }
}

/// The grid with the cell at `(x, y)` given a new glyph and foreground
/// while keeping its background, or unchanged when the position lies
/// outside the grid.
pub open spec fn set_glyph_fg(g: Seq<Seq<Cell>>, x: int, y: int, glyph: char, fg: Color) -> Seq<
    Seq<Cell>,
> {
    if 0 <= y < g.len() && 0 <= x < g[y].len() {
        g.update(y, g[y].update(x, Cell { glyph, fg, bg: g[y][x].bg }))
    } else {
        g
    }
}

/// Dialog text laid into the grid: one column per character starting at
/// `(x, y)`, a line feed wrapping to the next row at column `reset_x`;
/// characters landing outside the grid are skipped.
pub open spec fn lay_text(
    g: Seq<Seq<Cell>>,
    text: Seq<char>,
    x: int,
    y: int,
    reset_x: int,
    color: Color,
) -> Seq<Seq<Cell>>
    decreases text.len(),
{
    if text.len() == 0 {
        g
    } else if text[0] == '\n' {
        lay_text(g, text.skip(1), reset_x, y + 1, reset_x, color)
    } else {
        lay_text(set_glyph_fg(g, x, y, text[0], color), text.skip(1), x + 1, y, reset_x, color)
    }
}

/// Integer division by two truncated toward zero, as the float-derived
/// centering arithmetic truncates.
pub open spec fn div2_trunc(n: int) -> int {
    if n >= 0 {
        n / 2
    } else {
        -((-n) / 2)
    }
}

/// The cell that fills a dialog panel: the quantization of near-black.
pub open spec fn dialog_fill_cell() -> Cell {
    from_color_spec(Color::black_spec())
}

/// The cell a dialog's horizontal border is painted with.
pub open spec fn dialog_hline_cell() -> Cell {
    Cell { glyph: '─', fg: Color::white_spec(), bg: dialog_fill_cell().bg }
}

/// The cell a dialog's vertical border is painted with.
pub open spec fn dialog_vline_cell() -> Cell {
    Cell { glyph: '│', fg: Color::white_spec(), bg: dialog_fill_cell().bg }
}

/// A dialog corner cell with the given box-drawing glyph.
pub open spec fn dialog_corner_cell(glyph: char) -> Cell {
    Cell { glyph, fg: Color::white_spec(), bg: Color::black_spec() }
}

/// A dialog box composited over a grid of the given width: a centered
/// translucent panel, four border lines and corner glyphs, then the text
/// laid into the interior.
pub open spec fn apply_dialog(g: Seq<Seq<Cell>>, d: DialogBox, w: int) -> Seq<Seq<Cell>> {
    let bw = d.width + d.x_pad;
    let bh = d.height + d.y_pad;
    let pos = d.position as int;
    let x0 = div2_trunc(w - d.width);
    let xl = x0 - 1;
    let xr = div2_trunc(w + bw) + 1;
    let g1 = apply_rect(g, x0, pos, bw, bh, dialog_fill_cell(), 700);
    let g2 = set_cell(g1, xl, pos - 1, dialog_corner_cell('╭'));
    let g3 = set_cell(g2, xl, pos + bh, dialog_corner_cell('╰'));
    let g4 = apply_rect(g3, xl, pos, 1, bh, dialog_vline_cell(), 1000);
    let g5 = set_cell(g4, xr, pos - 1, dialog_corner_cell('╮'));
    let g6 = set_cell(g5, xr, pos + bh, dialog_corner_cell('╯'));
    let g7 = apply_rect(g6, xr, pos, 1, bh, dialog_vline_cell(), 1000);
    let g8 = apply_rect(g7, x0, pos - 1, bw, 1, dialog_hline_cell(), 900);
    let g9 = apply_rect(g8, x0, pos + bh, bw, 1, dialog_hline_cell(), 900);
    lay_text(g9, d.text@, x0 + d.x_pad, pos + d.y_pad, x0 + d.x_pad, d.text_color)
}

/// One queued paint operation: a shape plus the paint parameters.
#[derive(Clone, Debug)]
pub enum Renderable {
    DialogBox(DialogBox),
    Rectangle(Rectangle, Cell, u16),
    Circle(Circle, Cell),
}

impl Renderable {
    /// A renderable's blend power is a fraction of one, in thousandths.
    pub open spec fn wf(self) -> bool {
        match self {
            Renderable::Rectangle(_, _, alpha) => alpha <= 1000,
            _ => true,
        }
    }
}

/// The grid a renderable paints over the given grid of width `w`.
pub open spec fn apply_renderable(g: Seq<Seq<Cell>>, r: Renderable, w: int) -> Seq<Seq<Cell>> {
    match r {
        Renderable::DialogBox(d) => apply_dialog(g, d, w),
        Renderable::Rectangle(rect, paint, alpha) => apply_rect(
            g,
            rect.position.x as int,
            rect.position.y as int,
            rect.size.x as int,
            rect.size.y as int,
            paint,
            alpha as int,
        ),
        Renderable::Circle(circle, paint) => apply_circle(g, circle, paint),
    }
}

/// The grid after every queued renderable has painted, in queue order.
pub open spec fn composite_spec(g: Seq<Seq<Cell>>, rs: Seq<Renderable>, w: int) -> Seq<Seq<Cell>>
    decreases rs.len(),
{
    if rs.len() == 0 {
        g
    } else {
        apply_renderable(composite_spec(g, rs.drop_last(), w), rs.last(), w)
    }
}

/// An element-for-element copy of a grid.
fn copy_grid(g: &Vec<Vec<Cell>>) -> (r: Vec<Vec<Cell>>)
    ensures
        gview(r@) == gview(g@),
{
    let mut rows: Vec<Vec<Cell>> = Vec::new();
    let mut y: usize = 0;
    while y < g.len()
        invariant
            y <= g@.len(),
            rows@.len() == y,
            forall|i: int| 0 <= i < y ==> (#[trigger] rows@[i])@ == g@[i]@,
        decreases g@.len() - y,
    {
        let src = &g[y];
        let mut row: Vec<Cell> = Vec::new();
        let mut x: usize = 0;
        while x < src.len()
            invariant
                x <= src@.len(),
                row@.len() == x,
                forall|j: int| 0 <= j < x ==> row@[j] == src@[j],
            decreases src@.len() - x,
        {
            row.push(src[x]);
            x = x + 1;
        }
        assert(row@ =~= src@);
        rows.push(row);
        y = y + 1;
    }
    assert(gview(rows@) =~~= gview(g@));
    rows
}

/// Paints the rectangle `[lx, lx+sx) x [ly, ly+sy)` over the grid, blending
/// colors at the given power and replacing glyphs; out-of-range coordinates
/// are clipped, never an error.
fn paint_rect(g: &Vec<Vec<Cell>>, lx: i64, ly: i64, sx: i64, sy: i64, paint: Cell, alpha: u16) -> (r:
    Vec<Vec<Cell>>)
    requires
        alpha <= 1000,
        -0x1_0000_0000_0000 <= lx <= 0x1_0000_0000_0000,
        -0x1_0000_0000_0000 <= ly <= 0x1_0000_0000_0000,
        -0x1_0000_0000_0000 <= sx <= 0x1_0000_0000_0000,
        -0x1_0000_0000_0000 <= sy <= 0x1_0000_0000_0000,
        gview(g@).len() <= 0xFFFF,
        forall|y: int| 0 <= y < gview(g@).len() ==> (#[trigger] gview(g@)[y]).len() <= 0xFFFF,
    ensures
        gview(r@) == apply_rect(gview(g@), lx as int, ly as int, sx as int, sy as int, paint, alpha as int),
{
    let ghost target = apply_rect(gview(g@), lx as int, ly as int, sx as int, sy as int, paint, alpha as int);
    let mut rows: Vec<Vec<Cell>> = Vec::new();
    let mut y: usize = 0;
    while y < g.len()
        invariant
            y <= g@.len(),
            rows@.len() == y,
            forall|i: int| 0 <= i < y ==> (#[trigger] rows@[i])@ == target[i],
            alpha <= 1000,
            -0x1_0000_0000_0000 <= lx <= 0x1_0000_0000_0000,
            -0x1_0000_0000_0000 <= ly <= 0x1_0000_0000_0000,
            -0x1_0000_0000_0000 <= sx <= 0x1_0000_0000_0000,
            -0x1_0000_0000_0000 <= sy <= 0x1_0000_0000_0000,
            g@.len() <= 0xFFFF,
            forall|yy: int| 0 <= yy < gview(g@).len() ==> (#[trigger] gview(g@)[yy]).len() <= 0xFFFF,
            target == apply_rect(gview(g@), lx as int, ly as int, sx as int, sy as int, paint, alpha as int),
        decreases g@.len() - y,
    {
        let src = &g[y];
        proof {
            assert(gview(g@)[y as int] == g@[y as int]@);
        }
        let in_y = ly <= y as i64 && (y as i64) < ly + sy;
        let mut row: Vec<Cell> = Vec::new();
        let mut x: usize = 0;
        while x < src.len()
            invariant
                x <= src@.len(),
                row@.len() == x,
                src@ == g@[y as int]@,
                y < g@.len(),
                forall|j: int| 0 <= j < x ==> row@[j] == target[y as int][j],
                in_y == (ly <= y < ly + sy),
                alpha <= 1000,
                -0x1_0000_0000_0000 <= lx <= 0x1_0000_0000_0000,
                -0x1_0000_0000_0000 <= sx <= 0x1_0000_0000_0000,
                src@.len() <= 0xFFFF,
                target == apply_rect(gview(g@), lx as int, ly as int, sx as int, sy as int, paint, alpha as int),
            decreases src@.len() - x,
        {
            let cell = src[x];
            let painted = if in_y && lx <= x as i64 && (x as i64) < lx + sx {
                Cell {
                    glyph: paint.glyph,
                    fg: cell.fg.shift(paint.fg, alpha),
                    bg: cell.bg.shift(paint.bg, alpha),
                }
            } else {
                cell
            };
            proof {
                assert(gview(g@)[y as int] == g@[y as int]@);
                assert(target[y as int][x as int] == (if lx <= x < lx + sx && ly <= y < ly + sy {
                    blend_cell(gview(g@)[y as int][x as int], paint, alpha as int)
                } else {
                    gview(g@)[y as int][x as int]
                }));
            }
            row.push(painted);
            x = x + 1;
        }
        assert(row@ =~= target[y as int]);
        rows.push(row);
        y = y + 1;
    }
    assert(gview(rows@) =~~= target);
    rows
}

/// Replaces every grid cell the circle covers with the paint cell;
/// out-of-range coordinates are clipped, never an error.
fn paint_circle(g: &Vec<Vec<Cell>>, circle: Circle, paint: Cell) -> (r: Vec<Vec<Cell>>)
    requires
        gview(g@).len() <= 0xFFFF,
        forall|y: int| 0 <= y < gview(g@).len() ==> (#[trigger] gview(g@)[y]).len() <= 0xFFFF,
    ensures
        gview(r@) == apply_circle(gview(g@), circle, paint),
{
    let ghost target = apply_circle(gview(g@), circle, paint);
    let mut rows: Vec<Vec<Cell>> = Vec::new();
    let mut y: usize = 0;
    while y < g.len()
        invariant
            y <= g@.len(),
            rows@.len() == y,
            forall|i: int| 0 <= i < y ==> (#[trigger] rows@[i])@ == target[i],
            g@.len() <= 0xFFFF,
            forall|yy: int| 0 <= yy < gview(g@).len() ==> (#[trigger] gview(g@)[yy]).len() <= 0xFFFF,
            target == apply_circle(gview(g@), circle, paint),
        decreases g@.len() - y,
    {
        let src = &g[y];
        proof {
            assert(gview(g@)[y as int] == g@[y as int]@);
        }
        let mut row: Vec<Cell> = Vec::new();
        let mut x: usize = 0;
        while x < src.len()
            invariant
                x <= src@.len(),
                row@.len() == x,
                src@ == g@[y as int]@,
                y < g@.len(),
                y <= 0xFFFF,
                src@.len() <= 0xFFFF,
                forall|j: int| 0 <= j < x ==> row@[j] == target[y as int][j],
                target == apply_circle(gview(g@), circle, paint),
            decreases src@.len() - x,
        {
            let cell = src[x];
            let painted = if circle.covers(x, y) {
                paint
            } else {
                cell
            };
            proof {
                assert(gview(g@)[y as int] == g@[y as int]@);
            }
            row.push(painted);
            x = x + 1;
        }
        assert(row@ =~= target[y as int]);
        rows.push(row);
        y = y + 1;
    }
    assert(gview(rows@) =~~= target);
    rows
}

/// Replaces the cell at `(x, y)`, skipping positions outside the grid.
fn put_cell(g: &mut Vec<Vec<Cell>>, x: i64, y: i64, c: Cell)
    ensures
        gview(final(g)@) == set_cell(gview(old(g)@), x as int, y as int, c),
{
    let ghost target = set_cell(gview(old(g)@), x as int, y as int, c);
    if 0 <= y && (y as u64) < (g.len() as u64) {
        let yy = y as usize;
        let row_len = g[yy].len();
        if 0 <= x && (x as u64) < (row_len as u64) {
            let xx = x as usize;
            proof {
                assert(gview(g@)[yy as int] == g@[yy as int]@);
            }
            g[yy][xx] = c;
            assert(gview(g@) =~~= target);
            return ;
        }
    }
    assert(gview(g@) =~~= target);
}

/// Gives the cell at `(x, y)` a new glyph and foreground, keeping its
/// background; positions outside the grid are skipped.
fn put_glyph_fg(g: &mut Vec<Vec<Cell>>, x: i128, y: i128, glyph: char, fg: Color)
    ensures
        gview(final(g)@) == set_glyph_fg(gview(old(g)@), x as int, y as int, glyph, fg),
{
    let ghost target = set_glyph_fg(gview(old(g)@), x as int, y as int, glyph, fg);
    if 0 <= y && y < g.len() as i128 {
        let yy = y as usize;
        let row_len = g[yy].len();
        if 0 <= x && x < row_len as i128 {
            let xx = x as usize;
            proof {
                assert(gview(g@)[yy as int] == g@[yy as int]@);
            }
            let bg = g[yy][xx].bg;
            g[yy][xx] = Cell { glyph, fg, bg };
            assert(gview(g@) =~~= target);
            return ;
        }
    }
    assert(gview(g@) =~~= target);
}

/// Lays dialog text into the grid, mirroring [`lay_text`]: one column per
/// character, line feeds wrapping to the next row at `reset_x`, characters
/// outside the grid skipped.
fn lay_text_exec(g: &mut Vec<Vec<Cell>>, text: &Vec<char>, x0: i128, y0: i128, reset_x: i128, color: Color)
    requires
        -0x1_0000_0000_0000 <= x0 <= 0x1_0000_0000_0000,
        -0x1_0000_0000_0000 <= y0 <= 0x1_0000_0000_0000,
        -0x1_0000_0000_0000 <= reset_x <= 0x1_0000_0000_0000,
    ensures
        gview(final(g)@) == lay_text(gview(old(g)@), text@, x0 as int, y0 as int, reset_x as int, color),
{
    let ghost target = lay_text(gview(old(g)@), text@, x0 as int, y0 as int, reset_x as int, color);
    let mut x: i128 = x0;
    let mut y: i128 = y0;
    let mut i: usize = 0;
    proof {
        assert(text@.skip(0) =~= text@);
    }
    while i < text.len()
        invariant
            i <= text@.len(),
            -0x1_0000_0000_0000 <= x <= 0x1_0000_0000_0000 + i,
            -0x1_0000_0000_0000 <= y0 <= 0x1_0000_0000_0000,
            y0 <= y <= y0 + i,
            -0x1_0000_0000_0000 <= reset_x <= 0x1_0000_0000_0000,
            lay_text(gview(g@), text@.skip(i as int), x as int, y as int, reset_x as int, color)
                == target,
        decreases text@.len() - i,
    {
        let c = text[i];
        proof {
            assert(text@.skip(i as int)[0] == text@[i as int]);
            assert(text@.skip(i as int).skip(1) =~= text@.skip(i + 1));
        }
        if c == '\n' {
            y = y + 1;
            x = reset_x;
        } else {
            put_glyph_fg(g, x, y, c, color);
            x = x + 1;
        }
        i = i + 1;
    }
    proof {
        assert(text@.skip(text@.len() as int) =~= Seq::<char>::empty());
    }
}

/// Integer division by two truncated toward zero.
fn half_trunc(n: i64) -> (r: i64)
    requires
        -0x10_0000_0000 <= n <= 0x10_0000_0000,
    ensures
        r == div2_trunc(n as int),
{
    if n >= 0 {
        ((n as u64) / 2) as i64
    } else {
        -((((-n) as u64) / 2) as i64)
    }
}

/// A 2D grid of cells, the queue of renderables pending for the next frame,
/// and the retained snapshot of the previously displayed grid (absent only
/// before the first display).
pub struct Canvas {
    cells: Vec<Vec<Cell>>,
    pending: Vec<Renderable>,
    previous: Option<Vec<Vec<Cell>>>,
}

impl Canvas {
    /// The grid as a sequence of rows of cells.
    pub closed spec fn grid(self) -> Seq<Seq<Cell>> {
        gview(self.cells@)
    }

    pub open spec fn height_spec(self) -> int {
        self.grid().len() as int
    }

    pub open spec fn width_spec(self) -> int {
        if self.grid().len() == 0 {
            0
        } else {
            self.grid()[0].len() as int
        }
    }

    /// The queue of paint operations pending for the next frame.
    pub closed spec fn pending_spec(self) -> Seq<Renderable> {
        self.pending@
    }

    /// The snapshot of the grid as it was last displayed, if any frame has
    /// been displayed yet.
    pub closed spec fn prev_grid(self) -> Option<Seq<Seq<Cell>>> {
        match self.previous {
            Some(p) => Some(gview(p@)),
            None => None,
        }
    }

    /// Well-formedness: the grid is rectangular with dimensions a terminal
    /// cursor position can address, any snapshot has the same shape, and
    /// every queued renderable carries a valid blend power.
    pub open spec fn wf(self) -> bool {
        &&& self.height_spec() <= 0xFFFF
        &&& self.width_spec() <= 0xFFFF
        &&& grid_wf(self.grid(), self.width_spec(), self.height_spec())
        &&& match self.prev_grid() {
            Some(p) => grid_wf(p, self.width_spec(), self.height_spec()),
            None => true,
        }
        &&& forall|i: int| 0 <= i < self.pending_spec().len() ==> (#[trigger] self.pending_spec()[i]).wf()
    }

    /// The uniform grid a fresh canvas starts from: every cell is the
    /// quantization of pure black.
    pub open spec fn base_grid(width: int, height: int) -> Seq<Seq<Cell>> {
        Seq::new(
            height as nat,
            |y: int| Seq::new(width as nat, |x: int| from_color_spec(Color { red: 0, green: 0, blue: 0 })),
        )
    }

    /// A canvas of the given dimensions, filled with the quantization of
    /// pure black, with an empty queue and no snapshot.
    pub fn new(width: usize, height: usize) -> (c: Canvas)
        requires
            width <= 0xFFFF,
            height <= 0xFFFF,
        ensures
            c.wf(),
            c.grid() == Canvas::base_grid(width as int, height as int),
            c.pending_spec().len() == 0,
            c.prev_grid() is None,
    {
        let cell = Cell::from_color(Color::new(0, 0, 0));
        let mut rows: Vec<Vec<Cell>> = Vec::new();
        let mut y: usize = 0;
        while y < height
            invariant
                y <= height,
                rows@.len() == y,
                forall|i: int| 0 <= i < y ==> (#[trigger] rows@[i])@ == Canvas::base_grid(
                    width as int,
                    height as int,
                )[i],
                cell == from_color_spec(Color { red: 0, green: 0, blue: 0 }),
            decreases height - y,
        {
            let mut row: Vec<Cell> = Vec::new();
            let mut x: usize = 0;
            while x < width
                invariant
                    x <= width,
                    row@.len() == x,
                    forall|j: int| 0 <= j < x ==> row@[j] == cell,
                    cell == from_color_spec(Color { red: 0, green: 0, blue: 0 }),
                decreases width - x,
            {
                row.push(cell);
                x = x + 1;
            }
            assert(row@ =~= Canvas::base_grid(width as int, height as int)[y as int]);
            rows.push(row);
            y = y + 1;
        }
        let c = Canvas { cells: rows, pending: Vec::new(), previous: None };
        assert(c.grid() =~~= Canvas::base_grid(width as int, height as int));
        c
    }

    /// A canvas over an already-built rectangular grid of cells, with an
    /// empty queue and no snapshot.
    pub fn from_cells(cells: Vec<Vec<Cell>>) -> (c: Canvas)
        requires
            gview(cells@).len() <= 0xFFFF,
            forall|y: int|
                0 <= y < gview(cells@).len() ==> (#[trigger] gview(cells@)[y]).len() == gview(
                    cells@,
                )[0].len(),
            gview(cells@).len() > 0 ==> gview(cells@)[0].len() <= 0xFFFF,
        ensures
            c.wf(),
            c.grid() == gview(cells@),
            c.pending_spec().len() == 0,
            c.prev_grid() is None,
    {
        Canvas { cells, pending: Vec::new(), previous: None }
    }

    pub fn height(&self) -> (h: usize)
        ensures
            h == self.height_spec(),
    {
        self.cells.len()
    }

    pub fn width(&self) -> (w: usize)
        ensures
            w == self.width_spec(),
    {
        if self.cells.len() == 0 {
            0
        } else {
            self.cells[0].len()
        }
    }

    /// The cell at column `x` of row `y`.
    pub fn cell_at(&self, x: usize, y: usize) -> (c: Cell)
        requires
            self.wf(),
            y < self.height_spec(),
            x < self.width_spec(),
        ensures
            c == self.grid()[y as int][x as int],
    {
        proof {
            assert(self.grid()[y as int] == self.cells@[y as int]@);
        }
        self.cells[y][x]
    }

    /// Queues a renderable to be painted by the next display call.
    pub fn queue(&mut self, r: Renderable)
        requires
            old(self).wf(),
            r.wf(),
        ensures
            final(self).wf(),
            final(self).grid() == old(self).grid(),
            final(self).prev_grid() == old(self).prev_grid(),
            final(self).pending_spec() == old(self).pending_spec().push(r),
    {
        self.pending.push(r);
        proof {
            assert forall|i: int|
                0 <= i < self.pending@.len() implies (#[trigger] self.pending@[i]).wf() by {
                if i < old(self).pending@.len() {
                    assert(old(self).pending_spec()[i].wf());
                } else {
                    assert(self.pending@[i] == r);
                }
            }
        }
    }

    /// Blends the rectangle over the grid: inside the rectangle's bounds,
    /// clipped to the grid, glyphs are replaced by the paint cell's glyph
    /// and colors are blended at the given power; everything else is
    /// untouched. The result is a plain composited canvas: it carries no
    /// queue and no snapshot.
    pub fn draw_rectangle(&self, rect: Rectangle, cell: Cell, alpha: u16) -> (c: Canvas)
        requires
            self.wf(),
            alpha <= 1000,
        ensures
            c.wf(),
            c.grid() == apply_rect(
                self.grid(),
                rect.position.x as int,
                rect.position.y as int,
                rect.size.x as int,
                rect.size.y as int,
                cell,
                alpha as int,
            ),
            c.height_spec() == self.height_spec(),
            c.width_spec() == self.width_spec(),
            c.pending_spec().len() == 0,
            c.prev_grid() is None,
    {
        let g = paint_rect(
            &self.cells,
            rect.position.x as i64,
            rect.position.y as i64,
            rect.size.x as i64,
            rect.size.y as i64,
            cell,
            alpha,
        );
        let c = Canvas { cells: g, pending: Vec::new(), previous: None };
        proof {
            lemma_apply_preserves_dims(self.grid(), c.grid(), self.width_spec());
        }
        c
    }

    /// Replaces every cell the circle covers with the paint cell outright;
    /// cells outside the grid are clipped away. The result carries no queue
    /// and no snapshot.
    pub fn draw_circle(&self, circle: Circle, cell: Cell) -> (c: Canvas)
        requires
            self.wf(),
        ensures
            c.wf(),
            c.grid() == apply_circle(self.grid(), circle, cell),
            c.height_spec() == self.height_spec(),
            c.width_spec() == self.width_spec(),
            c.pending_spec().len() == 0,
            c.prev_grid() is None,
    {
        let g = paint_circle(&self.cells, circle, cell);
        let c = Canvas { cells: g, pending: Vec::new(), previous: None };
        proof {
            lemma_apply_preserves_dims(self.grid(), c.grid(), self.width_spec());
        }
        c
    }

    /// Composites a dialog box: a centered translucent panel, white border
    /// lines and corner glyphs, then the text laid into the interior.
    /// Out-of-bounds positions are skipped, never an error. The result
    /// carries no queue and no snapshot.
    pub fn draw_dialog_box(&self, d: &DialogBox) -> (c: Canvas)
        requires
            self.wf(),
        ensures
            c.wf(),
            c.grid() == apply_dialog(self.grid(), *d, self.width_spec()),
            c.height_spec() == self.height_spec(),
            c.width_spec() == self.width_spec(),
            c.pending_spec().len() == 0,
            c.prev_grid() is None,
    {
        let w: i64 = self.width() as i64;
        let dw: i64 = d.width as i64;
        let bw: i64 = dw + d.x_pad as i64;
        let bh: i64 = d.height as i64 + d.y_pad as i64;
        let pos: i64 = d.position as i64;
        let x0: i64 = half_trunc(w - dw);
        let xl: i64 = x0 - 1;
        let xr: i64 = half_trunc(w + bw) + 1;
        let fill = Cell::from_color(Color::black());
        let white = Color::white();
        let black = Color::black();

        let mut g = paint_rect(&self.cells, x0, pos, bw, bh, fill, 700);
        proof {
            lemma_apply_preserves_dims(self.grid(), gview(g@), self.width_spec());
        }
        put_cell(&mut g, xl, pos - 1, Cell::new('╭', white, black));
        put_cell(&mut g, xl, pos + bh, Cell::new('╰', white, black));
        proof {
            lemma_set_preserves_dims(self.grid(), gview(g@), self.width_spec());
        }
        let vline = Cell::new('│', white, fill.bg);
        let g2 = paint_rect(&g, xl, pos, 1, bh, vline, 1000);
        let mut g = g2;
        proof {
            lemma_apply_preserves_dims(self.grid(), gview(g@), self.width_spec());
        }
        put_cell(&mut g, xr, pos - 1, Cell::new('╮', white, black));
        put_cell(&mut g, xr, pos + bh, Cell::new('╯', white, black));
        proof {
            lemma_set_preserves_dims(self.grid(), gview(g@), self.width_spec());
        }
        let g3 = paint_rect(&g, xr, pos, 1, bh, vline, 1000);
        proof {
            lemma_apply_preserves_dims(self.grid(), gview(g3@), self.width_spec());
        }
        let hline = Cell::new('─', white, fill.bg);
        let g4 = paint_rect(&g3, x0, pos - 1, bw, 1, hline, 900);
        proof {
            lemma_apply_preserves_dims(self.grid(), gview(g4@), self.width_spec());
        }
        let mut g5 = paint_rect(&g4, x0, pos + bh, bw, 1, hline, 900);
        proof {
            lemma_apply_preserves_dims(self.grid(), gview(g5@), self.width_spec());
        }
        lay_text_exec(
            &mut g5,
            &d.text,
            (x0 + d.x_pad as i64) as i128,
            (pos + d.y_pad as i64) as i128,
            (x0 + d.x_pad as i64) as i128,
            d.text_color,
        );
        let c = Canvas { cells: g5, pending: Vec::new(), previous: None };
        proof {
            lemma_lay_text_preserves_dims(
                apply_rect(
                    gview(g4@),
                    x0 as int,
                    pos + bh,
                    bw as int,
                    1,
                    hline,
                    900,
                ),
                d.text@,
                x0 + d.x_pad,
                pos + d.y_pad,
                x0 + d.x_pad,
                d.text_color,
                self.width_spec(),
                self.height_spec(),
            );
        }
        c
    }
}

impl Renderable {
    /// Paints this renderable over the given canvas, producing a fresh
    /// composited canvas with no queue and no snapshot.
    pub fn render(&self, canvas: &Canvas) -> (c: Canvas)
        requires
            canvas.wf(),
            self.wf(),
        ensures
            c.wf(),
            c.grid() == apply_renderable(canvas.grid(), *self, canvas.width_spec()),
            c.height_spec() == canvas.height_spec(),
            c.width_spec() == canvas.width_spec(),
            c.pending_spec().len() == 0,
            c.prev_grid() is None,
    {
        match self {
            Renderable::DialogBox(d) => canvas.draw_dialog_box(d),
            Renderable::Rectangle(rect, cell, alpha) => canvas.draw_rectangle(*rect, *cell, *alpha),
            Renderable::Circle(circle, cell) => canvas.draw_circle(*circle, *cell),
        }
    }
}

/// Whether two colors are close enough (Euclidean distance under 20) for
/// the emitter to reuse the terminal's current color state.
pub open spec fn colors_close(a: Color, b: Color) -> bool {
    a.distance_sq_spec(b) < 400
}

/// Whether a cell can be emitted as a bare glyph, reusing the colors of the
/// last emitted cell of the row.
pub open spec fn reuses_colors(cell: Cell, last: Option<(Color, Color)>) -> bool {
    match last {
        Some(p) => colors_close(cell.fg, p.0) && colors_close(cell.bg, p.1),
        None => false,
    }
}

/// The last-emitted color pair after emitting a cell.
pub open spec fn next_colors(cell: Cell, last: Option<(Color, Color)>) -> Option<(Color, Color)> {
    if reuses_colors(cell, last) {
        last
    } else {
        Some((cell.fg, cell.bg))
    }
}

/// The text emitted for one changed cell: position the cursor (1-indexed
/// column, 0-indexed row), then either the bare glyph, or a style reset
/// plus the full color-setting sequence and glyph.
pub open spec fn cell_emission(cell: Cell, x: int, y: int, last: Option<(Color, Color)>) -> Seq<
    char,
> {
    if reuses_colors(cell, last) {
        goto_seq(x + 1, y) + seq![cell.glyph]
    } else {
        goto_seq(x + 1, y) + (sgr_reset() + render_spec(cell))
    }
}

/// Whether the cell at `x` must be emitted: there is no previous frame, or
/// the cell differs from the previous frame's cell there.
pub open spec fn cell_changed(cur: Seq<Cell>, prev: Option<Seq<Cell>>, x: int) -> bool {
    match prev {
        None => true,
        Some(p) => p[x] != cur[x],
    }
}

/// The text emitted for one row from column `x` on, given the last-emitted
/// color pair: each changed cell's emission, then the row terminator (style
/// reset and line feed).
pub open spec fn row_diff_out(
    cur: Seq<Cell>,
    prev: Option<Seq<Cell>>,
    y: int,
    x: int,
    last: Option<(Color, Color)>,
) -> Seq<char>
    decreases cur.len() - x,
{
    if x < 0 || x >= cur.len() {
        sgr_reset() + seq!['\n']
    } else if cell_changed(cur, prev, x) {
        cell_emission(cur[x], x, y, last) + row_diff_out(
            cur,
            prev,
            y,
            x + 1,
            next_colors(cur[x], last),
        )
    } else {
        row_diff_out(cur, prev, y, x + 1, last)
    }
}

/// The previous frame's row `y`, if a previous frame exists.
pub open spec fn prev_row(prev: Option<Seq<Seq<Cell>>>, y: int) -> Option<Seq<Cell>> {
    match prev {
        None => None,
        Some(p) => Some(p[y]),
    }
}

/// The text emitted for the rows from `y` on; the last-emitted color pair
/// resets at the start of each row.
pub open spec fn frame_diff_out(cur: Seq<Seq<Cell>>, prev: Option<Seq<Seq<Cell>>>, y: int) -> Seq<
    char,
>
    decreases cur.len() - y,
{
    if y < 0 || y >= cur.len() {
        Seq::empty()
    } else {
        row_diff_out(cur[y], prev_row(prev, y), y, 0, None) + frame_diff_out(cur, prev, y + 1)
    }
}

/// Everything one display call writes: cursor home, then the diff of the
/// composited frame against the previous one.
pub open spec fn display_out(cur: Seq<Seq<Cell>>, prev: Option<Seq<Seq<Cell>>>) -> Seq<char> {
    csi() + seq!['H'] + frame_diff_out(cur, prev, 0)
}

/// Emits one changed cell and returns the updated last-emitted color pair.
fn emit_cell(out: &mut Vec<char>, cell: Cell, x: u16, y: u16, last: Option<(Color, Color)>) -> (nl:
    Option<(Color, Color)>)
    requires
        x < 0xFFFF,
    ensures
        final(out)@ == old(out)@ + cell_emission(cell, x as int, y as int, last),
        nl == next_colors(cell, last),
{
    push_goto(out, x + 1, y);
    let reuse = match last {
        Some((f, b)) => cell.fg.distance_sq(f) < 400 && cell.bg.distance_sq(b) < 400,
        None => false,
    };
    if reuse {
        out.push(cell.glyph);
        assert(out@ =~= old(out)@ + cell_emission(cell, x as int, y as int, last));
        last
    } else {
        push_sgr_reset(out);
        push_sgr_color(out, 38, cell.fg);
        push_sgr_color(out, 48, cell.bg);
        out.push(cell.glyph);
        assert(out@ =~= old(out)@ + cell_emission(cell, x as int, y as int, last));
        Some((cell.fg, cell.bg))
    }
}

impl Canvas {
    /// Composites every queued renderable over the grid in queue order,
    /// emits the diff against the previous frame as terminal control
    /// sequences, retains the composited frame as both the new grid and the
    /// previous-frame snapshot, and clears the queue. The returned text is
    /// what should be written to the terminal for this frame.
    pub fn display(&mut self) -> (out: String)
        requires
            old(self).wf(),
        ensures
            final(self).wf(),
            final(self).grid() == composite_spec(
                old(self).grid(),
                old(self).pending_spec(),
                old(self).width_spec(),
            ),
            final(self).prev_grid() == Some(final(self).grid()),
            final(self).pending_spec().len() == 0,
            final(self).height_spec() == old(self).height_spec(),
            final(self).width_spec() == old(self).width_spec(),
            out@ == display_out(final(self).grid(), old(self).prev_grid()),
    {
        let base_cells = copy_grid(&self.cells);
        let mut comp = Canvas { cells: base_cells, pending: Vec::new(), previous: None };
        proof {
            assert(comp.grid() == self.grid());
            assert(comp.wf());
        }
        let n = self.pending.len();
        let mut i: usize = 0;
        while i < n
            invariant
                *self == *old(self),
                self.wf(),
                n == self.pending_spec().len(),
                i <= n,
                comp.wf(),
                comp.height_spec() == self.height_spec(),
                comp.width_spec() == self.width_spec(),
                comp.pending_spec().len() == 0,
                comp.prev_grid() is None,
                comp.grid() == composite_spec(
                    self.grid(),
                    self.pending_spec().take(i as int),
                    self.width_spec(),
                ),
            decreases n - i,
        {
            proof {
                assert(self.pending_spec()[i as int].wf());
                assert(self.pending_spec().take(i + 1).drop_last() =~= self.pending_spec().take(
                    i as int,
                ));
                assert(self.pending_spec().take(i + 1).last() == self.pending_spec()[i as int]);
            }
            let r = &self.pending[i];
            comp = r.render(&comp);
            i = i + 1;
        }
        proof {
            assert(self.pending_spec().take(n as int) =~= self.pending_spec());
        }
        let ghost cur = comp.grid();
        let ghost prevg = self.prev_grid();
        let ghost total = display_out(cur, prevg);
        let h = comp.height();
        let w = comp.width();
        let mut out: Vec<char> = Vec::new();
        out.push('\x1b');
        out.push('[');
        out.push('H');
        proof {
            assert(out@ =~= csi() + seq!['H']);
            assert(out@ + frame_diff_out(cur, prevg, 0) =~= total);
        }
        let mut y: usize = 0;
        while y < h
            invariant
                *self == *old(self),
                self.wf(),
                comp.wf(),
                cur == comp.grid(),
                prevg == self.prev_grid(),
                total == display_out(cur, prevg),
                h == comp.height_spec(),
                w == comp.width_spec(),
                h == self.height_spec(),
                w == self.width_spec(),
                w <= 0xFFFF,
                h <= 0xFFFF,
                y <= h,
                out@ + frame_diff_out(cur, prevg, y as int) == total,
            decreases h - y,
        {
            let ghost prow = prev_row(prevg, y as int);
            proof {
                assert(frame_diff_out(cur, prevg, y as int) == row_diff_out(
                    cur[y as int],
                    prow,
                    y as int,
                    0,
                    None,
                ) + frame_diff_out(cur, prevg, y + 1));
                assert(out@ + (row_diff_out(cur[y as int], prow, y as int, 0, None)
                    + frame_diff_out(cur, prevg, y + 1)) =~= (out@ + row_diff_out(
                    cur[y as int],
                    prow,
                    y as int,
                    0,
                    None,
                )) + frame_diff_out(cur, prevg, y + 1));
            }
            let mut last: Option<(Color, Color)> = None;
            let mut x: usize = 0;
            while x < w
                invariant
                    *self == *old(self),
                    self.wf(),
                    comp.wf(),
                    cur == comp.grid(),
                    prevg == self.prev_grid(),
                    total == display_out(cur, prevg),
                    h == comp.height_spec(),
                    w == comp.width_spec(),
                    h == self.height_spec(),
                    w == self.width_spec(),
                    w <= 0xFFFF,
                    h <= 0xFFFF,
                    y < h,
                    x <= w,
                    prow == prev_row(prevg, y as int),
                    (out@ + row_diff_out(cur[y as int], prow, y as int, x as int, last))
                        + frame_diff_out(cur, prevg, y + 1) == total,
                decreases w - x,
            {
                let cell = comp.cell_at(x, y);
                let changed: bool = match &self.previous {
                    None => true,
                    Some(p) => {
                        proof {
                            assert(gview(p@)[y as int] == p@[y as int]@);
                        }
                        cell != p[y][x]
                    },
                };
                let ghost out0 = out@;
                let ghost last0 = last;
                if changed {
                    last = emit_cell(&mut out, cell, x as u16, y as u16, last);
                }
                proof {
                    assert(cell == cur[y as int][x as int]);
                    assert(cell_changed(cur[y as int], prow, x as int) == changed);
                    if changed {
                        assert(row_diff_out(cur[y as int], prow, y as int, x as int, last0)
                            == cell_emission(cell, x as int, y as int, last0) + row_diff_out(
                            cur[y as int],
                            prow,
                            y as int,
                            x + 1,
                            next_colors(cell, last0),
                        ));
                        assert((out@ + row_diff_out(cur[y as int], prow, y as int, x + 1, last))
                            + frame_diff_out(cur, prevg, y + 1) =~= (out0 + row_diff_out(
                            cur[y as int],
                            prow,
                            y as int,
                            x as int,
                            last0,
                        )) + frame_diff_out(cur, prevg, y + 1));
                    } else {
                        assert(row_diff_out(cur[y as int], prow, y as int, x as int, last0)
                            == row_diff_out(cur[y as int], prow, y as int, x + 1, last0));
                    }
                }
                x = x + 1;
            }
            let ghost outr = out@;
            let ghost lastr = last;
            push_sgr_reset(&mut out);
            out.push('\n');
            proof {
                assert(row_diff_out(cur[y as int], prow, y as int, w as int, lastr) == sgr_reset()
                    + seq!['\n']);
                assert(out@ =~= outr + (sgr_reset() + seq!['\n']));
                assert(out@ + frame_diff_out(cur, prevg, y + 1) =~= (outr + row_diff_out(
                    cur[y as int],
                    prow,
                    y as int,
                    w as int,
                    lastr,
                )) + frame_diff_out(cur, prevg, y + 1));
            }
            y = y + 1;
        }
        proof {
            assert(frame_diff_out(cur, prevg, h as int) == Seq::<char>::empty());
            assert(out@ + Seq::<char>::empty() =~= out@);
        }
        let comp_cells = comp.cells;
        let snapshot = copy_grid(&comp_cells);
        self.cells = comp_cells;
        self.previous = Some(snapshot);
        self.pending = Vec::new();
        string_from_chars(&out)
    }
}

/// Rectangle painting never writes outside the grid or outside the
/// rectangle: the grid keeps its shape, and every cell off the rectangle
/// keeps its value, however far the rectangle's bounds overshoot the grid.
pub proof fn lemma_rect_stays_inside(
    g: Seq<Seq<Cell>>,
    lx: int,
    ly: int,
    sx: int,
    sy: int,
    paint: Cell,
    alpha: int,
    x: int,
    y: int,
)
    requires
        0 <= y < g.len(),
        0 <= x < g[y].len(),
        !(lx <= x < lx + sx && ly <= y < ly + sy),
    ensures
        apply_rect(g, lx, ly, sx, sy, paint, alpha).len() == g.len(),
        apply_rect(g, lx, ly, sx, sy, paint, alpha)[y].len() == g[y].len(),
        apply_rect(g, lx, ly, sx, sy, paint, alpha)[y][x] == g[y][x],
{
}

/// The text emitted for `n` rows in which no cell changed: only the row
/// terminators (style reset and line feed), one per row.
pub open spec fn row_terminators(n: nat) -> Seq<char>
    decreases n,
{
    if n == 0 {
        Seq::empty()
    } else {
        (sgr_reset() + seq!['\n']) + row_terminators((n - 1) as nat)
    }
}

proof fn lemma_row_no_change(
    cur: Seq<Cell>,
    prev: Seq<Cell>,
    y: int,
    x: int,
    last: Option<(Color, Color)>,
)
    requires
        prev.len() == cur.len(),
        forall|i: int| x <= i < cur.len() ==> prev[i] == cur[i],
    ensures
        row_diff_out(cur, Some(prev), y, x, last) == sgr_reset() + seq!['\n'],
    decreases cur.len() - x,
{
    if x < 0 || x >= cur.len() {
    } else {
        assert(prev[x] == cur[x]);
        lemma_row_no_change(cur, prev, y, x + 1, last);
    }
}

proof fn lemma_frame_no_change_from(
    cur: Seq<Seq<Cell>>,
    prev: Seq<Seq<Cell>>,
    w: int,
    h: int,
    y: int,
)
    requires
        grid_wf(cur, w, h),
        grid_wf(prev, w, h),
        0 <= y <= h,
        forall|yy: int, x: int|
            y <= yy < h && 0 <= x < w ==> #[trigger] cur[yy][x] == #[trigger] prev[yy][x],
    ensures
        frame_diff_out(cur, Some(prev), y) == row_terminators((h - y) as nat),
    decreases h - y,
{
    if y >= h {
    } else {
        assert forall|i: int| 0 <= i < cur[y].len() implies prev[y][i] == cur[y][i] by {
            assert(cur[y][i] == prev[y][i]);
        }
        lemma_row_no_change(cur[y], prev[y], y, 0, None);
        lemma_frame_no_change_from(cur, prev, w, h, y + 1);
    }
}

/// A display of a frame identical to the previous one emits no cell at
/// all: only the per-row terminators.
pub proof fn lemma_diff_no_change(cur: Seq<Seq<Cell>>, prev: Seq<Seq<Cell>>, w: int, h: int)
    requires
        grid_wf(cur, w, h),
        grid_wf(prev, w, h),
        forall|y: int, x: int|
            0 <= y < h && 0 <= x < w ==> #[trigger] cur[y][x] == #[trigger] prev[y][x],
    ensures
        frame_diff_out(cur, Some(prev), 0) == row_terminators(h as nat),
{
    lemma_frame_no_change_from(cur, prev, w, h, 0);
}

proof fn lemma_row_single_change(
    cur: Seq<Cell>,
    prev: Seq<Cell>,
    y: int,
    x: int,
    cx: int,
    last: Option<(Color, Color)>,
)
    requires
        prev.len() == cur.len(),
        0 <= cx < cur.len(),
        0 <= x <= cx,
        forall|i: int| x <= i < cur.len() && i != cx ==> prev[i] == cur[i],
        prev[cx] != cur[cx],
    ensures
        row_diff_out(cur, Some(prev), y, x, last) == cell_emission(cur[cx], cx, y, last) + (
        sgr_reset() + seq!['\n']),
    decreases cur.len() - x,
{
    if x == cx {
        lemma_row_no_change(cur, prev, y, cx + 1, next_colors(cur[cx], last));
    } else {
        assert(prev[x] == cur[x]);
        lemma_row_single_change(cur, prev, y, x + 1, cx, last);
    }
}

proof fn lemma_frame_single_change_from(
    cur: Seq<Seq<Cell>>,
    prev: Seq<Seq<Cell>>,
    cx: int,
    cy: int,
    w: int,
    h: int,
    y: int,
)
    requires
        grid_wf(cur, w, h),
        grid_wf(prev, w, h),
        0 <= cy < h,
        0 <= cx < w,
        0 <= y <= cy,
        forall|yy: int, x: int|
            0 <= yy < h && 0 <= x < w && !(yy == cy && x == cx) ==> #[trigger] cur[yy][x]
                == #[trigger] prev[yy][x],
        cur[cy][cx] != prev[cy][cx],
    ensures
        frame_diff_out(cur, Some(prev), y) == row_terminators((cy - y) as nat) + ((cell_emission(
            cur[cy][cx],
            cx,
            cy,
            None,
        ) + (sgr_reset() + seq!['\n'])) + row_terminators((h - cy - 1) as nat)),
    decreases cy - y,
{
    if y == cy {
        assert forall|i: int| 0 <= i < cur[cy].len() && i != cx implies prev[cy][i] == cur[cy][i] by {
            assert(cur[cy][i] == prev[cy][i]);
        }
        lemma_row_single_change(cur[cy], prev[cy], cy, 0, cx, None);
        lemma_frame_no_change_from(cur, prev, w, h, cy + 1);
        assert(frame_diff_out(cur, Some(prev), cy) =~= row_terminators((cy - y) as nat) + ((
        cell_emission(cur[cy][cx], cx, cy, None) + (sgr_reset() + seq!['\n'])) + row_terminators(
            (h - cy - 1) as nat,
        )));
    } else {
        assert forall|i: int| 0 <= i < cur[y].len() implies prev[y][i] == cur[y][i] by {
            assert(cur[y][i] == prev[y][i]);
        }
        lemma_row_no_change(cur[y], prev[y], y, 0, None);
        lemma_frame_single_change_from(cur, prev, cx, cy, w, h, y + 1);
        assert(frame_diff_out(cur, Some(prev), y) =~= row_terminators((cy - y) as nat) + ((
        cell_emission(cur[cy][cx], cx, cy, None) + (sgr_reset() + seq!['\n'])) + row_terminators(
            (h - cy - 1) as nat,
        )));
    }
}

/// A display of a frame that differs from the previous one in exactly one
/// cell emits exactly that cell: the rows before it contribute only their
/// terminators, the changed row contributes one cursor move and one
/// full-color cell emission, and the rows after it again only terminators.
pub proof fn lemma_diff_single_cell(
    cur: Seq<Seq<Cell>>,
    prev: Seq<Seq<Cell>>,
    cx: int,
    cy: int,
    w: int,
    h: int,
)
    requires
        grid_wf(cur, w, h),
        grid_wf(prev, w, h),
        0 <= cy < h,
        0 <= cx < w,
        forall|yy: int, x: int|
            0 <= yy < h && 0 <= x < w && !(yy == cy && x == cx) ==> #[trigger] cur[yy][x]
                == #[trigger] prev[yy][x],
        cur[cy][cx] != prev[cy][cx],
    ensures
        frame_diff_out(cur, Some(prev), 0) == row_terminators(cy as nat) + ((cell_emission(
            cur[cy][cx],
            cx,
            cy,
            None,
        ) + (sgr_reset() + seq!['\n'])) + row_terminators((h - cy - 1) as nat)),
{
    lemma_frame_single_change_from(cur, prev, cx, cy, w, h, 0);
}

/// A painted grid keeps the dimensions of the grid it came from.
proof fn lemma_apply_preserves_dims(g: Seq<Seq<Cell>>, painted: Seq<Seq<Cell>>, w: int)
    requires
        grid_wf(g, w, g.len() as int),
        painted.len() == g.len(),
        forall|y: int| 0 <= y < g.len() ==> (#[trigger] painted[y]).len() == g[y].len(),
    ensures
        grid_wf(painted, w, g.len() as int),
{
}

proof fn lemma_set_preserves_dims(g: Seq<Seq<Cell>>, s: Seq<Seq<Cell>>, w: int)
    requires
        grid_wf(g, w, g.len() as int),
        s.len() == g.len(),
        forall|y: int| 0 <= y < g.len() ==> (#[trigger] s[y]).len() == g[y].len(),
    ensures
        grid_wf(s, w, g.len() as int),
{
}

/// Replacing one cell's glyph and foreground keeps the grid rectangular.
proof fn lemma_set_glyph_fg_dims(
    g: Seq<Seq<Cell>>,
    x: int,
    y: int,
    ch: char,
    fg: Color,
    w: int,
    h: int,
)
    requires
        grid_wf(g, w, h),
    ensures
        grid_wf(set_glyph_fg(g, x, y, ch, fg), w, h),
{
    let g2 = set_glyph_fg(g, x, y, ch, fg);
    if 0 <= y < g.len() && 0 <= x < g[y].len() {
        let row2 = g[y].update(x, Cell { glyph: ch, fg, bg: g[y][x].bg });
        assert(g2 == g.update(y, row2));
        assert(row2.len() == g[y].len());
        assert forall|yy: int| 0 <= yy < h implies (#[trigger] g2[yy]).len() == w by {
            if yy == y {
                assert(g2[yy] == row2);
            } else {
                assert(g2[yy] == g[yy]);
            }
        }
    } else {
        assert(g2 == g);
    }
}

/// Laying text into a rectangular grid keeps it rectangular.
proof fn lemma_lay_text_preserves_dims(
    g: Seq<Seq<Cell>>,
    text: Seq<char>,
    x: int,
    y: int,
    reset_x: int,
    color: Color,
    w: int,
    h: int,
)
    requires
        grid_wf(g, w, h),
    ensures
        grid_wf(lay_text(g, text, x, y, reset_x, color), w, h),
    decreases text.len(),
{
    if text.len() == 0 {
    } else if text[0] == '\n' {
        lemma_lay_text_preserves_dims(g, text.skip(1), reset_x, y + 1, reset_x, color, w, h);
    } else {
        lemma_set_glyph_fg_dims(g, x, y, text[0], color, w, h);
        lemma_lay_text_preserves_dims(
            set_glyph_fg(g, x, y, text[0], color),
            text.skip(1),
            x + 1,
            y,
            reset_x,
            color,
            w,
            h,
        );
    }
}


} // verus!
