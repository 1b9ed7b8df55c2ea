use termraster::canvas::{Canvas, Renderable};
use termraster::geometry::{Circle, DialogBox, Rectangle};
use termraster::{Cell, Color};

fn base_cell() -> Cell {
    Cell::from_color(Color::new(0, 0, 0))
}

fn white_cell() -> Cell {
    Cell::from_color(Color::new(255, 255, 255))
}

#[test]
fn new_canvas_dimensions_and_fill() {
    let c = Canvas::new(5, 3);
    assert_eq!(c.width(), 5);
    assert_eq!(c.height(), 3);
    for y in 0..3 {
        for x in 0..5 {
            assert_eq!(c.cell_at(x, y), base_cell());
        }
    }
}

#[test]
fn zero_size_canvas_displays_without_error() {
    let mut c = Canvas::new(0, 0);
    assert_eq!(c.display(), "\x1b[H");
    let mut rows_only = Canvas::new(0, 3);
    assert_eq!(rows_only.display(), "\x1b[H\x1b[0m\n\x1b[0m\n\x1b[0m\n");
}

#[test]
fn rectangle_composites_onto_exact_cells() {
    let mut c = Canvas::new(4, 4);
    c.queue(Renderable::Rectangle(Rectangle::raw(1, 1, 2, 2), white_cell(), 1000));
    c.display();
    for y in 0..4 {
        for x in 0..4 {
            let expected = if (1..3).contains(&x) && (1..3).contains(&y) {
                white_cell()
            } else {
                base_cell()
            };
            assert_eq!(c.cell_at(x, y), expected, "cell ({}, {})", x, y);
        }
    }
}

#[test]
fn rectangle_overflowing_the_grid_is_clipped() {
    let mut c = Canvas::new(10, 10);
    c.queue(Renderable::Rectangle(Rectangle::raw(8, 8, 5, 5), white_cell(), 1000));
    c.display();
    for y in 0..10 {
        for x in 0..10 {
            let expected = if x >= 8 && y >= 8 { white_cell() } else { base_cell() };
            assert_eq!(c.cell_at(x, y), expected, "cell ({}, {})", x, y);
        }
    }
}

#[test]
fn rectangle_with_negative_position_is_clipped() {
    let mut c = Canvas::new(6, 6);
    c.queue(Renderable::Rectangle(Rectangle::raw(-5, -5, 7, 7), white_cell(), 1000));
    c.display();
    for y in 0..6 {
        for x in 0..6 {
            let expected = if x < 2 && y < 2 { white_cell() } else { base_cell() };
            assert_eq!(c.cell_at(x, y), expected, "cell ({}, {})", x, y);
        }
    }
}

#[test]
fn rectangle_blends_colors_but_replaces_glyph() {
    let mut c = Canvas::new(1, 1);
    let paint = Cell::new('X', Color::new(200, 100, 0), Color::new(0, 0, 200));
    c.queue(Renderable::Rectangle(Rectangle::raw(0, 0, 1, 1), paint, 500));
    c.display();
    let got = c.cell_at(0, 0);
    // Base is fg (0,0,0), bg (7,7,7); halfway toward the paint colors.
    assert_eq!(got.glyph, 'X');
    assert_eq!(got.fg, Color::new(100, 50, 0));
    assert_eq!(got.bg, Color::new(3, 3, 103));
}

#[test]
fn later_renderables_paint_over_earlier_ones() {
    let mut c = Canvas::new(2, 2);
    let red = Cell::new('r', Color::red(), Color::black());
    let blue = Cell::new('b', Color::blue(), Color::black());
    c.queue(Renderable::Rectangle(Rectangle::raw(0, 0, 2, 2), red, 1000));
    c.queue(Renderable::Rectangle(Rectangle::raw(0, 0, 1, 1), blue, 1000));
    c.display();
    assert_eq!(c.cell_at(0, 0).glyph, 'b');
    assert_eq!(c.cell_at(1, 0).glyph, 'r');
    assert_eq!(c.cell_at(0, 1).glyph, 'r');
}

#[test]
fn circle_replaces_cells_outright_and_symmetrically() {
    let mut c = Canvas::new(41, 21);
    let paint = white_cell();
    c.queue(Renderable::Circle(Circle::new(20, 10, 5), paint));
    c.display();
    let touched: Vec<(usize, usize)> = (0..21)
        .flat_map(|y| (0..41).map(move |x| (x, y)))
        .filter(|&(x, y)| c.cell_at(x, y) == paint)
        .collect();
    assert!(!touched.is_empty());
    assert!(touched.contains(&(20, 10)));
    for &(x, y) in &touched {
        assert!(touched.contains(&(40 - x, 20 - y)), "mirror of ({}, {})", x, y);
    }
}

#[test]
fn dialog_box_corners_and_text_land_at_computed_cells() {
    let mut c = Canvas::new(30, 20);
    let d = DialogBox::new("OK".chars().collect(), 10, 3, 5);
    c.queue(Renderable::DialogBox(d));
    c.display();
    // Interior width 10 centers at column 10; padded box is 11 by 4.
    assert_eq!(c.cell_at(9, 4).glyph, '╭');
    assert_eq!(c.cell_at(21, 4).glyph, '╮');
    assert_eq!(c.cell_at(9, 9).glyph, '╰');
    assert_eq!(c.cell_at(21, 9).glyph, '╯');
    let o = c.cell_at(11, 6);
    let k = c.cell_at(12, 6);
    assert_eq!(o.glyph, 'O');
    assert_eq!(k.glyph, 'K');
    assert_eq!(o.fg, Color::white());
    assert_eq!(k.fg, Color::white());
    // Border lines around the panel.
    assert_eq!(c.cell_at(10, 4).glyph, '─');
    assert_eq!(c.cell_at(9, 5).glyph, '│');
    assert_eq!(c.cell_at(21, 5).glyph, '│');
    assert_eq!(c.cell_at(10, 9).glyph, '─');
}

#[test]
fn dialog_text_wraps_on_line_feed() {
    let mut c = Canvas::new(30, 20);
    let d = DialogBox::new("a\nb".chars().collect(), 10, 3, 5);
    c.queue(Renderable::DialogBox(d));
    c.display();
    assert_eq!(c.cell_at(11, 6).glyph, 'a');
    assert_eq!(c.cell_at(11, 7).glyph, 'b');
}

#[test]
fn first_display_emits_every_cell_with_color_run_compression() {
    let mut c = Canvas::new(2, 1);
    let out = c.display();
    // The second cell has the same colors as the first, so only its glyph
    // is emitted.
    let expected = format!(
        "\x1b[H\x1b[0;1H\x1b[0m{}\x1b[0;2H`\x1b[0m\n",
        base_cell().render()
    );
    assert_eq!(out, expected);
}

#[test]
fn unchanged_frame_emits_no_cells() {
    let mut c = Canvas::new(3, 2);
    c.display();
    let out = c.display();
    assert_eq!(out, "\x1b[H\x1b[0m\n\x1b[0m\n");
}

#[test]
fn one_changed_cell_emits_exactly_one_cell() {
    let mut c = Canvas::new(3, 3);
    c.display();
    c.queue(Renderable::Rectangle(Rectangle::raw(1, 1, 1, 1), white_cell(), 1000));
    let out = c.display();
    let expected = format!(
        "\x1b[H\x1b[0m\n\x1b[1;2H\x1b[0m{}\x1b[0m\n\x1b[0m\n",
        white_cell().render()
    );
    assert_eq!(out, expected);
}

#[test]
fn display_clears_the_queue() {
    let mut c = Canvas::new(2, 2);
    c.queue(Renderable::Rectangle(Rectangle::raw(0, 0, 1, 1), white_cell(), 1000));
    c.display();
    // A second display must not repaint the rectangle over new state: the
    // frame is unchanged, so nothing but terminators is emitted.
    let out = c.display();
    assert_eq!(out, "\x1b[H\x1b[0m\n\x1b[0m\n");
}

#[test]
fn draw_rectangle_leaves_the_source_canvas_untouched() {
    let c = Canvas::new(3, 3);
    let painted = c.draw_rectangle(Rectangle::raw(0, 0, 3, 3), white_cell(), 1000);
    assert_eq!(c.cell_at(0, 0), base_cell());
    assert_eq!(painted.cell_at(0, 0), white_cell());
}
