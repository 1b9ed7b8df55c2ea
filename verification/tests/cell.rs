use termraster::{Cell, Color};

#[test]
fn from_color_is_deterministic() {
    let c = Color::new(137, 42, 250);
    let a = Cell::from_color(c);
    let b = Cell::from_color(c);
    assert_eq!(a, b);
    assert_eq!(a.glyph, b.glyph);
    assert_eq!(a.fg, b.fg);
    assert_eq!(a.bg, b.bg);
}

#[test]
fn from_color_of_black_is_sparsest_glyph() {
    let cell = Cell::from_color(Color::new(0, 0, 0));
    assert_eq!(cell.glyph, '`');
    assert_eq!(cell.fg, Color::new(0, 0, 0));
    assert_eq!(cell.bg, Color::new(7, 7, 7));
}

#[test]
fn from_color_of_full_white_is_densest_glyph() {
    let cell = Cell::from_color(Color::new(255, 255, 255));
    assert_eq!(cell.glyph, '#');
    assert_eq!(cell.fg, Color::new(240, 240, 240));
    assert_eq!(cell.bg, Color::new(79, 79, 79));
}

#[test]
fn ramp_slot_exact_for_mid_grays() {
    // channel sum 90 maps to slot 90*52/765 = 6, sum 450 to slot 30.
    assert_eq!(Cell::from_color(Color::new(30, 30, 30)).glyph, '"');
    assert_eq!(Cell::from_color(Color::new(150, 150, 150)).glyph, 'u');
}

#[test]
fn ramp_slot_is_monotone_in_brightness() {
    let ramp: Vec<char> = "`'~!,-\":|\\;/(<>)]+[{}i731t2sy*ur5o=dea49p6q&8w€¥0$%@#"
        .chars()
        .collect();
    let slot = |v: u8| {
        let g = Cell::from_color(Color::new(v, v, v)).glyph;
        ramp.iter().position(|&c| c == g).unwrap()
    };
    let mut prev = slot(0);
    for v in 1..=255u8 {
        let s = slot(v);
        assert!(s >= prev);
        prev = s;
    }
}

#[test]
fn render_emits_exact_escape_text() {
    let cell = Cell::new('A', Color::new(1, 2, 3), Color::new(40, 50, 60));
    assert_eq!(cell.render(), "\x1b[38;2;1;2;3m\x1b[48;2;40;50;60mA");
}

#[test]
fn render_of_quantized_black() {
    let cell = Cell::from_color(Color::new(0, 0, 0));
    assert_eq!(cell.render(), "\x1b[38;2;0;0;0m\x1b[48;2;7;7;7m`");
}
