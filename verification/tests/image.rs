use termraster::image::{downsampled_cells, load_canvas};
use termraster::{Cell, Color};

#[test]
fn downsample_at_equal_size_keeps_each_pixel() {
    // A 2 by 2 source into a 2 by 2 grid: each cell is its own pixel.
    let pixels: Vec<u8> = vec![
        255, 0, 0, 0, 255, 0, //
        0, 0, 255, 255, 255, 255,
    ];
    let cells = downsampled_cells(&pixels, 2, 2, 2, 2);
    assert_eq!(cells[0][0], Cell::from_color(Color::new(255, 0, 0)));
    assert_eq!(cells[0][1], Cell::from_color(Color::new(0, 255, 0)));
    assert_eq!(cells[1][0], Cell::from_color(Color::new(0, 0, 255)));
    assert_eq!(cells[1][1], Cell::from_color(Color::new(255, 255, 255)));
}

#[test]
fn downsample_averages_by_repeated_half_blends() {
    // Two source pixels fold into one cell: the second is blended in
    // halfway.
    let pixels: Vec<u8> = vec![100, 100, 100, 200, 200, 200];
    let cells = downsampled_cells(&pixels, 2, 1, 1, 1);
    assert_eq!(cells.len(), 1);
    assert_eq!(cells[0].len(), 1);
    assert_eq!(cells[0][0], Cell::from_color(Color::new(150, 150, 150)));
}

#[test]
fn downsample_three_pixels_folds_in_order() {
    // (10, then 20 at half, then 90 at half): ((10+20)/2 + 90)/2 = 52.
    let pixels: Vec<u8> = vec![10, 10, 10, 20, 20, 20, 90, 90, 90];
    let cells = downsampled_cells(&pixels, 3, 1, 1, 1);
    assert_eq!(cells[0][0], Cell::from_color(Color::new(52, 52, 52)));
}

#[test]
fn load_canvas_rejects_undecodable_bytes() {
    let garbage: Vec<u8> = vec![1, 2, 3, 4, 5];
    assert!(load_canvas(&garbage, 4, 4).is_none());
}

#[test]
fn load_canvas_rejects_empty_stream() {
    let empty: Vec<u8> = Vec::new();
    assert!(load_canvas(&empty, 2, 2).is_none());
}
