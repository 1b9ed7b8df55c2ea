use termraster::color::Color;
use termraster::geometry::{Circle, DialogBox, Rectangle, Vector2};

#[test]
fn vector_distance_sq_exact() {
    let a = Vector2::new(0, 0);
    let b = Vector2::new(3, 4);
    assert_eq!(a.distance_sq(b), 25);
    assert_eq!(b.distance_sq(a), 25);
    assert_eq!(a.distance_sq(a), 0);
}

#[test]
fn rectangle_raw_builds_position_and_size() {
    let r = Rectangle::raw(2, 3, 10, 20);
    assert_eq!(r.position, Vector2::new(2, 3));
    assert_eq!(r.size, Vector2::new(10, 20));
}

#[test]
fn circle_covers_uses_halved_x_axis() {
    let c = Circle::new(10, 5, 3);
    assert!(c.covers(10, 5));
    // Along x the distance is halved: 6 cells away is exactly radius 3.
    assert!(c.covers(16, 5));
    assert!(!c.covers(17, 5));
    // Along y it is not halved: 3 cells away is exactly the radius.
    assert!(c.covers(10, 8));
    assert!(!c.covers(10, 9));
}

#[test]
fn circle_coverage_is_mirror_symmetric_through_center() {
    let c = Circle::new(20, 10, 7);
    for y in 0..=20usize {
        for x in 0..=40usize {
            let mx = 40 - x;
            let my = 20 - y;
            assert_eq!(c.covers(x, y), c.covers(mx, my));
        }
    }
}

#[test]
fn negative_radius_covers_nothing() {
    let c = Circle::new(5, 5, -1);
    assert!(!c.covers(5, 5));
}

#[test]
fn dialog_box_defaults() {
    let d = DialogBox::new("hi".chars().collect(), 40, 6, 12);
    assert_eq!(d.text, vec!['h', 'i']);
    assert_eq!(d.width, 40);
    assert_eq!(d.height, 6);
    assert_eq!(d.position, 12);
    assert_eq!(d.x_pad, 1);
    assert_eq!(d.y_pad, 1);
    assert_eq!(d.text_color, Color::white());
}
