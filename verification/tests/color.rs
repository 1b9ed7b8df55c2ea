use termraster::color::{Color, POWER_ONE};

#[test]
fn shift_with_self_is_identity_at_any_power() {
    let c = Color::new(10, 200, 77);
    for p in [0u16, 1, 250, 500, 777, 999, POWER_ONE] {
        assert_eq!(c.shift(c, p), c);
    }
}

#[test]
fn shift_endpoints_are_exact() {
    let a = Color::new(12, 34, 56);
    let b = Color::new(250, 1, 128);
    assert_eq!(a.shift(b, 0), a);
    assert_eq!(a.shift(b, POWER_ONE), b);
}

#[test]
fn shift_halfway_truncates_per_channel() {
    let a = Color::new(100, 50, 0);
    let b = Color::new(200, 150, 255);
    assert_eq!(a.shift(b, 500), Color::new(150, 100, 127));
}

#[test]
fn distance_sq_of_color_with_itself_is_zero() {
    let a = Color::new(9, 99, 199);
    assert_eq!(a.distance_sq(a), 0);
}

#[test]
fn distance_sq_is_symmetric() {
    let a = Color::new(1, 2, 3);
    let b = Color::new(200, 100, 0);
    assert_eq!(a.distance_sq(b), b.distance_sq(a));
}

#[test]
fn distance_sq_exact_value() {
    let a = Color::new(0, 0, 0);
    let b = Color::new(3, 4, 0);
    assert_eq!(a.distance_sq(b), 25);
}

#[test]
fn clamp_adds_offset_then_clamps() {
    let c = Color::new(250, 0, 100);
    assert_eq!(c.clamp(0, 255, 10), Color::new(255, 10, 110));
    let d = Color::new(100, 40, 255);
    assert_eq!(d.clamp(50, 200, -60), Color::new(50, 50, 195));
}

#[test]
fn blockify_posterizes_to_lower_multiple() {
    let c = Color::new(255, 17, 16);
    assert_eq!(c.blockify(16), Color::new(240, 16, 16));
    assert_eq!(c.blockify(0), Color::new(0, 0, 0));
}

#[test]
fn brightness_is_truncated_mean() {
    assert_eq!(Color::new(30, 60, 90).brightness(), 60);
    assert_eq!(Color::new(0, 0, 1).brightness(), 0);
    assert_eq!(Color::new(255, 255, 255).brightness(), 255);
}

#[test]
fn decompose_exact() {
    let c = Color::new(100, 200, 50);
    let (base, shaded, weight) = c.decompose();
    assert_eq!(base, Color::new(96, 192, 48));
    assert_eq!(shaded, Color::new(35, 64, 21));
    assert_eq!(weight, 350);
}

#[test]
fn simplify_picks_the_named_swatches() {
    assert_eq!(Color::new(20, 30, 40).simplify(), Color::black());
    assert_eq!(Color::new(230, 230, 230).simplify(), Color::white());
    assert_eq!(Color::new(255, 0, 0).simplify(), Color::red());
    assert_eq!(Color::new(200, 180, 30).simplify(), Color::yellow());
    assert_eq!(Color::new(200, 30, 170).simplify(), Color::magenta());
    assert_eq!(Color::new(30, 200, 60).simplify(), Color::green());
    assert_eq!(Color::new(30, 200, 180).simplify(), Color::cyan());
    assert_eq!(Color::new(30, 60, 200).simplify(), Color::blue());
}

#[test]
fn simplify_threshold_edges() {
    // 49 is still near-black, 50 is not; 206 is near-white, 205 is not.
    assert_eq!(Color::new(49, 49, 49).simplify(), Color::black());
    assert_ne!(Color::new(50, 50, 50).simplify(), Color::black());
    assert_eq!(Color::new(206, 206, 206).simplify(), Color::white());
    assert_ne!(Color::new(205, 205, 205).simplify(), Color::white());
}

#[test]
fn simplify_is_idempotent_on_its_outputs() {
    let samples = [
        Color::new(20, 30, 40),
        Color::new(230, 230, 230),
        Color::new(255, 0, 0),
        Color::new(200, 180, 30),
        Color::new(127, 90, 210),
        Color::new(64, 200, 110),
        Color::new(5, 250, 250),
        Color::new(90, 60, 140),
    ];
    for c in samples {
        let once = c.simplify();
        assert_eq!(once.simplify(), once);
    }
}
