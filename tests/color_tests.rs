use raytracer::{Color, Scalar};

fn s(x: f64) -> Scalar {
    Scalar::from_raw((x * 1e9).round() as i64)
}

fn rgb(r: f64, g: f64, b: f64) -> Color {
    Color { r: s(r), g: s(g), b: s(b) }
}

fn assert_rgb(c: Color, r: f64, g: f64, b: f64) {
    assert_eq!(c.r, s(r));
    assert_eq!(c.g, s(g));
    assert_eq!(c.b, s(b));
}

#[test]
fn create_color() {
    assert_rgb(rgb(-0.5, 0.4, 1.7), -0.5, 0.4, 1.7);
}

#[test]
fn create_black() {
    assert_rgb(Color::black(), 0.0, 0.0, 0.0);
}

#[test]
fn create_white() {
    assert_rgb(Color::white(), 1.0, 1.0, 1.0);
}

#[test]
fn create_gray() {
    assert_rgb(Color::gray(), 0.5, 0.5, 0.5);
}

#[test]
fn create_red() {
    assert_rgb(Color::red(), 1.0, 0.0, 0.0);
}

#[test]
fn create_green() {
    assert_rgb(Color::green(), 0.0, 1.0, 0.0);
}

#[test]
fn create_blue() {
    assert_rgb(Color::blue(), 0.0, 0.0, 1.0);
}

#[test]
fn create_cyan() {
    assert_rgb(Color::cyan(), 0.0, 1.0, 1.0);
}

#[test]
fn create_magenta() {
    assert_rgb(Color::magenta(), 1.0, 0.0, 1.0);
}

#[test]
fn create_yellow() {
    assert_rgb(Color::yellow(), 1.0, 1.0, 0.0);
}

#[test]
fn add_colors() {
    let res = rgb(0.9, 0.6, 0.75).add(rgb(0.7, 0.1, 0.25));
    assert!(res.r.approx_eq(s(1.6)));
    assert!(res.g.approx_eq(s(0.7)));
    assert!(res.b.approx_eq(s(1.0)));
}

#[test]
fn subtract_colors() {
    let res = rgb(0.9, 0.6, 0.75).sub(rgb(0.7, 0.1, 0.25));
    assert!(res.r.approx_eq(s(0.2)));
    assert!(res.g.approx_eq(s(0.5)));
    assert!(res.b.approx_eq(s(0.5)));
}

#[test]
fn multiply_colors() {
    let res = rgb(1.0, 0.2, 0.4).mul(rgb(0.9, 1.0, 0.1));
    assert!(res.r.approx_eq(s(0.9)));
    assert!(res.g.approx_eq(s(0.2)));
    assert!(res.b.approx_eq(s(0.04)));
}

#[test]
fn multiply_color_by_scalar() {
    let c = rgb(-0.5, 0.4, 1.7);
    let res = c.scale(s(2.0));
    assert!(res.r.approx_eq(s(-1.0)));
    assert!(res.g.approx_eq(s(0.8)));
    assert!(res.b.approx_eq(s(3.4)));
    let res = c.scale(s(2.0));
    assert!(res.r.approx_eq(s(-1.0)));
    assert!(res.g.approx_eq(s(0.8)));
    assert!(res.b.approx_eq(s(3.4)));
}

#[test]
fn checked_color_operations() {
    let big = Color { r: Scalar::from_raw(i64::MAX), g: s(0.0), b: s(0.0) };
    assert_eq!(big.try_add(Color::white()), None);
    assert_eq!(big.try_scale(s(2.0)), None);
    assert_eq!(Color::white().try_mul(rgb(0.5, 0.25, 2.0)), Some(rgb(0.5, 0.25, 2.0)));
}
