use raytracer::{Color, Material, Point, PointLight, Scalar, Vector};
use std::f64::consts::FRAC_1_SQRT_2;

fn s(x: f64) -> Scalar {
    Scalar::from_raw((x * 1e9).round() as i64)
}

fn pt(x: f64, y: f64, z: f64) -> Point {
    Point { x: s(x), y: s(y), z: s(z) }
}

fn vc(x: f64, y: f64, z: f64) -> Vector {
    Vector { x: s(x), y: s(y), z: s(z) }
}

fn gray(v: f64) -> Color {
    Color { r: s(v), g: s(v), b: s(v) }
}

fn assert_color_approx_eq(a: Color, b: Color) {
    assert!(a.r.approx_eq(b.r), "{:?} {:?}", a, b);
    assert!(a.g.approx_eq(b.g), "{:?} {:?}", a, b);
    assert!(a.b.approx_eq(b.b), "{:?} {:?}", a, b);
}

fn white_light(x: f64, y: f64, z: f64) -> PointLight {
    PointLight { position: pt(x, y, z), intensity: Color::white() }
}

#[test]
fn create_default_material() {
    let m = Material::default();
    assert_eq!(m.color, Color::white());
    assert_eq!(m.ambient, s(0.1));
    assert_eq!(m.diffuse, s(0.9));
    assert_eq!(m.specular, s(0.9));
    assert_eq!(m.shininess, s(200.0));
}

#[test]
fn lighting_with_eye_between_light_and_surface() {
    let m = Material::default();
    let c = m.lighting(white_light(0.0, 0.0, -10.0), Point::origin(), vc(0.0, 0.0, -1.0), vc(0.0, 0.0, -1.0));
    assert_color_approx_eq(c, gray(1.9));
}

#[test]
fn lighting_with_eye_between_light_and_surface_eye_offset_45_degree() {
    let m = Material::default();
    let eye = vc(0.0, FRAC_1_SQRT_2, -FRAC_1_SQRT_2);
    let c = m.lighting(white_light(0.0, 0.0, -10.0), Point::origin(), eye, vc(0.0, 0.0, -1.0));
    assert_color_approx_eq(c, gray(1.0));
}

#[test]
fn lighting_with_eye_opposite_surface_and_light_offset_45_degree() {
    let m = Material::default();
    let c = m.lighting(white_light(0.0, 10.0, -10.0), Point::origin(), vc(0.0, 0.0, -1.0), vc(0.0, 0.0, -1.0));
    assert_color_approx_eq(c, gray(0.7364));
}

#[test]
fn lighting_with_eye_in_the_path_of_the_reflection_vector() {
    let m = Material::default();
    let eye = vc(0.0, -FRAC_1_SQRT_2, -FRAC_1_SQRT_2);
    let c = m.lighting(white_light(0.0, 10.0, -10.0), Point::origin(), eye, vc(0.0, 0.0, -1.0));
    assert_color_approx_eq(c, gray(1.6364));
}

#[test]
fn lighting_with_eye_behind_the_surface() {
    let m = Material::default();
    let c = m.lighting(white_light(0.0, 0.0, 10.0), Point::origin(), vc(0.0, 0.0, -1.0), vc(0.0, 0.0, -1.0));
    assert_color_approx_eq(c, gray(0.1));
}

#[test]
fn lighting_with_light_at_the_point_is_undefined() {
    let m = Material::default();
    let c = m.try_lighting(white_light(0.0, 0.0, 0.0), Point::origin(), vc(0.0, 0.0, -1.0), vc(0.0, 0.0, -1.0));
    assert_eq!(c, None);
}

#[test]
fn lighting_uses_material_color() {
    let m = Material { color: Color { r: s(1.0), g: s(0.5), b: s(0.0) }, ..Material::default() };
    let c = m.lighting(white_light(0.0, 0.0, 10.0), Point::origin(), vc(0.0, 0.0, -1.0), vc(0.0, 0.0, -1.0));
    assert_eq!(c, Color { r: s(0.1), g: s(0.05), b: s(0.0) });
}

#[test]
fn lighting_uses_fractional_shininess() {
    let m = Material { shininess: s(0.5), ..Material::default() };
    let c = m.lighting(white_light(0.0, 0.0, -10.0), Point::origin(), vc(0.0, 0.0, -0.25), vc(0.0, 0.0, -1.0));
    assert_color_approx_eq(c, gray(1.45));
}
