use raytracer::{ConversionError, Matrix, Point, Scalar, Vector};

fn s(x: f64) -> Scalar {
    Scalar::from_raw((x * 1e9).round() as i64)
}

fn pt(x: f64, y: f64, z: f64) -> Point {
    Point { x: s(x), y: s(y), z: s(z) }
}

fn vc(x: f64, y: f64, z: f64) -> Vector {
    Vector { x: s(x), y: s(y), z: s(z) }
}

fn column(x: f64, y: f64, z: f64, w: f64) -> Matrix<4, 1> {
    Matrix::new([[s(x)], [s(y)], [s(z)], [s(w)]])
}

fn assert_vector_approx_eq(a: Vector, b: Vector) {
    assert!(a.x.approx_eq(b.x));
    assert!(a.y.approx_eq(b.y));
    assert!(a.z.approx_eq(b.z));
}

#[test]
fn create_point() {
    let p = pt(4.3, -4.2, 3.1);
    assert_eq!(p.x, s(4.3));
    assert_eq!(p.y, s(-4.2));
    assert_eq!(p.z, s(3.1));
}

#[test]
fn create_origin() {
    let p = Point::origin();
    assert_eq!(p.x, s(0.0));
    assert_eq!(p.y, s(0.0));
    assert_eq!(p.z, s(0.0));
}

#[test]
fn create_vector() {
    let v = vc(4.3, -4.2, 3.1);
    assert_eq!(v.x, s(4.3));
    assert_eq!(v.y, s(-4.2));
    assert_eq!(v.z, s(3.1));
}

#[test]
fn matrix_from_point() {
    let m = Matrix::from_point(pt(0.0, 1.0, 2.0));
    assert_eq!(m, column(0.0, 1.0, 2.0, 1.0));
}

#[test]
fn matrix_from_vector() {
    let m = Matrix::from_vector(vc(0.0, 1.0, 2.0));
    assert_eq!(m, column(0.0, 1.0, 2.0, 0.0));
}

#[test]
fn point_from_matrix() {
    let p = Point::try_from_matrix(&column(0.0, 1.0, 2.0, 1.0)).unwrap();
    assert_eq!(p, pt(0.0, 1.0, 2.0));
    assert!(Point::try_from_matrix(&column(0.0, 1.0, 2.0, 0.0)).is_err());
    assert!(Point::try_from_matrix(&column(0.0, 1.0, 2.0, 0.5)).is_err());
}

#[test]
fn vector_from_matrix() {
    let v = Vector::try_from_matrix(&column(0.0, 1.0, 2.0, 0.0)).unwrap();
    assert_eq!(v, vc(0.0, 1.0, 2.0));
    assert!(Vector::try_from_matrix(&column(0.0, 1.0, 2.0, 1.0)).is_err());
    assert!(Vector::try_from_matrix(&column(0.0, 1.0, 2.0, 0.5)).is_err());
}

#[test]
fn conversion_error_carries_the_coordinates() {
    let e = Vector::try_from_matrix(&column(0.0, 1.0, 2.0, 0.5)).unwrap_err();
    assert_eq!(e, ConversionError { x: s(0.0), y: s(1.0), z: s(2.0), w: s(0.5) });
}

#[test]
fn add_vector_to_point() {
    let p = pt(3.0, -4.0, 5.0);
    let v = vc(-2.0, 3.0, 1.0);
    assert_eq!(p.add_vector(v), pt(1.0, -1.0, 6.0));
}

#[test]
fn add_point_to_vector() {
    let v = vc(-2.0, 3.0, 1.0);
    let p = pt(3.0, -4.0, 5.0);
    assert_eq!(v.add_point(p), pt(1.0, -1.0, 6.0));
}

#[test]
fn add_vector_and_vector() {
    let a = vc(3.0, -4.0, 5.0);
    let b = vc(-2.0, 3.0, 1.0);
    assert_eq!(a.add(b), vc(1.0, -1.0, 6.0));
}

#[test]
fn subtract_point_from_point() {
    let a = pt(3.0, 2.0, 7.0);
    let b = pt(5.0, 6.0, 1.0);
    assert_eq!(a.sub_point(b), vc(-2.0, -4.0, 6.0));
}

#[test]
fn subtract_vector_from_point() {
    let p = pt(3.0, 2.0, 7.0);
    let v = vc(5.0, 6.0, 1.0);
    assert_eq!(p.sub_vector(v), pt(-2.0, -4.0, 6.0));
}

#[test]
fn subtract_vector_from_vector() {
    let a = vc(3.0, 2.0, 7.0);
    let b = vc(5.0, 6.0, 1.0);
    assert_eq!(a.sub(b), vc(-2.0, -4.0, 6.0));
}

#[test]
fn negate_vector() {
    let v = vc(1.0, -2.0, 3.0);
    assert_eq!(v.neg(), vc(-1.0, 2.0, -3.0));
}

#[test]
fn scalar_multiplication_of_vector() {
    let v = vc(1.0, -2.0, 4.0);
    assert_eq!(v.mul(s(2.0)), vc(2.0, -4.0, 8.0));
    assert_eq!(v.mul(s(2.0)), vc(2.0, -4.0, 8.0));
    assert_eq!(v.mul(s(0.5)), vc(0.5, -1.0, 2.0));
    assert_eq!(v.mul(s(0.5)), vc(0.5, -1.0, 2.0));
}

#[test]
fn scalar_division_of_vector() {
    let v = vc(1.0, -2.0, 4.0);
    assert_eq!(v.div(s(2.0)), vc(0.5, -1.0, 2.0));
    assert_eq!(v.div(s(0.5)), vc(2.0, -4.0, 8.0));
}

#[test]
fn dot_product() {
    let a = vc(1.0, 2.0, 3.0);
    let b = vc(2.0, 3.0, 4.0);
    assert_eq!(a.dot(b), s(20.0));
    assert_eq!(b.dot(a), s(20.0));
}

#[test]
fn squared_length_calculation() {
    assert_eq!(vc(1.0, 0.0, 0.0).squared_length(), s(1.0));
    assert_eq!(vc(0.0, 1.0, 0.0).squared_length(), s(1.0));
    assert_eq!(vc(0.0, 0.0, 1.0).squared_length(), s(1.0));
    assert_eq!(vc(1.0, 2.0, 3.0).squared_length(), s(14.0));
    assert_eq!(vc(-1.0, -2.0, -3.0).squared_length(), s(14.0));
}

#[test]
fn length_calculation() {
    assert_eq!(vc(1.0, 0.0, 0.0).length(), s(1.0));
    assert_eq!(vc(0.0, 1.0, 0.0).length(), s(1.0));
    assert_eq!(vc(0.0, 0.0, 1.0).length(), s(1.0));
    assert_eq!(vc(1.0, 2.0, 3.0).length(), s(14.0).sqrt());
    assert_eq!(vc(-1.0, -2.0, -3.0).length(), s(14.0).sqrt());
}

#[test]
fn normalization() {
    let v = vc(4.0, 0.0, 0.0);
    let u = vc(1.0, 0.0, 0.0);
    assert_eq!(v.normalize(), u);
    let v = vc(1.0, 2.0, 3.0);
    let u = v.normalize();
    let norm = 14.0_f64.sqrt();
    assert_vector_approx_eq(u, vc(1.0 / norm, 2.0 / norm, 3.0 / norm));
}

#[test]
fn normalized_vector_has_unit_length() {
    for v in [vc(1.0, 2.0, 3.0), vc(-0.3, 0.04, 7.5), vc(1000.0, -2000.0, 0.5)] {
        assert!(v.normalize().length().approx_eq(s(1.0)));
    }
}

#[test]
fn cross_product() {
    let a = vc(1.0, 2.0, 3.0);
    let b = vc(2.0, 3.0, 4.0);
    let axb = vc(-1.0, 2.0, -1.0);
    let bxa = vc(1.0, -2.0, 1.0);
    assert_eq!(a.cross(b), axb);
    assert_eq!(b.cross(a), bxa);
}

#[test]
fn cross_product_is_anticommutative() {
    let a = vc(0.3, -2.25, 7.0);
    let b = vc(-1.5, 0.125, 4.0);
    assert_eq!(a.cross(b), b.cross(a).neg());
}

#[test]
fn reflect_about_normal() {
    let v = vc(1.0, -1.0, 0.0);
    let n = vc(0.0, 1.0, 0.0);
    assert_eq!(v.reflect(n), vc(1.0, 1.0, 0.0));
    assert_eq!(v.try_reflect(n), Some(vc(1.0, 1.0, 0.0)));
}

#[test]
fn point_to_string() {
    let p = pt(4.3, -4.2, 3.1);
    assert_eq!(p.to_string(), "Point [4.3, -4.2, 3.1]");
    assert_eq!(p.to_string_places(2, true), "Point [+4.30, -4.20, +3.10]");
}

#[test]
fn vector_to_string() {
    let v = vc(4.3, -4.2, 3.1);
    assert_eq!(v.to_string(), "Vector [4.3, -4.2, 3.1]");
    assert_eq!(v.to_string_places(2, true), "Vector [+4.30, -4.20, +3.10]");
}

#[test]
fn scalar_text_forms() {
    assert_eq!(s(1.0).to_string(), "1");
    assert_eq!(s(-0.5).to_string(), "-0.5");
    assert_eq!(s(3.09).to_string(), "3.09");
    assert_eq!(Scalar::from_raw(1).to_string(), "0.000000001");
    let mut t = String::new();
    s(2.345).push_text_places(&mut t, 2, false);
    assert_eq!(t, "2.35");
    let mut t = String::new();
    s(-7.0).push_text_places(&mut t, 0, true);
    assert_eq!(t, "-7");
}

#[test]
fn short_vector_normalizes_to_unit_length() {
    let v = vc(0.001234567, 0.0, 0.0);
    let n = v.normalize();
    assert_eq!(n, vc(1.0, 0.0, 0.0));
    let w = vc(0.0001, -0.0002, 0.00005);
    assert!(w.normalize().length().approx_eq(s(1.0)));
    assert_eq!(vc(0.00001, 0.0, 0.0).normalize(), vc(1.0, 0.0, 0.0));
}

#[test]
fn length_is_exact_square_root_rounded_down() {
    assert_eq!(vc(0.001234567, 0.0, 0.0).length(), s(0.001234567));
    assert_eq!(vc(0.000003, 0.000004, 0.0).length(), s(0.000005));
    assert_eq!(Vector { x: Scalar::from_raw(i64::MAX), y: Scalar::from_raw(i64::MAX), z: s(0.0) }.try_length(), None);
}
