use raytracer::{Material, Matrix, Point, Scalar, Sphere, Vector};
use std::f64::consts::{FRAC_1_SQRT_2, PI};

fn s(x: f64) -> Scalar {
    Scalar::from_raw((x * 1e9).round() as i64)
}

fn pt(x: f64, y: f64, z: f64) -> Point {
    Point { x: s(x), y: s(y), z: s(z) }
}

fn vc(x: f64, y: f64, z: f64) -> Vector {
    Vector { x: s(x), y: s(y), z: s(z) }
}

fn assert_tuple_approx_eq(a: Vector, b: Vector) {
    assert!(a.x.approx_eq(b.x), "{:?} {:?}", a, b);
    assert!(a.y.approx_eq(b.y), "{:?} {:?}", a, b);
    assert!(a.z.approx_eq(b.z), "{:?} {:?}", a, b);
}

#[test]
fn sphere_default_constructor() {
    let sphere = Sphere::default();
    assert_eq!(sphere.transform, Matrix::<4, 4>::identity());
    assert_eq!(sphere.material, Material::default());
}

#[test]
fn sphere_with_non_default_transform() {
    let transform = Matrix::translation(s(2.0), s(3.0), s(4.0));
    let sphere = Sphere { transform, material: Material::default() };
    for i in 0..4 {
        for j in 0..4 {
            assert!(sphere.transform.data[i][j].approx_eq(transform.data[i][j]));
        }
    }
}

#[test]
fn normal_on_a_sphere_at_a_point_on_x_axis() {
    let n = Sphere::default().normal_at(pt(1.0, 0.0, 0.0));
    assert_tuple_approx_eq(n, vc(1.0, 0.0, 0.0));
}

#[test]
fn normal_on_a_sphere_at_a_point_on_y_axis() {
    let n = Sphere::default().normal_at(pt(0.0, 1.0, 0.0));
    assert_tuple_approx_eq(n, vc(0.0, 1.0, 0.0));
}

#[test]
fn normal_on_a_sphere_at_a_point_on_z_axis() {
    let n = Sphere::default().normal_at(pt(0.0, 0.0, 1.0));
    assert_tuple_approx_eq(n, vc(0.0, 0.0, 1.0));
}

#[test]
fn normal_on_a_sphere_at_a_non_axial_point() {
    let v = 3.0_f64.sqrt() / 3.0;
    let n = Sphere::default().normal_at(pt(v, v, v));
    assert_tuple_approx_eq(n, vc(v, v, v));
}

#[test]
fn normal_is_a_normalized_vector() {
    let v = 3.0_f64.sqrt() / 3.0;
    let n = Sphere::default().normal_at(pt(v, v, v));
    assert_tuple_approx_eq(n, n.normalize());
}

#[test]
fn normal_on_a_translated_sphere() {
    let sphere = Sphere { transform: Matrix::translation(s(0.0), s(1.0), s(0.0)), material: Material::default() };
    let n = sphere.normal_at(pt(0.0, 1.0 + FRAC_1_SQRT_2, -FRAC_1_SQRT_2));
    assert_tuple_approx_eq(n, vc(0.0, FRAC_1_SQRT_2, -FRAC_1_SQRT_2));
}

#[test]
fn normal_on_a_transformed_sphere() {
    let (sin, cos) = (PI / 5.0).sin_cos();
    let sphere = Sphere {
        transform: Matrix::scaling(s(1.0), s(0.5), s(1.0)).matmul(&Matrix::rotation_z(s(sin), s(cos))),
        material: Material::default(),
    };
    let n = sphere.normal_at(pt(0.0, FRAC_1_SQRT_2, -FRAC_1_SQRT_2));
    assert_tuple_approx_eq(n, vc(0.0, 0.9701425001453319, -0.24253562503633294));
}

#[test]
fn normal_of_degenerate_sphere_is_undefined() {
    let sphere = Sphere { transform: Matrix::scaling(s(0.0), s(1.0), s(1.0)), material: Material::default() };
    assert_eq!(sphere.try_normal_at(pt(0.0, 1.0, 0.0)), None);
    assert_eq!(Sphere::default().try_normal_at(pt(0.0, 0.0, 0.0)), None);
}

#[test]
fn normal_near_the_center_is_a_unit_vector() {
    let n = Sphere::default().normal_at(pt(0.001234567, 0.0, 0.0));
    assert_tuple_approx_eq(n, vc(1.0, 0.0, 0.0));
}
