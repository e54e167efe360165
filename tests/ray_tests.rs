use raytracer::{get_hit, Intersection, Material, Matrix, Point, Ray, Scalar, Sphere, Vector};

fn s(x: f64) -> Scalar {
    Scalar::from_raw((x * 1e9).round() as i64)
}

fn pt(x: f64, y: f64, z: f64) -> Point {
    Point { x: s(x), y: s(y), z: s(z) }
}

fn vc(x: f64, y: f64, z: f64) -> Vector {
    Vector { x: s(x), y: s(y), z: s(z) }
}

#[test]
fn create_ray() {
    let origin = pt(1.0, 2.0, 3.0);
    let direction = vc(4.0, 5.0, 6.0);
    let ray = Ray { origin, direction };
    assert_eq!(ray.origin, origin);
    assert_eq!(ray.direction, direction);
}

#[test]
fn compute_position_along_ray() {
    let ray = Ray { origin: pt(2.0, 3.0, 4.0), direction: vc(1.0, 0.0, 0.0) };
    assert_eq!(ray.position(s(0.0)), pt(2.0, 3.0, 4.0));
    assert_eq!(ray.position(s(1.0)), pt(3.0, 3.0, 4.0));
    assert_eq!(ray.position(s(-1.0)), pt(1.0, 3.0, 4.0));
    assert_eq!(ray.position(s(2.5)), pt(4.5, 3.0, 4.0));
}

#[test]
fn translate_ray() {
    let r = Ray { origin: pt(1.0, 2.0, 3.0), direction: vc(0.0, 1.0, 0.0) };
    let m = Matrix::translation(s(3.0), s(4.0), s(5.0));
    let r2 = r.transform(&m);
    assert_eq!(r2.origin, pt(4.0, 6.0, 8.0));
    assert_eq!(r2.direction, vc(0.0, 1.0, 0.0));
}

#[test]
fn scale_ray() {
    let r = Ray { origin: pt(1.0, 2.0, 3.0), direction: vc(0.0, 1.0, 0.0) };
    let m = Matrix::scaling(s(2.0), s(3.0), s(4.0));
    let r2 = r.transform(&m);
    assert_eq!(r2.origin, pt(2.0, 6.0, 12.0));
    assert_eq!(r2.direction, vc(0.0, 3.0, 0.0));
}

#[test]
fn transform_that_breaks_w_is_refused() {
    let r = Ray { origin: pt(1.0, 2.0, 3.0), direction: vc(0.0, 1.0, 0.0) };
    let m = Matrix::<4, 4>::ones();
    assert_eq!(r.try_transform(&m), None);
    let t = Matrix::translation(s(3.0), s(4.0), s(5.0));
    assert_eq!(r.try_transform(&t), Some(r.transform(&t)));
}

#[test]
fn intersect_sets_the_object_on_the_intersection() {
    let ray = Ray { origin: pt(0.0, 0.0, -5.0), direction: vc(0.0, 0.0, 1.0) };
    let sphere = Sphere::default();
    let xs = ray.intersect(sphere);
    assert_eq!(xs.len(), 2);
    assert_eq!(xs.first().unwrap().object, sphere);
    assert_eq!(xs.last().unwrap().object, sphere);
}

#[test]
fn ray_intersects_sphere_at_two_points() {
    let ray = Ray { origin: pt(0.0, 0.0, -5.0), direction: vc(0.0, 0.0, 1.0) };
    let xs = ray.intersect(Sphere::default());
    assert_eq!(xs.len(), 2);
    assert_eq!(xs.first().unwrap().t, s(4.0));
    assert_eq!(xs.last().unwrap().t, s(6.0));
}

#[test]
fn ray_intersects_sphere_at_tangent() {
    let ray = Ray { origin: pt(0.0, 1.0, -5.0), direction: vc(0.0, 0.0, 1.0) };
    let xs = ray.intersect(Sphere::default());
    assert_eq!(xs.len(), 2);
    assert_eq!(xs.first().unwrap().t, s(5.0));
    assert_eq!(xs.last().unwrap().t, s(5.0));
}

#[test]
fn ray_misses_sphere() {
    let ray = Ray { origin: pt(0.0, 2.0, -5.0), direction: vc(0.0, 0.0, 1.0) };
    let xs = ray.intersect(Sphere::default());
    assert_eq!(xs.len(), 0);
}

#[test]
fn ray_originates_inside_sphere() {
    let ray = Ray { origin: pt(0.0, 0.0, 0.0), direction: vc(0.0, 0.0, 1.0) };
    let xs = ray.intersect(Sphere::default());
    assert_eq!(xs.len(), 2);
    assert_eq!(xs.first().unwrap().t, s(-1.0));
    assert_eq!(xs.last().unwrap().t, s(1.0));
    assert_eq!(get_hit(&xs).unwrap().t, s(1.0));
}

#[test]
fn sphere_is_behind_ray() {
    let ray = Ray { origin: pt(0.0, 0.0, 5.0), direction: vc(0.0, 0.0, 1.0) };
    let xs = ray.intersect(Sphere::default());
    assert_eq!(xs.len(), 2);
    assert_eq!(xs.first().unwrap().t, s(-6.0));
    assert_eq!(xs.last().unwrap().t, s(-4.0));
}

#[test]
fn ray_intersects_scaled_sphere() {
    let ray = Ray { origin: pt(0.0, 0.0, -5.0), direction: vc(0.0, 0.0, 1.0) };
    let sphere = Sphere { transform: Matrix::scaling(s(2.0), s(2.0), s(2.0)), material: Material::default() };
    let xs = ray.intersect(sphere);
    assert_eq!(xs.len(), 2);
    assert_eq!(xs.first().unwrap().t, s(3.0));
    assert_eq!(xs.last().unwrap().t, s(7.0));
}

#[test]
fn ray_intersects_translated_sphere() {
    let ray = Ray { origin: pt(0.0, 0.0, -5.0), direction: vc(0.0, 0.0, 1.0) };
    let sphere = Sphere { transform: Matrix::translation(s(5.0), s(0.0), s(0.0)), material: Material::default() };
    let xs = ray.intersect(sphere);
    assert_eq!(xs.len(), 0);
}

#[test]
fn degenerate_sphere_is_never_hit() {
    let ray = Ray { origin: pt(0.0, 0.0, -5.0), direction: vc(0.0, 0.0, 1.0) };
    let sphere = Sphere { transform: Matrix::scaling(s(0.0), s(1.0), s(1.0)), material: Material::default() };
    assert_eq!(ray.intersect(sphere).len(), 0);
}

#[test]
fn zero_direction_meets_nothing() {
    let ray = Ray { origin: pt(0.0, 0.0, 0.0), direction: vc(0.0, 0.0, 0.0) };
    assert_eq!(ray.intersect(Sphere::default()).len(), 0);
}

#[test]
fn get_hit_when_all_intersections_have_positive_t() {
    let s0 = Sphere::default();
    let i1 = Intersection { t: s(1.0), object: s0 };
    let i2 = Intersection { t: s(2.0), object: s0 };
    let xs = vec![i1, i2];
    assert_eq!(get_hit(&xs), Some(i1));
}

#[test]
fn get_hit_when_some_intersections_have_negative_t() {
    let s0 = Sphere::default();
    let i1 = Intersection { t: s(-1.0), object: s0 };
    let i2 = Intersection { t: s(1.0), object: s0 };
    let xs = vec![i1, i2];
    assert_eq!(get_hit(&xs), Some(i2));
}

#[test]
fn get_hit_when_all_intersections_have_negative_t() {
    let s0 = Sphere::default();
    let i1 = Intersection { t: s(-2.0), object: s0 };
    let i2 = Intersection { t: s(-1.0), object: s0 };
    let xs = vec![i1, i2];
    assert_eq!(get_hit(&xs), None);
}

#[test]
fn get_hit_is_always_lowest_non_negative_t() {
    let s0 = Sphere::default();
    let i1 = Intersection { t: s(5.0), object: s0 };
    let i2 = Intersection { t: s(7.0), object: s0 };
    let i3 = Intersection { t: s(-3.0), object: s0 };
    let i4 = Intersection { t: s(2.0), object: s0 };
    let xs = vec![i1, i2, i3, i4];
    assert_eq!(get_hit(&xs), Some(i4));
}

#[test]
fn get_hit_skips_zero_and_takes_first_on_ties() {
    let a = Sphere::default();
    let b = Sphere { transform: Matrix::translation(s(1.0), s(0.0), s(0.0)), material: Material::default() };
    let i0 = Intersection { t: s(0.0), object: a };
    let i1 = Intersection { t: s(3.0), object: a };
    let i2 = Intersection { t: s(3.0), object: b };
    assert_eq!(get_hit(&[i0, i1, i2]), Some(i1));
    assert_eq!(get_hit(&[]), None);
}

#[test]
fn short_direction_still_meets_the_sphere() {
    let ray = Ray { origin: pt(0.0, 0.0, 0.0), direction: vc(0.00001, 0.0, 0.0) };
    let xs = ray.intersect(Sphere::default());
    assert_eq!(xs.len(), 2);
    assert_eq!(xs[0].t, s(-100000.0));
    assert_eq!(xs[1].t, s(100000.0));
}

#[test]
fn long_direction_gives_short_parameters() {
    let ray = Ray { origin: pt(0.0, 0.0, -5.0), direction: vc(0.0, 0.0, 2.0) };
    let xs = ray.intersect(Sphere::default());
    assert_eq!(xs.len(), 2);
    assert_eq!(xs[0].t, s(2.0));
    assert_eq!(xs[1].t, s(3.0));
}
