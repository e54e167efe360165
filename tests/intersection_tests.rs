use raytracer::{Color, Intersection, Point, PointLight, Scalar, Sphere};

fn s(x: f64) -> Scalar {
    Scalar::from_raw((x * 1e9).round() as i64)
}

#[test]
fn create_intersection() {
    let sphere = Sphere::default();
    let intersection = Intersection { t: s(3.5), object: sphere };
    assert_eq!(intersection.t, s(3.5));
    assert_eq!(intersection.object, sphere);
    assert_eq!(Intersection::new(s(3.5), sphere), intersection);
}

#[test]
fn aggregate_intersections() {
    let sphere = Sphere::default();
    let i1 = Intersection { t: s(1.0), object: sphere };
    let i2 = Intersection { t: s(2.0), object: sphere };
    let intersections = [i1, i2];
    assert_eq!(intersections.len(), 2);
    assert_eq!(intersections.first().unwrap().t, s(1.0));
    assert_eq!(intersections.last().unwrap().t, s(2.0));
}

#[test]
fn create_point_light() {
    let position = Point::origin();
    let intensity = Color::white();
    let light = PointLight { position, intensity };
    assert_eq!(light.position, position);
    assert_eq!(light.intensity, intensity);
}
