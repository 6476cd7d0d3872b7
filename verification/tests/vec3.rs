use pathtracer::ray::Ray;
use pathtracer::scalar::Scalar;
use pathtracer::vec3::{Color, Point, Vec3};

fn s(x: f64) -> Scalar {
    Scalar::from_bits(x.to_bits())
}

fn v(x: f64, y: f64, z: f64) -> Vec3 {
    Vec3::new(s(x), s(y), s(z))
}

#[test]
fn components_come_back() {
    let a = v(1.0, -2.0, 3.5);
    assert_eq!(a.x(), s(1.0));
    assert_eq!(a.y(), s(-2.0));
    assert_eq!(a.z(), s(3.5));
    assert_eq!(a.get(0), s(1.0));
    assert_eq!(a.get(1), s(-2.0));
    assert_eq!(a.get(2), s(3.5));
}

#[test]
fn neg_flips_every_component() {
    assert_eq!(v(1.0, -2.0, 0.0).neg(), v(-1.0, 2.0, -0.0));
    assert_eq!(v(1.0, -2.0, 0.0).neg().neg(), v(1.0, -2.0, 0.0));
}

#[test]
fn points_and_colours_are_vectors() {
    let p: Point = v(1.0, 2.0, 3.0);
    let c: Color = v(0.5, 0.7, 1.0);
    assert_eq!(p.x, s(1.0));
    assert_eq!(c.z, s(1.0));
}

#[test]
fn ray_keeps_origin_and_direction() {
    let r = Ray::new(v(0.0, 0.0, 5.0), v(0.0, 0.0, -1.0));
    assert_eq!(r.origin, v(0.0, 0.0, 5.0));
    assert_eq!(r.direction, v(0.0, 0.0, -1.0));
}
