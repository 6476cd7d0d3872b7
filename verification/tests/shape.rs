use pathtracer::hittable::{closest_so_far, keep_nearest, Hit};
use pathtracer::material::ScatterResult;
use pathtracer::ray::Ray;
use pathtracer::renderable::{hit_check, HitCheck};
use pathtracer::scalar::Scalar;
use pathtracer::shape::{Puncture, Sphere};
use pathtracer::vec3::Vec3;

fn s(x: f64) -> Scalar {
    Scalar::from_bits(x.to_bits())
}

fn f(x: Scalar) -> f64 {
    f64::from_bits(x.to_bits())
}

fn v(x: f64, y: f64, z: f64) -> Vec3 {
    Vec3::new(s(x), s(y), s(z))
}

fn dot(a: [f64; 3], b: [f64; 3]) -> f64 {
    a[0] * b[0] + a[1] * b[1] + a[2] * b[2]
}

/// The intersection of a ray with a sphere: the arithmetic here, the choice
/// of the root and of the normal's side by the library.
fn intersect(
    sphere: &Sphere,
    origin: [f64; 3],
    direction: [f64; 3],
    t_min: f64,
    t_max: f64,
) -> Option<(f64, Puncture)> {
    let center = [f(sphere.center.x), f(sphere.center.y), f(sphere.center.z)];
    let radius = f(sphere.radius);
    let o = [origin[0] - center[0], origin[1] - center[1], origin[2] - center[2]];
    let a = dot(direction, direction);
    let half_b = dot(direction, o);
    let c = dot(o, o) - radius * radius;
    let discriminant = half_b * half_b - a * c;
    let root = discriminant.sqrt();
    let near = (-half_b - root) / a;
    let far = (-half_b + root) / a;
    let t = f(Sphere::intersect(s(discriminant), s(near), s(far), s(t_min), s(t_max))?);
    let point = [
        origin[0] + t * direction[0],
        origin[1] + t * direction[1],
        origin[2] + t * direction[2],
    ];
    let outward = [
        (point[0] - center[0]) / radius,
        (point[1] - center[1]) / radius,
        (point[2] - center[2]) / radius,
    ];
    Some((
        t,
        Puncture::from_outward_normal(
            v(point[0], point[1], point[2]),
            v(outward[0], outward[1], outward[2]),
            s(dot(outward, direction)),
        ),
    ))
}

#[test]
fn ray_toward_the_origin_hits_the_near_side() {
    let sphere = Sphere::new(v(0.0, 0.0, 0.0), s(0.5));
    let (t, puncture) =
        intersect(&sphere, [0.0, 0.0, 5.0], [0.0, 0.0, -1.0], 0.001, f64::INFINITY).unwrap();
    assert_eq!(t, 4.5);
    assert_eq!(puncture.point, v(0.0, 0.0, 0.5));
    assert_eq!(puncture.normal, v(0.0, 0.0, 1.0));
    assert!(puncture.front_face);
    assert_eq!(puncture.texture_coordinates, (s(0.0), s(0.0)));
}

#[test]
fn ray_from_inside_hits_the_far_side_from_behind() {
    let sphere = Sphere::new(v(0.0, 0.0, 0.0), s(2.0));
    let (t, puncture) =
        intersect(&sphere, [0.0, 0.0, 0.0], [0.0, 0.0, -1.0], 0.001, f64::INFINITY).unwrap();
    assert_eq!(t, 2.0);
    assert!(!puncture.front_face);
    // The outward normal is (0, 0, -1); the one kept points against the ray.
    assert_eq!(f(puncture.normal.z), 1.0);
}

#[test]
fn tangent_ray_yields_one_root() {
    let sphere = Sphere::new(v(0.0, 0.0, 0.0), s(1.0));
    let hit = intersect(&sphere, [1.0, 0.0, 5.0], [0.0, 0.0, -1.0], 0.001, f64::INFINITY);
    let (t, puncture) = hit.unwrap();
    assert_eq!(t, 5.0);
    assert_eq!(puncture.point, v(1.0, 0.0, 0.0));
    // Both roots coincide, and the one beyond the first does not count again.
    assert_eq!(intersect(&sphere, [1.0, 0.0, 5.0], [0.0, 0.0, -1.0], 5.0, f64::INFINITY), None);
    assert_eq!(intersect(&sphere, [1.0, 0.0, 5.0], [0.0, 0.0, -1.0], 0.001, 5.0), None);
}

#[test]
fn ray_past_the_sphere_misses() {
    let sphere = Sphere::new(v(0.0, 0.0, 0.0), s(1.0));
    assert_eq!(intersect(&sphere, [1.5, 0.0, 5.0], [0.0, 0.0, -1.0], 0.001, f64::INFINITY), None);
}

#[test]
fn roots_count_only_strictly_within_the_interval() {
    let pick = |d: f64, near: f64, far: f64, t_min: f64, t_max: f64| {
        Sphere::intersect(s(d), s(near), s(far), s(t_min), s(t_max)).map(f)
    };
    assert_eq!(pick(1.0, 2.0, 4.0, 0.0, 10.0), Some(2.0));
    assert_eq!(pick(1.0, 2.0, 4.0, 2.0, 10.0), Some(4.0));
    assert_eq!(pick(1.0, 2.0, 4.0, 3.0, 10.0), Some(4.0));
    assert_eq!(pick(1.0, 2.0, 4.0, 0.0, 2.0), None);
    assert_eq!(pick(1.0, 2.0, 4.0, 2.0, 4.0), None);
    assert_eq!(pick(1.0, 2.0, 4.0, 4.0, 10.0), None);
    assert_eq!(pick(1.0, -4.0, -2.0, 0.001, f64::INFINITY), None);
    assert_eq!(pick(1.0, -4.0, 2.0, 0.001, f64::INFINITY), Some(2.0));
    assert_eq!(pick(0.0, 3.0, 3.0, 0.0, 10.0), Some(3.0));
    // A negative discriminant is no hit, whatever stands for the roots.
    assert_eq!(pick(-1.0, 2.0, 4.0, 0.0, 10.0), None);
    assert_eq!(pick(-1.0e-300, f64::NAN, f64::NAN, 0.0, 10.0), None);
    assert_eq!(pick(f64::NAN, f64::NAN, f64::NAN, 0.0, 10.0), None);
    assert_eq!(pick(-0.0, 3.0, 3.0, 0.0, 10.0), Some(3.0));
}

#[test]
fn normal_is_turned_against_the_ray() {
    let point = v(1.0, 2.0, 3.0);
    let outward = v(0.0, 1.0, 0.0);
    let front = Puncture::from_outward_normal(point, outward, s(-0.5));
    assert!(front.front_face);
    assert_eq!(front.normal, outward);
    assert_eq!(front.point, point);
    let back = Puncture::from_outward_normal(point, outward, s(0.5));
    assert!(!back.front_face);
    assert_eq!(back.normal, v(-0.0, -1.0, -0.0));
    let grazing = Puncture::from_outward_normal(point, outward, s(0.0));
    assert!(!grazing.front_face);
    assert_eq!(grazing.normal, outward.neg());
    let undefined = Puncture::from_outward_normal(point, outward, s(f64::NAN));
    assert!(!undefined.front_face);
}

#[test]
fn linear_scan_narrows_the_interval() {
    let none: Option<(Scalar, usize)> = None;
    assert_eq!(closest_so_far(&none, s(f64::INFINITY)), s(f64::INFINITY));
    assert_eq!(closest_so_far(&Some((s(3.0), 1usize)), s(f64::INFINITY)), s(3.0));
    assert_eq!(keep_nearest(none, Some((s(3.0), 1usize))), Some((s(3.0), 1)));
    assert_eq!(keep_nearest(Some((s(3.0), 1usize)), None), Some((s(3.0), 1)));
    assert_eq!(keep_nearest(Some((s(3.0), 1usize)), Some((s(2.0), 2))), Some((s(2.0), 2)));
    assert_eq!(keep_nearest(none, none), None);

    // Three spheres along the ray: the scan ends with the nearest.
    let spheres = [
        Sphere::new(v(0.0, 0.0, -4.0), s(1.0)),
        Sphere::new(v(0.0, 0.0, 0.0), s(1.0)),
        Sphere::new(v(0.0, 0.0, -8.0), s(1.0)),
    ];
    let mut found_so_far: Option<(Scalar, Hit)> = None;
    for (object, sphere) in spheres.iter().enumerate() {
        let bound = f(closest_so_far(&found_so_far, s(f64::INFINITY)));
        let found = intersect(sphere, [0.0, 0.0, 5.0], [0.0, 0.0, -1.0], 0.001, bound)
            .map(|(t, puncture)| (s(t), Hit::new(puncture, object)));
        found_so_far = keep_nearest(found_so_far, found);
    }
    let (t, hit) = found_so_far.unwrap();
    assert_eq!(f(t), 4.0);
    assert_eq!(hit.object, 1);
    assert_eq!(hit.intersection.point, v(0.0, 0.0, 1.0));
}

#[test]
fn hit_check_has_three_outcomes() {
    let puncture = Puncture::from_outward_normal(v(1.0, 2.0, 3.0), v(0.0, 1.0, 0.0), s(-1.0));
    assert_eq!(hit_check(None), HitCheck::Miss);
    assert_eq!(hit_check(Some((puncture, None))), HitCheck::Absorbed);
    let scattered = ScatterResult { attenuation: v(0.5, 0.6, 0.7), direction: v(1.0, 1.0, 0.0) };
    assert_eq!(
        hit_check(Some((puncture, Some(scattered)))),
        HitCheck::Reflected {
            attenuation: v(0.5, 0.6, 0.7),
            scattered: Ray::new(v(1.0, 2.0, 3.0), v(1.0, 1.0, 0.0)),
        }
    );
}
