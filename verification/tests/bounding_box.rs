use pathtracer::bounding_box::{Aabb, Crossings};
use pathtracer::moving::Moving;
use pathtracer::scalar::Scalar;
use pathtracer::vec3::Vec3;
use rand::rngs::StdRng;
use rand::{Rng, SeedableRng};
use std::cmp::Ordering;

fn s(x: f64) -> Scalar {
    Scalar::from_bits(x.to_bits())
}

fn f(x: Scalar) -> f64 {
    f64::from_bits(x.to_bits())
}

fn v(x: f64, y: f64, z: f64) -> Vec3 {
    Vec3::new(s(x), s(y), s(z))
}

fn aabb(min: [f64; 3], max: [f64; 3]) -> Aabb {
    Aabb::new(v(min[0], min[1], min[2]), v(max[0], max[1], max[2]))
}

fn crossings(b: &Aabb, origin: [f64; 3], direction: [f64; 3]) -> Crossings {
    let mut inverse = [0.0; 3];
    let mut at_min = [0.0; 3];
    let mut at_max = [0.0; 3];
    for d in 0..3 {
        inverse[d] = direction[d].recip();
        at_min[d] = (f(b.min().get(d)) - origin[d]) * inverse[d];
        at_max[d] = (f(b.max().get(d)) - origin[d]) * inverse[d];
    }
    Crossings {
        inverse: v(inverse[0], inverse[1], inverse[2]),
        at_min: v(at_min[0], at_min[1], at_min[2]),
        at_max: v(at_max[0], at_max[1], at_max[2]),
    }
}

/// The slab test written out on the numbers themselves.
fn slab_test(b: &Aabb, origin: [f64; 3], direction: [f64; 3], mut t_min: f64, mut t_max: f64) -> bool {
    for d in 0..3 {
        let inv = direction[d].recip();
        let mut lo = (f(b.min().get(d)) - origin[d]) * inv;
        let mut hi = (f(b.max().get(d)) - origin[d]) * inv;
        if inv.is_sign_negative() {
            std::mem::swap(&mut lo, &mut hi);
        }
        t_min = t_min.max(lo);
        t_max = t_max.min(hi);
        if t_max <= t_min {
            return false;
        }
    }
    true
}

fn hit(b: &Aabb, origin: [f64; 3], direction: [f64; 3], t_min: f64, t_max: f64) -> bool {
    Aabb::hit(&crossings(b, origin, direction), s(t_min), s(t_max))
}

#[test]
fn new_keeps_the_corners() {
    let b = aabb([-1.0, 0.0, 2.0], [1.0, 0.0, 3.0]);
    assert_eq!(b.min(), v(-1.0, 0.0, 2.0));
    assert_eq!(b.max(), v(1.0, 0.0, 3.0));
}

#[test]
fn surrounding_is_the_componentwise_extreme() {
    let a = aabb([0.0, -2.0, 1.0], [1.0, 3.0, 2.0]);
    let b = aabb([-1.0, 0.0, 1.5], [0.5, 4.0, 1.75]);
    let u = Aabb::surrounding(&a, &b);
    assert_eq!(u.min(), v(-1.0, -2.0, 1.0));
    assert_eq!(u.max(), v(1.0, 4.0, 2.0));
    assert_eq!(Aabb::surrounding(&a, &a), a);
}

#[test]
fn surrounding_contains_both_and_is_smallest() {
    let mut rng = StdRng::seed_from_u64(11);
    for _ in 0..200 {
        let mut corners = [[0.0f64; 3]; 4];
        for c in corners.iter_mut() {
            for d in 0..3 {
                c[d] = rng.gen_range(-10.0, 10.0);
            }
        }
        let mut boxes = Vec::new();
        for pair in corners.chunks(2) {
            let mut lo = [0.0; 3];
            let mut hi = [0.0; 3];
            for d in 0..3 {
                lo[d] = pair[0][d].min(pair[1][d]);
                hi[d] = pair[0][d].max(pair[1][d]);
            }
            boxes.push(aabb(lo, hi));
        }
        let u = Aabb::surrounding(&boxes[0], &boxes[1]);
        for d in 0..3 {
            for b in &boxes {
                assert!(u.min().get(d).le(b.min().get(d)));
                assert!(b.max().get(d).le(u.max().get(d)));
            }
            let least = f(boxes[0].min().get(d)).min(f(boxes[1].min().get(d)));
            let most = f(boxes[0].max().get(d)).max(f(boxes[1].max().get(d)));
            assert_eq!(f(u.min().get(d)), least);
            assert_eq!(f(u.max().get(d)), most);
        }
    }
}

#[test]
fn cmp_min_axis_orders_by_the_minimum() {
    let a = aabb([0.0, 5.0, -1.0], [1.0, 6.0, 0.0]);
    let b = aabb([2.0, 5.0, -3.0], [9.0, 5.5, 0.0]);
    assert_eq!(a.cmp_min_axis(0, &b), Ordering::Less);
    assert_eq!(a.cmp_min_axis(1, &b), Ordering::Equal);
    assert_eq!(a.cmp_min_axis(2, &b), Ordering::Greater);
    assert_eq!(b.cmp_min_axis(0, &a), Ordering::Greater);
    let zero = aabb([0.0, 0.0, 0.0], [1.0, 1.0, 1.0]);
    let minus_zero = aabb([-0.0, -0.0, -0.0], [1.0, 1.0, 1.0]);
    assert_eq!(zero.cmp_min_axis(0, &minus_zero), Ordering::Equal);
}

#[test]
fn ray_through_the_interior_hits() {
    let b = aabb([-1.0, -1.0, -1.0], [1.0, 1.0, 1.0]);
    assert!(hit(&b, [0.0, 0.0, 5.0], [0.0, 0.0, -1.0], 0.0, f64::INFINITY));
    assert!(hit(&b, [-5.0, 0.5, 0.25], [1.0, 0.0, 0.0], 0.0, f64::INFINITY));
    assert!(hit(&b, [3.0, 3.0, 3.0], [-1.0, -1.0, -1.0], 0.0, f64::INFINITY));
    assert!(hit(&b, [0.0, 0.0, 0.0], [0.3, -0.2, 0.9], 0.0, f64::INFINITY));
}

#[test]
fn ray_outside_along_one_axis_misses() {
    let b = aabb([-1.0, -1.0, -1.0], [1.0, 1.0, 1.0]);
    // Parallel to the z axis, outside the slab of x.
    assert!(!hit(&b, [2.0, 0.0, 5.0], [0.0, 0.0, -1.0], 0.0, f64::INFINITY));
    // Outside the slab of y, running away from it.
    assert!(!hit(&b, [0.0, 3.0, 0.0], [1.0, 1.0, 0.0], 0.0, f64::INFINITY));
    // Pointing away from the box.
    assert!(!hit(&b, [0.0, 0.0, 5.0], [0.0, 0.0, 1.0], 0.0, f64::INFINITY));
    // The box lies behind the end of the interval.
    assert!(!hit(&b, [0.0, 0.0, 5.0], [0.0, 0.0, -1.0], 0.0, 3.5));
    // The box lies before the start of the interval.
    assert!(!hit(&b, [0.0, 0.0, 5.0], [0.0, 0.0, -1.0], 6.5, f64::INFINITY));
}

#[test]
fn slab_test_agrees_with_the_arithmetic() {
    let mut rng = StdRng::seed_from_u64(5);
    let b = aabb([-1.0, -0.5, 0.0], [1.0, 2.0, 0.25]);
    let mut hits = 0;
    for round in 0..2000 {
        let mut origin = [0.0; 3];
        let mut direction = [0.0; 3];
        for d in 0..3 {
            origin[d] = rng.gen_range(-3.0, 3.0);
            direction[d] = rng.gen_range(-1.0, 1.0);
        }
        // Every fourth ray is parallel to an axis plane, every eighth starts on a face.
        if round % 4 == 0 {
            direction[round % 3] = 0.0;
        }
        if round % 8 == 0 {
            direction[(round + 1) % 3] = -0.0;
            origin[round % 3] = f(b.min().get(round % 3));
        }
        let t_max = if round % 2 == 0 { f64::INFINITY } else { rng.gen_range(0.0, 6.0) };
        let expected = slab_test(&b, origin, direction, 0.001, t_max);
        assert_eq!(hit(&b, origin, direction, 0.001, t_max), expected);
        if expected {
            hits += 1;
        }
    }
    assert!(hits > 100 && hits < 1900);
}

#[test]
fn moving_box_covers_rest_and_end() {
    let at_rest = aabb([-0.2, 0.0, -0.2], [0.2, 0.4, 0.2]);
    let shifted = aabb([-0.2, 0.3, -0.2], [0.2, 0.7, 0.2]);
    let swept = Moving::<usize>::bounding_box(&at_rest, &shifted);
    assert_eq!(swept, aabb([-0.2, 0.0, -0.2], [0.2, 0.7, 0.2]));
    let m = Moving::new(v(0.0, 0.3, 0.0), 7usize);
    assert_eq!(m.velocity, v(0.0, 0.3, 0.0));
    assert_eq!(m.inner, 7);
}
