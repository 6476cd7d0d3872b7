//! Shapes and the point at which a ray punctures one.

use vstd::prelude::*;
use crate::scalar::Scalar;
use crate::vec3::{Point, Vec3};

verus! {

/// The point at which a ray punctures a shape.
#[derive(Clone, Copy, Debug, PartialEq, Eq)]
pub struct Puncture {
    /// The point in space.
    pub point: Point,
    /// Whether the ray comes from outside: the outward normal points
    /// against it.
    pub front_face: bool,
    /// The normal at the point, turned so that it points against the ray.
    pub normal: Vec3,
    pub texture_coordinates: (Scalar, Scalar),
}

impl Puncture {
    /// The puncture at `point`, where the surface has the given outward
    /// normal and `alignment` is the dot product of that normal with the
    /// direction of the incoming ray.
    ///
    /// The ray hits the front face where the alignment is negative. The
    /// normal kept is the outward one there, and its opposite elsewhere.
    pub fn from_outward_normal(point: Point, outward_normal: Vec3, alignment: Scalar) -> (r:
        Puncture)
        ensures
            r.point == point,
            r.front_face == alignment.lt(Scalar::zero()),
            r.normal == if r.front_face {
                outward_normal
            } else {
                outward_normal.neg()
            },
            r.texture_coordinates == (Scalar::zero(), Scalar::zero()),
    {
        let front_face = alignment.lt(Scalar::zero());
        Puncture {
            point,
            front_face,
            normal: if front_face {
                outward_normal
            } else {
                outward_normal.neg()
            },
            texture_coordinates: (Scalar::zero(), Scalar::zero()),
        }
    }
}

/// A sphere, by its centre and radius.
#[derive(Clone, Copy, Debug, PartialEq, Eq, Structural)]
pub struct Sphere {
    pub center: Point,
    pub radius: Scalar,
}

/// `t` lies strictly between the two bounds.
pub open spec fn strictly_within(t: Scalar, t_min: Scalar, t_max: Scalar) -> bool {
    t_min.lt(t) && t.lt(t_max)
}

/// The root at which a ray is taken to hit a sphere.
///
/// `discriminant` is that of the quadratic in the ray's parameter, `near`
/// its smaller and `far` its larger root. There is no hit where the
/// discriminant is negative. Else the smaller root counts if it lies
/// strictly within `(t_min, t_max)`, else the larger one under the same
/// test, else nothing.
pub open spec fn accepted_root(
    discriminant: Scalar,
    near: Scalar,
    far: Scalar,
    t_min: Scalar,
    t_max: Scalar,
) -> Option<Scalar> {
    if discriminant.lt(Scalar::zero()) {
        None
    } else if strictly_within(near, t_min, t_max) {
        Some(near)
    } else if strictly_within(far, t_min, t_max) {
        Some(far)
    } else {
        None
    }
}

impl Sphere {
    pub fn new(center: Point, radius: Scalar) -> (r: Sphere)
        ensures
            r == (Sphere { center, radius }),
    {
        Sphere { center, radius }
    }

    /// The parameter at which a ray hits the sphere within
    /// `(t_min, t_max)`, chosen among the roots of the quadratic.
    pub fn intersect(
        discriminant: Scalar,
        near: Scalar,
        far: Scalar,
        t_min: Scalar,
        t_max: Scalar,
    ) -> (r: Option<Scalar>)
        ensures
            r == accepted_root(discriminant, near, far, t_min, t_max),
            r matches Some(t) ==> strictly_within(t, t_min, t_max) && !t.is_nan(),
    {
        if discriminant.lt(Scalar::zero()) {
            return None;
        }
        if t_min.lt(near) && near.lt(t_max) {
            Some(near)
        } else if t_min.lt(far) && far.lt(t_max) {
            Some(far)
        } else {
            None
        }
    }
}

} // verus!
