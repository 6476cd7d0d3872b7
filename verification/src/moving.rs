//! Objects that move at a constant velocity while the shutter is open.

use vstd::prelude::*;
use crate::bounding_box::Aabb;
use crate::vec3::Vec3;

verus! {

/// An object together with the velocity at which it moves.
#[derive(Debug, PartialEq, Eq)]
pub struct Moving<H> {
    pub velocity: Vec3,
    pub inner: H,
}

impl<H> Moving<H> {
    pub fn new(velocity: Vec3, inner: H) -> (r: Self)
        ensures
            r.velocity == velocity,
            r.inner == inner,
    {
        Self { velocity, inner }
    }

    /// The box around the object for the whole exposure: the one around
    /// its box at rest and that box shifted to where the object ends up.
    pub fn bounding_box(at_rest: &Aabb, shifted: &Aabb) -> (r: Aabb)
        ensures
            r == Aabb::surrounding(at_rest, shifted),
            r.contains(*at_rest),
            r.contains(*shifted),
    {
        Aabb::surrounding(at_rest, shifted)
    }
}

} // verus!
