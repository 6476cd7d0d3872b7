//! Rays: half-lines given by an origin and a direction.

use vstd::prelude::*;
use crate::vec3::{Point, Vec3};

verus! {

/// The points `origin + t * direction`. The direction need not have length
/// one: a parameter `t` is meant along the direction as it stands.
#[derive(Clone, Copy, Debug, PartialEq, Eq, Structural)]
pub struct Ray {
    pub origin: Point,
    pub direction: Vec3,
}

impl Ray {
    pub fn new(origin: Point, direction: Vec3) -> (r: Ray)
        ensures
            r == (Ray { origin, direction }),
    {
        Ray { origin, direction }
    }
}

} // verus!
