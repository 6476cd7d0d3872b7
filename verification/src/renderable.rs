//! What comes of sending a ray into the scene.

use vstd::prelude::*;
use crate::material::ScatterResult;
use crate::ray::Ray;
use crate::shape::Puncture;
use crate::vec3::Color;

verus! {

/// What becomes of a ray in the scene.
#[derive(Clone, Copy, Debug, PartialEq, Eq)]
pub enum HitCheck {
    /// The ray hits nothing.
    Miss,
    /// The ray hits an object and is absorbed by it.
    Absorbed,
    /// The ray hits an object and is scattered at its surface.
    Reflected { attenuation: Color, scattered: Ray },
}

/// The outcome for a ray, from what it hits and what the surface there
/// makes of it.
///
/// `hit` is `None` where the ray hits nothing. Else it holds the puncture
/// and what the material answered: a ray that is scattered goes on from the
/// point of the puncture.
pub fn hit_check(hit: Option<(Puncture, Option<ScatterResult>)>) -> (r: HitCheck)
    ensures
        r == match hit {
            None => HitCheck::Miss,
            Some((_, None)) => HitCheck::Absorbed,
            Some((intersection, Some(scattered))) => HitCheck::Reflected {
                attenuation: scattered.attenuation,
                scattered: Ray { origin: intersection.point, direction: scattered.direction },
            },
        },
{
    match hit {
        None => HitCheck::Miss,
        Some((_, None)) => HitCheck::Absorbed,
        Some((intersection, Some(scattered))) => HitCheck::Reflected {
            attenuation: scattered.attenuation,
            scattered: Ray::new(intersection.point, scattered.direction),
        },
    }
}

} // verus!
