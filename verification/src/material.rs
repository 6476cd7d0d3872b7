//! Materials: what becomes of a ray at a surface.
//!
//! A material either scatters a ray, in a direction and with a colour by
//! which the light is attenuated, or absorbs it. The directions are worked
//! out by the caller. Which of them is taken, and whether the ray goes on
//! at all, is decided here.

use vstd::prelude::*;
use crate::scalar::Scalar;
use crate::vec3::{Color, Vec3};

verus! {

/// A scattered ray: the colour by which it is attenuated and the direction
/// in which it goes on.
#[derive(Clone, Copy, Debug, PartialEq, Eq, Structural)]
pub struct ScatterResult {
    pub attenuation: Color,
    pub direction: Vec3,
}

/// The colour that attenuates nothing: one in every part.
pub open spec fn white() -> Color {
    Vec3 { x: Scalar::one(), y: Scalar::one(), z: Scalar::one() }
}

/// The colour that attenuates everything: zero in every part.
pub open spec fn black() -> Color {
    Vec3 { x: Scalar::zero(), y: Scalar::zero(), z: Scalar::zero() }
}

/// A diffuse surface that scatters about the normal, the normal itself
/// being the likeliest direction.
#[derive(Clone, Copy, Debug, PartialEq, Eq, Structural)]
pub struct Lambertian {
    pub albedo: Color,
}

impl Lambertian {
    pub fn new(albedo: Color) -> (r: Lambertian)
        ensures
            r.albedo == albedo,
    {
        Lambertian { albedo }
    }

    /// Scatters into `direction`, the sum of the normal and a random unit
    /// vector. The ray is never absorbed, and it is attenuated by the
    /// albedo.
    pub fn scatter(&self, direction: Vec3) -> (r: Option<ScatterResult>)
        ensures
            r == Some(ScatterResult { attenuation: self.albedo, direction }),
    {
        Some(ScatterResult { attenuation: self.albedo, direction })
    }
}

/// A diffuse surface that scatters to a random point of the unit sphere
/// about the tip of the normal.
#[derive(Clone, Copy, Debug, PartialEq, Eq, Structural)]
pub struct Simple {
    pub albedo: Color,
}

impl Simple {
    /// Scatters into `direction`, the sum of the normal and a random point
    /// in the unit sphere.
    pub fn scatter(&self, direction: Vec3) -> (r: Option<ScatterResult>)
        ensures
            r == Some(ScatterResult { attenuation: self.albedo, direction }),
    {
        Some(ScatterResult { attenuation: self.albedo, direction })
    }
}

/// A diffuse surface that scatters evenly into the half space of the
/// normal.
#[derive(Clone, Copy, Debug, PartialEq, Eq, Structural)]
pub struct Hemisphere {
    pub albedo: Color,
}

/// A vector turned to the side of the normal: itself where its dot product
/// with the normal, `alignment`, is positive, and else its opposite.
pub open spec fn toward_normal(vector: Vec3, alignment: Scalar) -> Vec3 {
    if Scalar::zero().lt(alignment) {
        vector
    } else {
        vector.neg()
    }
}

impl Hemisphere {
    /// Scatters along a random point of the unit sphere, turned to the
    /// side of the normal. `alignment` is the dot product of the point and
    /// the normal.
    pub fn scatter(&self, in_unit_sphere: Vec3, alignment: Scalar) -> (r: Option<ScatterResult>)
        ensures
            r == Some(
                ScatterResult {
                    attenuation: self.albedo,
                    direction: toward_normal(in_unit_sphere, alignment),
                },
            ),
    {
        let direction = if Scalar::zero().lt(alignment) {
            in_unit_sphere
        } else {
            in_unit_sphere.neg()
        };
        Some(ScatterResult { attenuation: self.albedo, direction })
    }
}

/// A mirror, more or less blurred.
#[derive(Clone, Copy, Debug, PartialEq, Eq, Structural)]
pub struct Metal {
    pub albedo: Color,
    /// How far the reflection strays, from 0 to 1.
    pub fuzz: Scalar,
}

impl Metal {
    pub fn new(albedo: Color, fuzz: Scalar) -> (r: Metal)
        ensures
            r.albedo == albedo,
            r.fuzz == fuzz,
    {
        Metal { albedo, fuzz }
    }

    /// Scatters into `direction`, the reflection of the ray strayed by the
    /// fuzz, unless that points into the surface. `alignment` is the dot
    /// product of the direction and the normal: the ray is absorbed unless
    /// it is positive.
    pub fn scatter(&self, direction: Vec3, alignment: Scalar) -> (r: Option<ScatterResult>)
        ensures
            r == if Scalar::zero().lt(alignment) {
                Some(ScatterResult { attenuation: self.albedo, direction })
            } else {
                None
            },
    {
        if Scalar::zero().lt(alignment) {
            Some(ScatterResult { attenuation: self.albedo, direction })
        } else {
            None
        }
    }
}

/// How a ray goes on at the face of a clear material.
#[derive(Clone, Copy, Debug, PartialEq, Eq, Structural)]
pub enum Bend {
    Reflect,
    Refract,
}

/// A clear material, such as glass.
#[derive(Clone, Copy, Debug, PartialEq, Eq, Structural)]
pub struct Dielectric {
    pub refractive_index: Scalar,
}

impl Dielectric {
    pub fn new(refractive_index: Scalar) -> (r: Dielectric)
        ensures
            r.refractive_index == refractive_index,
    {
        Dielectric { refractive_index }
    }

    /// The ratio of the refractive indices on the ray's way: where the ray
    /// enters through the front face, the reciprocal of the material's
    /// index, which the caller hands in; where it leaves, the index itself.
    pub fn ratio(&self, front_face: bool, reciprocal: Scalar) -> (r: Scalar)
        ensures
            r == if front_face {
                reciprocal
            } else {
                self.refractive_index
            },
    {
        if front_face {
            reciprocal
        } else {
            self.refractive_index
        }
    }

    /// What the geometry forces: the ray is reflected where `product`, the
    /// ratio of the indices times the sine of the angle of incidence, is
    /// above one, for then no refracted ray exists. Else nothing is
    /// forced, and chance decides between the two.
    pub fn forced(product: Scalar) -> (r: Option<Bend>)
        ensures
            r == if Scalar::one().lt(product) {
                Some(Bend::Reflect)
            } else {
                None
            },
    {
        if Scalar::one().lt(product) {
            Some(Bend::Reflect)
        } else {
            None
        }
    }

    /// What chance decides where nothing is forced: `reflect` is the
    /// outcome of a draw that is true with the reflectance of the surface
    /// at the ray's angle.
    pub fn drawn(reflect: bool) -> (r: Bend)
        ensures
            r == if reflect {
                Bend::Reflect
            } else {
                Bend::Refract
            },
    {
        if reflect {
            Bend::Reflect
        } else {
            Bend::Refract
        }
    }

    /// Scatters into `direction`, the reflected or the refracted ray. A
    /// clear material absorbs nothing and leaves the light as it is.
    pub fn scatter(&self, direction: Vec3) -> (r: Option<ScatterResult>)
        ensures
            r == Some(ScatterResult { attenuation: white(), direction }),
    {
        Some(
            ScatterResult {
                attenuation: Vec3::new(Scalar::one(), Scalar::one(), Scalar::one()),
                direction,
            },
        )
    }
}

} // verus!
