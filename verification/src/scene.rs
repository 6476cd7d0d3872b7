//! The path of one ray through the scene, and the order of the pixels.

use vstd::prelude::*;
use crate::material::black;
use crate::ray::Ray;
use crate::renderable::HitCheck;
use crate::scalar::Scalar;
use crate::vec3::{Color, Vec3};

verus! {

/// What one step of a path multiplies into the path's colour.
#[derive(Clone, Copy, Debug, PartialEq, Eq)]
pub enum Factor {
    /// The light of the sky in the given direction, in which the ray has
    /// left the scene.
    Ambient(Vec3),
    /// A colour.
    Attenuation(Color),
}

/// A path: the ray that is followed, and how many more times it may be
/// sent into the scene. A path starts with the colour white, and every step
/// multiplies one [`Factor`] into it.
#[derive(Clone, Copy, Debug, PartialEq, Eq)]
pub struct Path {
    ray: Ray,
    remaining: u32,
}

impl Path {
    /// The ray that is followed.
    pub closed spec fn ray(self) -> Ray {
        self.ray
    }

    /// How many more times the ray may be sent into the scene. It is 0 for
    /// a path that has ended.
    pub closed spec fn remaining(self) -> nat {
        self.remaining as nat
    }

    /// The ray to send into the scene next, unless the path is over.
    pub open spec fn spec_next_ray(&self) -> Option<Ray> {
        if self.remaining() > 0 {
            Some(self.ray())
        } else {
            None
        }
    }

    /// The path of a camera ray that may bounce up to `max_depth` times.
    pub fn new(ray: Ray, max_depth: u32) -> (r: Path)
        ensures
            r.ray() == ray,
            r.remaining() == max_depth,
    {
        Path { ray, remaining: max_depth }
    }

    /// The ray to send into the scene next, unless the path is over.
    #[verifier::when_used_as_spec(spec_next_ray)]
    pub fn next_ray(&self) -> (r: Option<Ray>)
        ensures
            r == self.spec_next_ray(),
    {
        if self.remaining > 0 {
            Some(self.ray)
        } else {
            None
        }
    }

    /// The factor that an outcome multiplies into the colour of a path that
    /// follows this ray.
    pub open spec fn factor(self, outcome: HitCheck) -> Factor {
        match outcome {
            HitCheck::Miss => Factor::Ambient(self.ray().direction),
            HitCheck::Absorbed => Factor::Attenuation(black()),
            HitCheck::Reflected { attenuation, .. } => Factor::Attenuation(attenuation),
        }
    }

    /// Takes what became of the ray in the scene.
    ///
    /// A ray that hits nothing takes the light of the sky, and one that is
    /// absorbed takes black: both end the path. A scattered ray takes the
    /// attenuation, and the path goes on with it, unless it has used up its
    /// bounces: then it ends with the colour it has, which is not turned to
    /// black.
    pub fn advance(&mut self, outcome: HitCheck) -> (factor: Factor)
        requires
            old(self).remaining() > 0,
        ensures
            factor == old(self).factor(outcome),
            final(self).remaining() == match outcome {
                HitCheck::Reflected { .. } => old(self).remaining() - 1,
                _ => 0,
            },
            outcome matches HitCheck::Reflected { scattered, .. } ==> final(self).ray() == scattered,
    {
        match outcome {
            HitCheck::Miss => {
                self.remaining = 0;
                Factor::Ambient(self.ray.direction)
            },
            HitCheck::Absorbed => {
                self.remaining = 0;
                Factor::Attenuation(Vec3::new(Scalar::zero(), Scalar::zero(), Scalar::zero()))
            },
            HitCheck::Reflected { attenuation, scattered } => {
                self.ray = scattered;
                self.remaining = self.remaining - 1;
                Factor::Attenuation(attenuation)
            },
        }
    }
}

/// How many rays a path sends into the scene that may still send
/// `remaining` rays, where `outcomes` tells what becomes of one ray after
/// the other.
pub open spec fn rays_sent(remaining: nat, outcomes: Seq<HitCheck>) -> nat
    decreases outcomes.len(),
{
    if remaining == 0 || outcomes.len() == 0 {
        0
    } else if outcomes[0] is Reflected {
        1 + rays_sent((remaining - 1) as nat, outcomes.skip(1))
    } else {
        1
    }
}

/// A path sends no more rays than its depth allows, whatever becomes of
/// them, and it sends no ray after one that was not scattered.
pub proof fn lemma_path_is_bounded(remaining: nat, outcomes: Seq<HitCheck>)
    ensures
        rays_sent(remaining, outcomes) <= remaining,
        rays_sent(remaining, outcomes) <= outcomes.len(),
        forall|k: int|
            0 <= k < rays_sent(remaining, outcomes) - 1 ==> (#[trigger] outcomes[k]) is Reflected,
    decreases outcomes.len(),
{
    if remaining == 0 || outcomes.len() == 0 {
    } else if outcomes[0] is Reflected {
        let rest = outcomes.skip(1);
        lemma_path_is_bounded((remaining - 1) as nat, rest);
        assert forall|k: int| 0 <= k < rays_sent(remaining, outcomes) - 1 implies (
        #[trigger] outcomes[k]) is Reflected by {
            if k > 0 {
                assert(outcomes[k] == rest[k - 1]);
            }
        }
    }
}

/// The pixel that stands at `index` in the buffer of an image: its column,
/// counted from the left, and its row, counted from the bottom. The buffer
/// holds the rows one after the other, the top row first.
pub open spec fn pixel_at(index: int, image_width: int, image_height: int) -> (int, int) {
    (index % image_width, image_height - 1 - index / image_width)
}

/// The place in the buffer of the pixel in column `i` of row `j`, the rows
/// counted from the bottom.
pub open spec fn index_of(i: int, j: int, image_width: int, image_height: int) -> int {
    (image_height - 1 - j) * image_width + i
}

/// The pixel that stands at `index` in the buffer.
pub fn pixel(index: usize, image_width: u32, image_height: u32) -> (r: (u32, u32))
    requires
        index < image_width * image_height,
    ensures
        (r.0 as int, r.1 as int) == pixel_at(index as int, image_width as int, image_height as int),
        r.0 < image_width,
        r.1 < image_height,
{
    proof {
        lemma_pixel_order(index as int, image_width as int, image_height as int);
    }
    let width = image_width as usize;
    let i = index % width;
    let row = index / width;
    (i as u32, image_height - 1 - row as u32)
}

/// The buffer runs through the image row by row from the top, each row from
/// the left: `pixel_at` and `index_of` undo each other.
pub proof fn lemma_pixel_order(index: int, image_width: int, image_height: int)
    requires
        0 <= index < image_width * image_height,
        0 <= image_height,
    ensures
        0 <= pixel_at(index, image_width, image_height).0 < image_width,
        0 <= pixel_at(index, image_width, image_height).1 < image_height,
        index_of(
            pixel_at(index, image_width, image_height).0,
            pixel_at(index, image_width, image_height).1,
            image_width,
            image_height,
        ) == index,
{
    assert(image_width > 0) by (nonlinear_arith)
        requires
            0 <= index < image_width * image_height,
            0 <= image_height,
    ;
    let row = index / image_width;
    let column = index % image_width;
    assert(index == row * image_width + column && 0 <= column < image_width && 0 <= row) by {
        vstd::arithmetic::div_mod::lemma_fundamental_div_mod(index, image_width);
        vstd::arithmetic::div_mod::lemma_mod_bound(index, image_width);
        vstd::arithmetic::div_mod::lemma_div_pos_is_pos(index, image_width);
        assert(image_width * row == row * image_width) by (nonlinear_arith);
    }
    assert(row < image_height) by (nonlinear_arith)
        requires
            index == row * image_width + column,
            0 <= column,
            index < image_width * image_height,
            image_width > 0,
    ;
}

/// Every pixel has its place: a column and a row of the image lead to an
/// index of the buffer, at which that pixel stands.
pub proof fn lemma_index_order(i: int, j: int, image_width: int, image_height: int)
    requires
        0 <= i < image_width,
        0 <= j < image_height,
    ensures
        0 <= index_of(i, j, image_width, image_height) < image_width * image_height,
        pixel_at(index_of(i, j, image_width, image_height), image_width, image_height) == (i, j),
{
    let row = image_height - 1 - j;
    let index = row * image_width + i;
    assert(0 <= row * image_width && index < image_width * image_height) by (nonlinear_arith)
        requires
            0 <= row <= image_height - 1,
            0 <= i < image_width,
            index == row * image_width + i,
    ;
    vstd::arithmetic::div_mod::lemma_fundamental_div_mod_converse(index, image_width, row, i);
}

} // verus!
