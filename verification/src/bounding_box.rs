//! Axis-aligned bounding boxes.

use vstd::prelude::*;
use core::cmp::Ordering;
use crate::scalar::Scalar;
use crate::vec3::{Point, Vec3};

verus! {

/// `a <= b` in every component; false as soon as a component is a NaN.
pub open spec fn le3(a: Point, b: Point) -> bool {
    a.x.le(b.x) && a.y.le(b.y) && a.z.le(b.z)
}

/// The smaller component of the two points, axis by axis.
pub open spec fn lower(a: Point, b: Point) -> Point {
    Vec3 { x: a.x.min(b.x), y: a.y.min(b.y), z: a.z.min(b.z) }
}

/// The larger component of the two points, axis by axis.
pub open spec fn upper(a: Point, b: Point) -> Point {
    Vec3 { x: a.x.max(b.x), y: a.y.max(b.y), z: a.z.max(b.z) }
}

/// An axis-aligned box, given by its two extreme corners. On every axis the
/// minimum is at most the maximum, so no coordinate of a box is a NaN.
#[derive(Clone, Copy, Debug, PartialEq, Eq, Structural)]
pub struct Aabb {
    min: Point,
    max: Point,
}

/// Where a ray meets the six planes of a box, as parameters along the ray.
///
/// Along each axis, `inverse` is the reciprocal of the ray's direction, and
/// `at_min` and `at_max` are the products of `inverse` with the distance
/// from the ray's origin to the box's minimum and maximum plane.
#[derive(Clone, Copy, Debug, PartialEq, Eq, Structural)]
pub struct Crossings {
    pub inverse: Vec3,
    pub at_min: Vec3,
    pub at_max: Vec3,
}

impl Crossings {
    /// The parameter at which the ray enters the slab of `axis`: the
    /// crossing of the minimum plane, or of the maximum plane where the ray
    /// runs against the axis.
    pub open spec fn entry(self, axis: int) -> Scalar {
        if self.inverse.component(axis).is_sign_negative() {
            self.at_max.component(axis)
        } else {
            self.at_min.component(axis)
        }
    }

    /// The parameter at which the ray leaves the slab of `axis`.
    pub open spec fn exit(self, axis: int) -> Scalar {
        if self.inverse.component(axis).is_sign_negative() {
            self.at_min.component(axis)
        } else {
            self.at_max.component(axis)
        }
    }

    /// The interval `(t_min, t_max)` cut down to the slabs of the first
    /// `axes` axes, as its two ends.
    pub open spec fn clip(self, axes: int, t_min: Scalar, t_max: Scalar) -> (Scalar, Scalar)
        decreases axes,
    {
        if axes <= 0 {
            (t_min, t_max)
        } else {
            let (lo, hi) = self.clip(axes - 1, t_min, t_max);
            (lo.max(self.entry(axes - 1)), hi.min(self.exit(axes - 1)))
        }
    }

    /// Something of the interval is left after the first `axes` axes.
    pub open spec fn open_after(self, axes: int, t_min: Scalar, t_max: Scalar) -> bool {
        !self.clip(axes, t_min, t_max).1.le(self.clip(axes, t_min, t_max).0)
    }

    /// The slab test: the interval stays non-empty through all three axes.
    pub open spec fn passes(self, t_min: Scalar, t_max: Scalar) -> bool {
        &&& self.open_after(1, t_min, t_max)
        &&& self.open_after(2, t_min, t_max)
        &&& self.open_after(3, t_min, t_max)
    }
}

impl Aabb {
    pub closed spec fn spec_min(&self) -> Point {
        self.min
    }

    pub closed spec fn spec_max(&self) -> Point {
        self.max
    }

    /// On every axis the minimum is at most the maximum.
    pub open spec fn well_formed(self) -> bool {
        le3(self.min(), self.max())
    }

    #[verifier::type_invariant]
    closed spec fn inv(self) -> bool {
        self.well_formed()
    }

    /// `inner` lies within `self`, faces included.
    pub open spec fn contains(self, inner: Aabb) -> bool {
        le3(self.min(), inner.min()) && le3(inner.max(), self.max())
    }

    /// The box that [`Aabb::surrounding`] makes of two.
    pub closed spec fn spec_surrounding(a: &Aabb, b: &Aabb) -> Aabb {
        Aabb { min: lower(a.min, b.min), max: upper(a.max, b.max) }
    }

    /// The minimum coordinate along `axis`.
    pub open spec fn min_along(self, axis: usize) -> Scalar {
        self.min().component(axis as int)
    }

    /// The box with the given corners.
    pub fn new(min: Point, max: Point) -> (r: Aabb)
        requires
            le3(min, max),
        ensures
            r.min() == min,
            r.max() == max,
            r.well_formed(),
    {
        Aabb { min, max }
    }

    /// The corner with the smallest coordinates.
    #[verifier::when_used_as_spec(spec_min)]
    pub fn min(&self) -> (r: Point)
        ensures
            r == self.spec_min(),
            self.well_formed(),
    {
        proof {
            use_type_invariant(self);
        }
        self.min
    }

    /// The corner with the largest coordinates.
    #[verifier::when_used_as_spec(spec_max)]
    pub fn max(&self) -> (r: Point)
        ensures
            r == self.spec_max(),
            self.well_formed(),
    {
        proof {
            use_type_invariant(self);
        }
        self.max
    }

    /// The tightest box around both: the smaller minimum and the larger
    /// maximum on every axis.
    #[verifier::when_used_as_spec(spec_surrounding)]
    pub fn surrounding(a: &Aabb, b: &Aabb) -> (r: Aabb)
        ensures
            r == Aabb::spec_surrounding(a, b),
            r.min() == lower(a.min(), b.min()),
            r.max() == upper(a.max(), b.max()),
            r.well_formed(),
            r.contains(*a),
            r.contains(*b),
    {
        proof {
            use_type_invariant(a);
            use_type_invariant(b);
        }
        Aabb {
            min: Vec3::new(
                a.min.x().min(b.min.x()),
                a.min.y().min(b.min.y()),
                a.min.z().min(b.min.z()),
            ),
            max: Vec3::new(
                a.max.x().max(b.max.x()),
                a.max.y().max(b.max.y()),
                a.max.z().max(b.max.z()),
            ),
        }
    }

    /// The slab test. The ray passes the box within `(t_min, t_max)` where,
    /// cutting that interval down to the slab of one axis after the other,
    /// it is never found empty.
    pub fn hit(crossings: &Crossings, t_min: Scalar, t_max: Scalar) -> (r: bool)
        ensures
            r == crossings.passes(t_min, t_max),
    {
        let mut lo = t_min;
        let mut hi = t_max;
        let mut axis: usize = 0;
        assert(crossings.clip(0, t_min, t_max) == (t_min, t_max));
        while axis < 3
            invariant
                axis <= 3,
                (lo, hi) == crossings.clip(axis as int, t_min, t_max),
                forall|k: int| 1 <= k <= axis ==> crossings.open_after(k, t_min, t_max),
            decreases 3 - axis,
        {
            let inverse = crossings.inverse.get(axis);
            let mut entry = crossings.at_min.get(axis);
            let mut exit = crossings.at_max.get(axis);
            if inverse.is_sign_negative() {
                let swapped = entry;
                entry = exit;
                exit = swapped;
            }
            lo = lo.max(entry);
            hi = hi.min(exit);
            axis = axis + 1;
            assert((lo, hi) == crossings.clip(axis as int, t_min, t_max));
            if hi.le(lo) {
                return false;
            }
        }
        true
    }

    /// The order of two boxes by their minimum coordinate along `axis`.
    pub fn cmp_min_axis(&self, axis: usize, other: &Aabb) -> (r: Ordering)
        requires
            axis < 3,
        ensures
            r == Ordering::Less <==> self.min_along(axis).rank() < other.min_along(axis).rank(),
            r == Ordering::Equal <==> self.min_along(axis).rank() == other.min_along(axis).rank(),
            r == Ordering::Greater <==> self.min_along(axis).rank() > other.min_along(axis).rank(),
    {
        proof {
            use_type_invariant(self);
            use_type_invariant(other);
        }
        let mine = self.min.get(axis);
        let theirs = other.min.get(axis);
        if mine.lt(theirs) {
            Ordering::Less
        } else if theirs.lt(mine) {
            Ordering::Greater
        } else {
            Ordering::Equal
        }
    }
}

/// The surrounding box contains both boxes, and every box that contains both
/// contains it: it is the smallest such box.
pub proof fn lemma_surrounding_is_smallest(a: Aabb, b: Aabb, c: Aabb)
    requires
        a.well_formed(),
        b.well_formed(),
    ensures
        Aabb::surrounding(&a, &b).min() == lower(a.min(), b.min()),
        Aabb::surrounding(&a, &b).max() == upper(a.max(), b.max()),
        Aabb::surrounding(&a, &b).well_formed(),
        Aabb::surrounding(&a, &b).contains(a),
        Aabb::surrounding(&a, &b).contains(b),
        c.contains(a) && c.contains(b) ==> c.contains(Aabb::surrounding(&a, &b)),
{
}

/// Containment is reflexive and transitive.
pub proof fn lemma_contains_transitive(a: Aabb, b: Aabb, c: Aabb)
    requires
        a.well_formed(),
    ensures
        a.contains(a),
        a.contains(b) && b.contains(c) ==> a.contains(c),
{
}

/// Cutting down by further slabs only narrows the interval, and its ends
/// stay numbers.
pub proof fn lemma_clip_narrows(c: Crossings, axes: int, t_min: Scalar, t_max: Scalar)
    requires
        !t_min.is_nan(),
        !t_max.is_nan(),
        0 <= axes,
    ensures
        !c.clip(axes, t_min, t_max).0.is_nan(),
        !c.clip(axes, t_min, t_max).1.is_nan(),
        t_min.le(c.clip(axes, t_min, t_max).0),
        c.clip(axes, t_min, t_max).1.le(t_max),
        c.clip(axes, t_min, t_max).0.le(c.clip(axes + 1, t_min, t_max).0),
        c.clip(axes + 1, t_min, t_max).1.le(c.clip(axes, t_min, t_max).1),
    decreases axes,
{
    if axes > 0 {
        lemma_clip_narrows(c, axes - 1, t_min, t_max);
    }
}

/// Between numbers as bounds, the slab test passes exactly where the
/// interval cut down to all three slabs is not empty.
pub proof fn lemma_passes_iff_nonempty(c: Crossings, t_min: Scalar, t_max: Scalar)
    requires
        !t_min.is_nan(),
        !t_max.is_nan(),
    ensures
        c.passes(t_min, t_max) <==> c.clip(3, t_min, t_max).0.lt(c.clip(3, t_min, t_max).1),
{
    lemma_clip_narrows(c, 0, t_min, t_max);
    lemma_clip_narrows(c, 1, t_min, t_max);
    lemma_clip_narrows(c, 2, t_min, t_max);
    lemma_clip_narrows(c, 3, t_min, t_max);
}

/// A ray that along one axis is outside the box for the whole of
/// `(t_min, t_max)` misses: where the slab of that axis alone leaves nothing
/// of the interval, the slab test fails.
pub proof fn lemma_outside_one_slab_misses(c: Crossings, axis: int, t_min: Scalar, t_max: Scalar)
    requires
        !t_min.is_nan(),
        !t_max.is_nan(),
        0 <= axis < 3,
        t_max.min(c.exit(axis)).le(t_min.max(c.entry(axis))),
    ensures
        !c.passes(t_min, t_max),
{
    lemma_clip_narrows(c, 0, t_min, t_max);
    lemma_clip_narrows(c, 1, t_min, t_max);
    lemma_clip_narrows(c, 2, t_min, t_max);
    lemma_clip_narrows(c, 3, t_min, t_max);
}

/// A ray that is strictly inside the box at some parameter within
/// `(t_min, t_max)` hits: where one parameter lies strictly between entry
/// and exit on every axis, the slab test passes.
pub proof fn lemma_inside_at_a_parameter_hits(c: Crossings, t: Scalar, t_min: Scalar, t_max: Scalar)
    requires
        t_min.lt(t),
        t.lt(t_max),
        forall|axis: int| 0 <= axis < 3 ==> c.entry(axis).lt(t) && t.lt(c.exit(axis)),
    ensures
        c.passes(t_min, t_max),
{
    assert(c.entry(0).lt(t) && t.lt(c.exit(0)));
    assert(c.entry(1).lt(t) && t.lt(c.exit(1)));
    assert(c.entry(2).lt(t) && t.lt(c.exit(2)));
    lemma_clip_narrows(c, 0, t_min, t_max);
    lemma_clip_narrows(c, 1, t_min, t_max);
    lemma_clip_narrows(c, 2, t_min, t_max);
    lemma_clip_narrows(c, 3, t_min, t_max);
    reveal_with_fuel(Crossings::clip, 4);
}

} // verus!
