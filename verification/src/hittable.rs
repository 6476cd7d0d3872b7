//! Hits, and the search of a plain list of objects for the nearest one.

use vstd::prelude::*;
use crate::bvh::all_objects;
use crate::scalar::Scalar;
use crate::shape::Puncture;

verus! {

/// A hit: where the ray punctures a shape, and which object of the scene
/// the shape belongs to. The object's surface decides how the ray goes on.
#[derive(Clone, Copy, Debug, PartialEq, Eq)]
pub struct Hit {
    pub intersection: Puncture,
    pub object: usize,
}

impl Hit {
    pub fn new(intersection: Puncture, object: usize) -> (r: Hit)
        ensures
            r.intersection == intersection,
            r.object == object,
    {
        Hit { intersection, object }
    }
}

/// No hit that `hits` reports has a NaN for its distance.
pub open spec fn distances_are_numbers<H>(hits: spec_fn(usize) -> Option<(Scalar, H)>) -> bool {
    forall|o: usize| (#[trigger] hits(o)) matches Some(h) ==> !h.0.is_nan()
}

/// The distance of a hit, if there is one, is a number.
pub open spec fn is_number<H>(h: Option<(Scalar, H)>) -> bool {
    h matches Some(found) ==> !found.0.is_nan()
}

/// `found` is a nearest hit among the given objects: the hit of one of
/// them, with none of them hit nearer; or no hit, where none of them is
/// hit.
pub open spec fn is_nearest_among<H>(
    found: Option<(Scalar, H)>,
    objects: Seq<usize>,
    hits: spec_fn(usize) -> Option<(Scalar, H)>,
) -> bool {
    match found {
        None => forall|o: usize| objects.contains(o) ==> (#[trigger] hits(o)) is None,
        Some(h) => {
            &&& exists|o: usize| objects.contains(o) && #[trigger] hits(o) == Some(h)
            &&& forall|o: usize|
                objects.contains(o) ==> ((#[trigger] hits(o)) matches Some(other) ==> !other.0.lt(
                    h.0,
                ))
        },
    }
}

/// The far end of the interval in which the next object of a list is
/// searched: the distance of the hit found so far, or `t_max` without one.
pub open spec fn bound<H>(found_so_far: Option<(Scalar, H)>, t_max: Scalar) -> Scalar {
    match found_so_far {
        Some(h) => h.0,
        None => t_max,
    }
}

/// The hit kept after one more object: the new one where there is one,
/// which was searched for only nearer than the old one.
pub open spec fn kept<H>(found_so_far: Option<(Scalar, H)>, found: Option<(Scalar, H)>) -> Option<
    (Scalar, H),
> {
    match found {
        Some(h) => Some(h),
        None => found_so_far,
    }
}

/// What is left of a hit when the search is cut short at `bound`: the hit,
/// if it is nearer, and else nothing.
pub open spec fn within<H>(hit: Option<(Scalar, H)>, bound: Scalar) -> Option<(Scalar, H)> {
    match hit {
        Some(h) => if h.0.lt(bound) {
            Some(h)
        } else {
            None
        },
        None => None,
    }
}

/// What a ray hits of the first `n` objects, searched one after the other,
/// each only nearer than the hit found before it. `hits` tells what the ray
/// hits of each object in the whole interval up to `t_max`.
pub open spec fn scan<H>(n: nat, hits: spec_fn(usize) -> Option<(Scalar, H)>, t_max: Scalar) -> Option<
    (Scalar, H),
>
    decreases n,
{
    if n == 0 {
        None
    } else {
        let so_far = scan((n - 1) as nat, hits, t_max);
        kept(so_far, within(hits((n - 1) as usize), bound(so_far, t_max)))
    }
}

/// The far end of the interval in which the next object is searched.
pub fn closest_so_far<H>(found_so_far: &Option<(Scalar, H)>, t_max: Scalar) -> (r: Scalar)
    ensures
        r == bound(*found_so_far, t_max),
{
    match found_so_far {
        Some(h) => h.0,
        None => t_max,
    }
}

/// The hit kept after one more object was searched.
pub fn keep_nearest<H>(found_so_far: Option<(Scalar, H)>, found: Option<(Scalar, H)>) -> (r: Option<
    (Scalar, H),
>)
    ensures
        r == kept(found_so_far, found),
{
    match found {
        Some(h) => Some(h),
        None => found_so_far,
    }
}

/// Every hit that `hits` reports lies before `t_max`.
pub open spec fn hits_lie_before<H>(hits: spec_fn(usize) -> Option<(Scalar, H)>, t_max: Scalar) -> bool {
    forall|o: usize| (#[trigger] hits(o)) matches Some(h) ==> h.0.lt(t_max)
}

/// The objects `0, ..., n - 1` are those below `n`.
pub proof fn lemma_all_objects(n: nat, object: usize)
    requires
        n <= usize::MAX,
    ensures
        all_objects(n).contains(object) <==> object < n,
{
    if object < n {
        assert(all_objects(n)[object as int] == object);
    }
}

/// Searching a list object by object gives a nearest hit among them.
pub proof fn lemma_scan_finds_nearest<H>(
    n: nat,
    hits: spec_fn(usize) -> Option<(Scalar, H)>,
    t_max: Scalar,
)
    requires
        n <= usize::MAX,
        hits_lie_before(hits, t_max),
    ensures
        is_nearest_among(scan(n, hits, t_max), all_objects(n), hits),
        is_number(scan(n, hits, t_max)),
    decreases n,
{
    assert forall|p: usize| all_objects(n).contains(p) <==> p < n by {
        lemma_all_objects(n, p);
    }
    if n > 0 {
        let fewer = (n - 1) as nat;
        let last = fewer as usize;
        lemma_scan_finds_nearest(fewer, hits, t_max);
        assert forall|p: usize| all_objects(fewer).contains(p) <==> p < fewer by {
            lemma_all_objects(fewer, p);
        }
        let so_far = scan(fewer, hits, t_max);
        let found = within(hits(last), bound(so_far, t_max));
        let result = kept(so_far, found);
        assert(result == scan(n, hits, t_max));
        assert(is_number(hits(last)));
        match result {
            None => {
                assert forall|p: usize| all_objects(n).contains(p) implies (#[trigger] hits(
                    p,
                )) is None by {
                    if p != last {
                        assert(all_objects(fewer).contains(p));
                    }
                }
            },
            Some(h) => {
                if found is Some {
                    assert(all_objects(n).contains(last) && hits(last) == Some(h));
                } else {
                    let o = choose|o: usize|
                        all_objects(fewer).contains(o) && #[trigger] hits(o) == Some(h);
                    assert(all_objects(n).contains(o) && hits(o) == Some(h));
                }
                assert forall|p: usize| all_objects(n).contains(p) implies ((#[trigger] hits(
                    p,
                )) matches Some(other) ==> !other.0.lt(h.0)) by {
                    assert(is_number(hits(p)));
                    if p != last {
                        assert(all_objects(fewer).contains(p));
                    }
                }
            },
        }
    }
}

} // verus!
