//! The search of the hierarchy for the nearest hit of a ray.
//!
//! Whether a ray passes a box and what it hits of an object is worked out
//! by the caller. Which boxes and objects are looked at, in which order,
//! and which hit is kept, is decided here: by descent in [`hit`], and one
//! question at a time by a [`Traversal`], with the same result.

use vstd::prelude::*;
use vstd::seq_lib::*;
use crate::bounding_box::Aabb;
use crate::bvh::{
    all_objects, boxes_well_formed, hierarchy, in_range, lemma_node_bounds_its_objects,
    lemma_subtree_well_formed, BvhNode,
};
use crate::hittable::{
    distances_are_numbers, hits_lie_before, is_nearest_among, is_number,
    lemma_scan_finds_nearest, scan, within,
};
use crate::scalar::Scalar;

verus! {

/// The nearer of two hits, the second where neither is nearer; the one
/// there is, where there is only one.
pub open spec fn closer<H>(l: Option<(Scalar, H)>, r: Option<(Scalar, H)>) -> Option<(Scalar, H)> {
    match (l, r) {
        (None, None) => None,
        (Some(h), None) => Some(h),
        (None, Some(h)) => Some(h),
        (Some(l), Some(r)) => if l.0.lt(r.0) {
            Some(l)
        } else {
            Some(r)
        },
    }
}

/// What a ray hits in the subtree of `node`, where `passes` tells which
/// boxes the ray passes and `hits` what it hits of each object.
///
/// A node whose box the ray does not pass is not hit, whatever lies below
/// it. Of a node whose box it passes, both subtrees are searched, and the
/// nearer hit is returned.
pub open spec fn hit<H>(
    node: BvhNode,
    passes: spec_fn(Aabb) -> bool,
    hits: spec_fn(usize) -> Option<(Scalar, H)>,
) -> Option<(Scalar, H)>
    decreases node,
{
    match node {
        BvhNode::Leaf { object } => hits(object),
        BvhNode::Inner { bounding_box, left, right } => if passes(bounding_box) {
            closer(hit(*left, passes, hits), hit(*right, passes, hits))
        } else {
            None
        },
    }
}

/// What a traversal asks of its caller.
#[derive(Clone, Copy, Debug, PartialEq, Eq)]
pub enum Probe {
    /// Does the ray pass this box?
    Box(Aabb),
    /// What does the ray hit of this object?
    Object(usize),
    /// Nothing more: the traversal has its result.
    Done,
}

/// A search of the hierarchy for the nearest hit of one ray, one question
/// at a time.
///
/// The traversal decides which box and which object is looked at next and
/// which hit is kept; the caller answers each [`Probe`] for its ray. The
/// payload `H` of a hit is the caller's.
pub struct Traversal<'a, H> {
    pending: Vec<&'a BvhNode>,
    nearest: Option<(Scalar, H)>,
}

/// The number of nodes of a subtree.
pub open spec fn size(node: BvhNode) -> nat
    decreases node,
{
    match node {
        BvhNode::Leaf { .. } => 1,
        BvhNode::Inner { left, right, .. } => 1 + size(*left) + size(*right),
    }
}

/// The number of nodes in all the subtrees of a list.
pub open spec fn total_size(pending: Seq<BvhNode>) -> nat
    decreases pending.len(),
{
    if pending.len() == 0 {
        0
    } else {
        total_size(pending.drop_last()) + size(pending.last())
    }
}

/// The subtrees still to search once the box of the last one was answered.
pub open spec fn after_box(pending: Seq<BvhNode>, passed: bool) -> Seq<BvhNode> {
    match pending.last() {
        BvhNode::Inner { left, right, .. } if passed => pending.drop_last().push(*right).push(*left),
        _ => pending.drop_last(),
    }
}

/// The result of a traversal that has the subtrees `pending` still to
/// search, the last one first, and has found `nearest` so far.
pub open spec fn run<H>(
    pending: Seq<BvhNode>,
    nearest: Option<(Scalar, H)>,
    passes: spec_fn(Aabb) -> bool,
    hits: spec_fn(usize) -> Option<(Scalar, H)>,
) -> Option<(Scalar, H)>
    decreases total_size(pending),
{
    if pending.len() == 0 {
        nearest
    } else {
        match pending.last() {
            BvhNode::Leaf { object } => run(
                pending.drop_last(),
                closer(nearest, hits(object)),
                passes,
                hits,
            ),
            BvhNode::Inner { bounding_box, left, right } => {
                proof {
                    lemma_after_box_is_smaller(pending, passes(bounding_box));
                }
                run(after_box(pending, passes(bounding_box)), nearest, passes, hits)
            },
        }
    }
}

/// Answering a box leaves less to search.
pub proof fn lemma_after_box_is_smaller(pending: Seq<BvhNode>, passed: bool)
    requires
        pending.len() > 0,
        pending.last() is Inner,
    ensures
        total_size(after_box(pending, passed)) < total_size(pending),
{
    let rest = pending.drop_last();
    if passed {
        let left = *pending.last()->left;
        let right = *pending.last()->right;
        assert(rest.push(right).push(left).drop_last() =~= rest.push(right));
        assert(rest.push(right).drop_last() =~= rest);
        assert(total_size(rest.push(right)) == total_size(rest) + size(right));
    }
}

impl<'a, H> Traversal<'a, H> {
    /// The subtrees still to search, the last one first.
    pub closed spec fn pending(self) -> Seq<BvhNode> {
        self.pending@.map_values(|node: &BvhNode| *node)
    }

    /// The nearest hit found so far.
    pub closed spec fn nearest(self) -> Option<(Scalar, H)> {
        self.nearest
    }

    /// What the traversal asks next.
    pub open spec fn spec_probe(&self) -> Probe {
        if self.pending().len() == 0 {
            Probe::Done
        } else {
            match self.pending().last() {
                BvhNode::Leaf { object } => Probe::Object(object),
                BvhNode::Inner { bounding_box, .. } => Probe::Box(bounding_box),
            }
        }
    }

    /// A traversal of the hierarchy under `root`, or of the empty scene.
    pub fn new(root: Option<&'a BvhNode>) -> (r: Self)
        ensures
            r.pending() == match root {
                Some(node) => seq![*node],
                None => Seq::<BvhNode>::empty(),
            },
            r.nearest() is None,
    {
        let mut pending: Vec<&'a BvhNode> = Vec::new();
        match root {
            Some(node) => {
                pending.push(node);
            },
            None => {},
        }
        let r = Traversal { pending, nearest: None };
        assert(r.pending() =~= match root {
            Some(node) => seq![*node],
            None => Seq::<BvhNode>::empty(),
        });
        r
    }

    /// What the traversal asks next.
    #[verifier::when_used_as_spec(spec_probe)]
    pub fn probe(&self) -> (r: Probe)
        ensures
            r == self.spec_probe(),
    {
        let n = self.pending.len();
        if n == 0 {
            Probe::Done
        } else {
            assert(self.pending().last() == *self.pending@[n - 1]);
            match self.pending[n - 1] {
                BvhNode::Leaf { object } => Probe::Object(*object),
                BvhNode::Inner { bounding_box, .. } => Probe::Box(*bounding_box),
            }
        }
    }

    /// Takes the answer to a [`Probe::Box`]: where the ray passes the box
    /// both subtrees are searched next, the left one first; where it does
    /// not, neither is.
    pub fn answer_box(&mut self, passed: bool)
        requires
            old(self).probe() is Box,
        ensures
            final(self).pending() == after_box(old(self).pending(), passed),
            final(self).nearest() == old(self).nearest(),
    {
        let n = self.pending.len();
        assert(self.pending().last() == *self.pending@[n - 1]);
        let node = self.pending.pop();
        let ghost rest = self.pending();
        assert(rest =~= old(self).pending().drop_last());
        match node {
            Some(BvhNode::Inner { left, right, .. }) => {
                if passed {
                    self.pending.push(&**right);
                    self.pending.push(&**left);
                    assert(self.pending() =~= rest.push(**right).push(**left));
                }
            },
            _ => {},
        }
    }

    /// Takes the answer to a [`Probe::Object`]: the hit is kept unless the
    /// one found before is nearer.
    pub fn answer_object(&mut self, found: Option<(Scalar, H)>)
        requires
            old(self).probe() is Object,
        ensures
            final(self).pending() == old(self).pending().drop_last(),
            final(self).nearest() == closer(old(self).nearest(), found),
    {
        self.pending.pop();
        assert(self.pending() =~= old(self).pending().drop_last());
        let mut before = None;
        core::mem::swap(&mut before, &mut self.nearest);
        self.nearest = match (before, found) {
            (None, None) => None,
            (Some(h), None) => Some(h),
            (None, Some(h)) => Some(h),
            (Some(l), Some(r)) => if l.0.lt(r.0) {
                Some(l)
            } else {
                Some(r)
            },
        };
    }

    /// The nearest hit found.
    pub fn finish(self) -> (r: Option<(Scalar, H)>)
        ensures
            r == self.nearest(),
    {
        self.nearest
    }
}

/// One step of a traversal does not change what it will find: answering
/// the box of the next subtree as `passes` tells, or the object of the next
/// leaf as `hits` tells, leaves the result as it was, and a traversal with
/// nothing left to search has its result.
pub proof fn lemma_run_step<H>(
    pending: Seq<BvhNode>,
    nearest: Option<(Scalar, H)>,
    passes: spec_fn(Aabb) -> bool,
    hits: spec_fn(usize) -> Option<(Scalar, H)>,
)
    ensures
        pending.len() == 0 ==> run(pending, nearest, passes, hits) == nearest,
        pending.len() > 0 ==> (pending.last() matches BvhNode::Leaf { object } ==> run(
            pending,
            nearest,
            passes,
            hits,
        ) == run(pending.drop_last(), closer(nearest, hits(object)), passes, hits)),
        pending.len() > 0 ==> (pending.last() matches BvhNode::Inner { bounding_box, .. } ==> run(
            pending,
            nearest,
            passes,
            hits,
        ) == run(after_box(pending, passes(bounding_box)), nearest, passes, hits)),
{
}

/// Among hits whose distances are numbers, keeping the nearer one does not
/// depend on how the hits are grouped.
pub proof fn lemma_closer_associative<H>(
    a: Option<(Scalar, H)>,
    b: Option<(Scalar, H)>,
    c: Option<(Scalar, H)>,
)
    requires
        is_number(a),
        is_number(b),
        is_number(c),
    ensures
        closer(closer(a, b), c) == closer(a, closer(b, c)),
        is_number(closer(a, b)),
{
}

/// What a ray hits in a subtree has a number for its distance, where every
/// object's hit has.
pub proof fn lemma_hit_is_number<H>(
    node: BvhNode,
    passes: spec_fn(Aabb) -> bool,
    hits: spec_fn(usize) -> Option<(Scalar, H)>,
)
    requires
        distances_are_numbers(hits),
    ensures
        is_number(hit(node, passes, hits)),
    decreases node,
{
    match node {
        BvhNode::Leaf { object } => {},
        BvhNode::Inner { bounding_box, left, right } => {
            lemma_hit_is_number(*left, passes, hits);
            lemma_hit_is_number(*right, passes, hits);
        },
    }
}

/// A traversal that has the subtree of `node` to search next finds in it
/// what the ray hits in that subtree, keeps the nearer of that and what it
/// had found before, and goes on with the rest.
pub proof fn lemma_run_searches_subtree<H>(
    rest: Seq<BvhNode>,
    node: BvhNode,
    nearest: Option<(Scalar, H)>,
    passes: spec_fn(Aabb) -> bool,
    hits: spec_fn(usize) -> Option<(Scalar, H)>,
)
    requires
        distances_are_numbers(hits),
        is_number(nearest),
    ensures
        run(rest.push(node), nearest, passes, hits) == run(
            rest,
            closer(nearest, hit(node, passes, hits)),
            passes,
            hits,
        ),
    decreases node,
{
    let pending = rest.push(node);
    assert(pending.drop_last() =~= rest);
    assert(pending.last() == node);
    match node {
        BvhNode::Leaf { object } => {},
        BvhNode::Inner { bounding_box, left, right } => {
            if passes(bounding_box) {
                let found_left = hit(*left, passes, hits);
                let found_right = hit(*right, passes, hits);
                assert(after_box(pending, true) == rest.push(*right).push(*left));
                lemma_run_searches_subtree(rest.push(*right), *left, nearest, passes, hits);
                lemma_hit_is_number(*left, passes, hits);
                lemma_hit_is_number(*right, passes, hits);
                lemma_closer_associative(nearest, found_left, found_right);
                lemma_run_searches_subtree(
                    rest,
                    *right,
                    closer(nearest, found_left),
                    passes,
                    hits,
                );
            } else {
                assert(after_box(pending, false) == rest);
            }
        },
    }
}

/// A traversal from the root finds what the ray hits in the hierarchy: the
/// search one question at a time and the search by descent agree.
pub proof fn lemma_traversal_finds_hit<H>(
    root: BvhNode,
    passes: spec_fn(Aabb) -> bool,
    hits: spec_fn(usize) -> Option<(Scalar, H)>,
)
    requires
        distances_are_numbers(hits),
    ensures
        run(seq![root], None, passes, hits) == hit(root, passes, hits),
{
    let none: Option<(Scalar, H)> = None;
    assert(seq![root] =~= Seq::<BvhNode>::empty().push(root));
    lemma_run_searches_subtree(Seq::<BvhNode>::empty(), root, none, passes, hits);
    assert(run(Seq::<BvhNode>::empty(), hit(root, passes, hits), passes, hits) == hit(
        root,
        passes,
        hits,
    ));
}

/// The box test never hides a hit: a ray that hits an object passes every
/// box that contains the object's box.
pub open spec fn boxes_admit_hits<H>(
    boxes: Seq<Aabb>,
    passes: spec_fn(Aabb) -> bool,
    hits: spec_fn(usize) -> Option<(Scalar, H)>,
) -> bool {
    forall|b: Aabb, o: usize|
        o < boxes.len() && b.contains(boxes[o as int]) && (#[trigger] hits(o)) is Some
            ==> #[trigger] passes(b)
}

/// What a ray hits in a subtree is a nearest hit among the objects below
/// it, as long as the box test never hides a hit.
pub proof fn lemma_hit_is_nearest_in_subtree<H>(
    node: BvhNode,
    boxes: Seq<Aabb>,
    passes: spec_fn(Aabb) -> bool,
    hits: spec_fn(usize) -> Option<(Scalar, H)>,
)
    requires
        boxes_well_formed(boxes),
        node.well_formed(boxes),
        distances_are_numbers(hits),
        boxes_admit_hits(boxes, passes, hits),
    ensures
        is_nearest_among(hit(node, passes, hits), node.leaves(), hits),
    decreases node,
{
    match node {
        BvhNode::Leaf { object } => {
            assert(node.leaves() =~= seq![object]);
            assert(node.leaves()[0] == object);
            assert(node.leaves().contains(object));
            let found = hits(object);
            if found is Some {
                assert(is_number(found));
            }
        },
        BvhNode::Inner { bounding_box, left, right } => {
            let objects = node.leaves();
            assert forall|o: usize| objects.contains(o) implies left.leaves().contains(o)
                || right.leaves().contains(o) by {
                let k = choose|k: int| 0 <= k < objects.len() && objects[k] == o;
                if k < left.leaves().len() {
                    assert(left.leaves()[k] == o);
                } else {
                    assert(right.leaves()[k - left.leaves().len()] == o);
                }
            }
            assert forall|o: usize| left.leaves().contains(o) implies objects.contains(o) by {
                let k = choose|k: int| 0 <= k < left.leaves().len() && left.leaves()[k] == o;
                assert(objects[k] == o);
            }
            assert forall|o: usize| right.leaves().contains(o) implies objects.contains(o) by {
                let k = choose|k: int| 0 <= k < right.leaves().len() && right.leaves()[k] == o;
                assert(objects[k + left.leaves().len()] == o);
            }
            if passes(bounding_box) {
                lemma_hit_is_nearest_in_subtree(*left, boxes, passes, hits);
                lemma_hit_is_nearest_in_subtree(*right, boxes, passes, hits);
                lemma_hit_is_number(*left, passes, hits);
                lemma_hit_is_number(*right, passes, hits);
                let found_left = hit(*left, passes, hits);
                let found_right = hit(*right, passes, hits);
                let found = closer(found_left, found_right);
                match found {
                    None => {},
                    Some(h) => {
                        let o = if found == found_left {
                            choose|o: usize|
                                left.leaves().contains(o) && #[trigger] hits(o) == Some(h)
                        } else {
                            choose|o: usize|
                                right.leaves().contains(o) && #[trigger] hits(o) == Some(h)
                        };
                        assert(objects.contains(o) && hits(o) == Some(h));
                        assert forall|p: usize| objects.contains(p) implies ((
                        #[trigger] hits(p)) matches Some(other) ==> !other.0.lt(h.0)) by {
                            if hits(p) is Some {
                                assert(is_number(hits(p)));
                            }
                        }
                    },
                }
            } else {
                assert forall|o: usize| objects.contains(o) implies (#[trigger] hits(o)) is None by {
                    lemma_node_bounds_its_objects(node, boxes, o);
                }
            }
        },
    }
}

/// Querying the hierarchy gives a nearest hit among all objects of the
/// scene, as long as the box test never hides a hit.
pub proof fn lemma_hierarchy_finds_nearest<H>(
    boxes: Seq<Aabb>,
    passes: spec_fn(Aabb) -> bool,
    hits: spec_fn(usize) -> Option<(Scalar, H)>,
)
    requires
        boxes.len() > 0,
        boxes_well_formed(boxes),
        distances_are_numbers(hits),
        boxes_admit_hits(boxes, passes, hits),
    ensures
        is_nearest_among(
            hit(hierarchy(boxes)->0, passes, hits),
            all_objects(boxes.len()),
            hits,
        ),
{
    broadcast use group_to_multiset_ensures;

    let all = all_objects(boxes.len());
    let root = hierarchy(boxes)->0;
    assert(in_range(all, boxes.len()));
    lemma_subtree_well_formed(boxes, all);
    lemma_hit_is_nearest_in_subtree(root, boxes, passes, hits);
    assert forall|o: usize| all.contains(o) <==> root.leaves().contains(o) by {
        assert(all.to_multiset().count(o) == root.leaves().to_multiset().count(o));
    }
    let found = hit(root, passes, hits);
    match found {
        None => {},
        Some(h) => {
            let o = choose|o: usize| root.leaves().contains(o) && #[trigger] hits(o) == Some(h);
            assert(all.contains(o) && hits(o) == Some(h));
        },
    }
}

/// Querying the hierarchy and searching the plain list of all objects agree:
/// both find nothing, or both find a hit at the same distance.
pub proof fn lemma_hierarchy_agrees_with_scan<H>(
    boxes: Seq<Aabb>,
    passes: spec_fn(Aabb) -> bool,
    hits: spec_fn(usize) -> Option<(Scalar, H)>,
    t_max: Scalar,
)
    requires
        0 < boxes.len() <= usize::MAX,
        boxes_well_formed(boxes),
        boxes_admit_hits(boxes, passes, hits),
        hits_lie_before(hits, t_max),
    ensures
        hit(hierarchy(boxes)->0, passes, hits) is None <==> scan(boxes.len(), hits, t_max) is None,
        hit(hierarchy(boxes)->0, passes, hits) matches Some(a) ==> (scan(
            boxes.len(),
            hits,
            t_max,
        ) matches Some(b) ==> a.0.same(b.0)),
{
    assert(distances_are_numbers(hits)) by {
        assert forall|o: usize| is_number(#[trigger] hits(o)) by {
            assert(within(hits(o), t_max) == hits(o));
        }
    }
    lemma_hierarchy_finds_nearest(boxes, passes, hits);
    lemma_scan_finds_nearest(boxes.len(), hits, t_max);
    lemma_hit_is_number(hierarchy(boxes)->0, passes, hits);
    let a = hit(hierarchy(boxes)->0, passes, hits);
    let b = scan(boxes.len(), hits, t_max);
    let all = all_objects(boxes.len());
    if a is Some {
        let o = choose|o: usize| all.contains(o) && #[trigger] hits(o) == a;
        assert(hits(o) is Some);
    }
    if b is Some {
        let o = choose|o: usize| all.contains(o) && #[trigger] hits(o) == b;
        assert(hits(o) is Some);
    }
}

} // verus!
