//! The bounding volume hierarchy: a binary tree over the objects of a
//! scene, each inner node holding a box around all that lies below it.
//!
//! The objects themselves stay with the caller. The hierarchy knows an
//! object by its index and by its bounding box. How a ray is sent through
//! the hierarchy is told in [`crate::traversal`].

use vstd::prelude::*;
use vstd::seq_lib::*;
use core::cmp::Ordering;
use crate::bounding_box::{lemma_contains_transitive, lemma_surrounding_is_smallest, Aabb};

verus! {

/// A node of the hierarchy: one object, or two subtrees and a box around
/// both.
#[derive(Debug, PartialEq, Eq)]
pub enum BvhNode {
    Leaf { object: usize },
    Inner { bounding_box: Aabb, left: Box<BvhNode>, right: Box<BvhNode> },
}

impl BvhNode {
    /// The box around the node: the object's own for a leaf, the one held
    /// for an inner node.
    pub open spec fn spec_bounding_box(&self, boxes: Seq<Aabb>) -> Aabb {
        match self {
            BvhNode::Leaf { object } => boxes[*object as int],
            BvhNode::Inner { bounding_box, .. } => *bounding_box,
        }
    }

    /// The objects below the node, from left to right.
    pub open spec fn leaves(self) -> Seq<usize>
        decreases self,
    {
        match self {
            BvhNode::Leaf { object } => seq![object],
            BvhNode::Inner { left, right, .. } => left.leaves() + right.leaves(),
        }
    }

    /// Every leaf is an object of the scene, and every inner node holds the
    /// surrounding box of its two children's boxes.
    pub open spec fn well_formed(self, boxes: Seq<Aabb>) -> bool
        decreases self,
    {
        match self {
            BvhNode::Leaf { object } => object < boxes.len(),
            BvhNode::Inner { bounding_box, left, right } => {
                &&& left.well_formed(boxes)
                &&& right.well_formed(boxes)
                &&& bounding_box == Aabb::surrounding(
                    &left.spec_bounding_box(boxes),
                    &right.spec_bounding_box(boxes),
                )
            },
        }
    }

    /// `node` is this node or lies below it.
    pub open spec fn has_node(self, node: BvhNode) -> bool
        decreases self,
    {
        self == node || match self {
            BvhNode::Leaf { .. } => false,
            BvhNode::Inner { left, right, .. } => left.has_node(node) || right.has_node(node),
        }
    }

    /// The node over two subtrees, with the box around both.
    pub fn new(left: BvhNode, right: BvhNode, boxes: &Vec<Aabb>) -> (r: BvhNode)
        requires
            left.well_formed(boxes@),
            right.well_formed(boxes@),
        ensures
            r == (BvhNode::Inner {
                bounding_box: Aabb::surrounding(
                    &left.spec_bounding_box(boxes@),
                    &right.spec_bounding_box(boxes@),
                ),
                left: Box::new(left),
                right: Box::new(right),
            }),
            r.well_formed(boxes@),
    {
        let bounding_box = Aabb::surrounding(&left.bounding_box(boxes), &right.bounding_box(boxes));
        BvhNode::Inner { bounding_box, left: Box::new(left), right: Box::new(right) }
    }

    /// The box around the node.
    pub fn bounding_box(&self, boxes: &Vec<Aabb>) -> (r: Aabb)
        requires
            self.well_formed(boxes@),
        ensures
            r == self.spec_bounding_box(boxes@),
    {
        match self {
            BvhNode::Leaf { object } => boxes[*object],
            BvhNode::Inner { bounding_box, .. } => *bounding_box,
        }
    }
}

/// The least `e` with `n <= 2^e`.
pub open spec fn ceil_log2(n: nat) -> nat
    decreases n,
{
    if n <= 1 {
        0
    } else {
        1 + ceil_log2(((n + 1) / 2) as nat)
    }
}

/// The axis along which a list of `len` objects is split. It turns with
/// the size of the list, so that the levels of a tree take the axes in
/// turn.
pub open spec fn axis_for(len: nat) -> nat {
    ceil_log2(len) % 3
}

/// What a list is sorted by: the place, in the order of all numbers, of the
/// minimum coordinate of the object's box along the axis.
pub open spec fn sort_key(boxes: Seq<Aabb>, axis: usize, object: usize) -> int {
    boxes[object as int].min_along(axis).rank()
}

/// A sorted list with one more object, put behind all that do not come
/// after it.
pub open spec fn insert_sorted(boxes: Seq<Aabb>, axis: usize, sorted: Seq<usize>, x: usize) -> Seq<
    usize,
>
    decreases sorted.len(),
{
    if sorted.len() == 0 || sort_key(boxes, axis, sorted.last()) <= sort_key(boxes, axis, x) {
        sorted.push(x)
    } else {
        insert_sorted(boxes, axis, sorted.drop_last(), x).push(sorted.last())
    }
}

/// The list in the order of the keys, objects of one key in the order in
/// which the list has them.
pub open spec fn stable_sort(boxes: Seq<Aabb>, axis: usize, items: Seq<usize>) -> Seq<usize>
    decreases items.len(),
{
    if items.len() == 0 {
        items
    } else {
        insert_sorted(boxes, axis, stable_sort(boxes, axis, items.drop_last()), items.last())
    }
}

/// Two sorted lists in one: the objects of both in the order of their keys,
/// objects of one key from the first list before those from the second.
pub open spec fn merge(boxes: Seq<Aabb>, axis: usize, first: Seq<usize>, second: Seq<usize>) -> Seq<
    usize,
>
    decreases first.len() + second.len(),
{
    if second.len() == 0 {
        first
    } else if first.len() == 0 {
        second
    } else if sort_key(boxes, axis, first.last()) > sort_key(boxes, axis, second.last()) {
        merge(boxes, axis, first.drop_last(), second).push(first.last())
    } else {
        merge(boxes, axis, first, second.drop_last()).push(second.last())
    }
}

/// Every second object of a list, from the second on.
pub open spec fn odd_places(s: Seq<usize>) -> Seq<usize> {
    Seq::new(s.len() / 2, |k: int| s[2 * k + 1])
}

/// Every second object of a list, from the first on.
pub open spec fn even_places(s: Seq<usize>) -> Seq<usize> {
    Seq::new((s.len() + 1) / 2, |k: int| s[2 * k])
}

/// The two halves into which a list of objects is split: sorted along the
/// list's axis, then dealt out in turn, the second, fourth, ... object to
/// the left and the first, third, ... to the right.
pub open spec fn split(boxes: Seq<Aabb>, items: Seq<usize>) -> (Seq<usize>, Seq<usize>) {
    let sorted = stable_sort(boxes, axis_for(items.len()) as usize, items);
    (odd_places(sorted), even_places(sorted))
}

/// The tree over a list of objects: the object itself where there is one,
/// else a node over the trees of the two halves.
pub open spec fn subtree(boxes: Seq<Aabb>, items: Seq<usize>) -> BvhNode
    decreases items.len(),
{
    if items.len() <= 1 {
        BvhNode::Leaf { object: items[0] }
    } else {
        proof {
            lemma_stable_sort_permutes(boxes, axis_for(items.len()) as usize, items);
        }
        let halves = split(boxes, items);
        let left = subtree(boxes, halves.0);
        let right = subtree(boxes, halves.1);
        BvhNode::Inner {
            bounding_box: Aabb::surrounding(
                &left.spec_bounding_box(boxes),
                &right.spec_bounding_box(boxes),
            ),
            left: Box::new(left),
            right: Box::new(right),
        }
    }
}

/// The objects `0, 1, ..., n - 1`.
pub open spec fn all_objects(n: nat) -> Seq<usize> {
    Seq::new(n, |i: int| i as usize)
}

/// The hierarchy over a scene, given the boxes of its objects: nothing for
/// the empty scene, else the tree over all objects in their order.
pub open spec fn hierarchy(boxes: Seq<Aabb>) -> Option<BvhNode> {
    if boxes.len() == 0 {
        None
    } else {
        Some(subtree(boxes, all_objects(boxes.len())))
    }
}

/// Every object of the list is one of the first `n`.
pub open spec fn in_range(items: Seq<usize>, n: nat) -> bool {
    forall|k: int| 0 <= k < items.len() ==> items[k] < n
}

/// The hierarchy over a scene, given the bounding boxes of its objects in
/// the order of the scene: `None` for the empty scene. A leaf names its
/// object by its index in `boxes`.
pub fn into_bounding_volume_hierarchy(boxes: &Vec<Aabb>) -> (r: Option<BvhNode>)
    ensures
        r == hierarchy(boxes@),
        r is Some <==> boxes.len() > 0,
        r matches Some(root) ==> {
            &&& root.well_formed(boxes@)
            &&& root.leaves().to_multiset() == all_objects(boxes@.len()).to_multiset()
        },
{
    let n = boxes.len();
    if n == 0 {
        return None;
    }
    let mut items: Vec<usize> = Vec::new();
    let mut i: usize = 0;
    while i < n
        invariant
            i <= n,
            items@ == all_objects(i as nat),
        decreases n - i,
    {
        items.push(i);
        i = i + 1;
        assert(items@ =~= all_objects(i as nat));
    }
    Some(into_bvh_impl(boxes, items))
}

/// The tree over a list of objects that is not empty.
fn into_bvh_impl(boxes: &Vec<Aabb>, items: Vec<usize>) -> (r: BvhNode)
    requires
        items.len() > 0,
        in_range(items@, boxes@.len()),
    ensures
        r == subtree(boxes@, items@),
        r.well_formed(boxes@),
        r.leaves().to_multiset() == items@.to_multiset(),
    decreases items.len(),
{
    proof {
        lemma_subtree_well_formed(boxes@, items@);
    }
    if items.len() == 1 {
        BvhNode::Leaf { object: items[0] }
    } else {
        proof {
            lemma_split_permutes(boxes@, items@);
            lemma_subtree_well_formed(boxes@, split(boxes@, items@).0);
            lemma_subtree_well_formed(boxes@, split(boxes@, items@).1);
        }
        let (odd, even) = split_list(boxes, &items);
        let left = into_bvh_impl(boxes, odd);
        let right = into_bvh_impl(boxes, even);
        BvhNode::new(left, right, boxes)
    }
}

/// The axis along which a list of `len` objects is split.
pub fn split_axis(len: usize) -> (axis: usize)
    ensures
        axis == axis_for(len as nat),
{
    let mut rest = len;
    let mut axis: usize = 0;
    while rest > 1
        invariant
            axis < 3,
            ceil_log2(len as nat) % 3 == (axis + ceil_log2(rest as nat)) % 3,
        decreases rest,
    {
        rest = rest - rest / 2;
        axis = if axis == 2 {
            0
        } else {
            axis + 1
        };
    }
    axis
}

/// The two halves of a list of objects.
fn split_list(boxes: &Vec<Aabb>, items: &Vec<usize>) -> (r: (Vec<usize>, Vec<usize>))
    requires
        in_range(items@, boxes@.len()),
    ensures
        (r.0@, r.1@) == split(boxes@, items@),
{
    let axis = split_axis(items.len());
    let sorted = sort_along(boxes, axis, items);
    let mut left: Vec<usize> = Vec::new();
    let mut right: Vec<usize> = Vec::new();
    let mut k: usize = 0;
    while k < sorted.len()
        invariant
            k <= sorted.len(),
            left.len() == k / 2,
            right.len() == (k + 1) / 2,
            forall|j: int| 0 <= j < left.len() ==> left[j] == sorted[2 * j + 1],
            forall|j: int| 0 <= j < right.len() ==> right[j] == sorted[2 * j],
        decreases sorted.len() - k,
    {
        if k % 2 == 0 {
            right.push(sorted[k]);
        } else {
            left.push(sorted[k]);
        }
        k = k + 1;
    }
    assert(left@ =~= odd_places(sorted@));
    assert(right@ =~= even_places(sorted@));
    (left, right)
}

/// The order of two objects along an axis, by their boxes.
fn sort_by_bounding_box(axis: usize, a: &Aabb, b: &Aabb) -> (r: Ordering)
    requires
        axis < 3,
    ensures
        r == Ordering::Greater <==> a.min_along(axis).rank() > b.min_along(axis).rank(),
{
    a.cmp_min_axis(axis, b)
}

/// Whether object `a` has to stand behind object `b`.
fn comes_after(boxes: &Vec<Aabb>, axis: usize, a: usize, b: usize) -> (r: bool)
    requires
        axis < 3,
        a < boxes.len(),
        b < boxes.len(),
    ensures
        r == (sort_key(boxes@, axis, a) > sort_key(boxes@, axis, b)),
{
    match sort_by_bounding_box(axis, &boxes[a], &boxes[b]) {
        Ordering::Greater => true,
        _ => false,
    }
}

/// The list sorted along an axis, objects of one key in their old order.
fn sort_along(boxes: &Vec<Aabb>, axis: usize, items: &Vec<usize>) -> (sorted: Vec<usize>)
    requires
        axis < 3,
        in_range(items@, boxes@.len()),
    ensures
        sorted@ == stable_sort(boxes@, axis, items@),
{
    assert(items@.subrange(0, items@.len() as int) == items@);
    sort_range(boxes, axis, items, 0, items.len())
}

/// A stretch of the list sorted along an axis: each half sorted by
/// itself, and the two merged.
fn sort_range(boxes: &Vec<Aabb>, axis: usize, items: &Vec<usize>, from: usize, to: usize) -> (sorted:
    Vec<usize>)
    requires
        axis < 3,
        from <= to <= items.len(),
        in_range(items@, boxes@.len()),
    ensures
        sorted@ == stable_sort(boxes@, axis, items@.subrange(from as int, to as int)),
        sorted.len() == to - from,
        in_range(sorted@, boxes@.len()),
    decreases to - from,
{
    let ghost stretch = items@.subrange(from as int, to as int);
    proof {
        lemma_sorted_in_range(boxes@, axis, stretch, boxes@.len());
        lemma_stable_sort_permutes(boxes@, axis, stretch);
    }
    let mut sorted: Vec<usize> = Vec::new();
    if to - from == 0 {
        assert(stretch =~= Seq::<usize>::empty());
        sorted
    } else if to - from == 1 {
        sorted.push(items[from]);
        assert(stretch.drop_last() =~= Seq::<usize>::empty());
        assert(stable_sort(boxes@, axis, stretch.drop_last()) =~= Seq::<usize>::empty());
        assert(stretch.last() == items[from as int]);
        assert(sorted@ =~= stable_sort(boxes@, axis, stretch));
        sorted
    } else {
        let middle = from + (to - from) / 2;
        let first = sort_range(boxes, axis, items, from, middle);
        let second = sort_range(boxes, axis, items, middle, to);
        proof {
            assert(stretch =~= items@.subrange(from as int, middle as int) + items@.subrange(
                middle as int,
                to as int,
            ));
            lemma_stable_sort_of_two(
                boxes@,
                axis,
                items@.subrange(from as int, middle as int),
                items@.subrange(middle as int, to as int),
            );
        }
        merge_sorted(boxes, axis, &first, &second)
    }
}

/// Two sorted lists in one, objects of one key from the first list before
/// those from the second.
fn merge_sorted(boxes: &Vec<Aabb>, axis: usize, first: &Vec<usize>, second: &Vec<usize>) -> (merged:
    Vec<usize>)
    requires
        axis < 3,
        in_range(first@, boxes@.len()),
        in_range(second@, boxes@.len()),
        first.len() + second.len() <= usize::MAX,
    ensures
        merged@ == merge(boxes@, axis, first@, second@),
{
    let total = first.len() + second.len();
    let mut merged: Vec<usize> = Vec::new();
    let mut filled: usize = 0;
    while filled < total
        invariant
            filled <= total,
            merged.len() == filled,
        decreases total - filled,
    {
        merged.push(0);
        filled = filled + 1;
    }
    let mut i = first.len();
    let mut j = second.len();
    assert(first@.take(i as int) == first@);
    assert(second@.take(j as int) == second@);
    assert(merged@.subrange(total as int, total as int) =~= Seq::<usize>::empty());
    while i + j > 0
        invariant
            axis < 3,
            i <= first.len(),
            j <= second.len(),
            total == first.len() + second.len(),
            merged.len() == total,
            in_range(first@, boxes@.len()),
            in_range(second@, boxes@.len()),
            merge(boxes@, axis, first@, second@) == merge(
                boxes@,
                axis,
                first@.take(i as int),
                second@.take(j as int),
            ) + merged@.subrange(i + j, total as int),
        decreases i + j,
    {
        let ghost left = first@.take(i as int);
        let ghost right = second@.take(j as int);
        let ghost tail = merged@.subrange(i + j, total as int);
        let from_first = j == 0 || (i > 0 && comes_after(boxes, axis, first[i - 1], second[j - 1]));
        let value = if from_first {
            i = i - 1;
            first[i]
        } else {
            j = j - 1;
            second[j]
        };
        merged.set(i + j, value);
        proof {
            assert(left.len() > 0 ==> left.last() == first@[left.len() - 1]);
            assert(right.len() > 0 ==> right.last() == second@[right.len() - 1]);
            if from_first {
                assert(left.drop_last() =~= first@.take(i as int));
                assert(merge(boxes@, axis, left, right) == merge(
                    boxes@,
                    axis,
                    left.drop_last(),
                    right,
                ).push(value)) by {
                    if right.len() == 0 {
                        assert(merge(boxes@, axis, left.drop_last(), right) == left.drop_last());
                        assert(left =~= left.drop_last().push(value));
                    }
                }
            } else {
                assert(right.drop_last() =~= second@.take(j as int));
                assert(merge(boxes@, axis, left, right) == merge(
                    boxes@,
                    axis,
                    left,
                    right.drop_last(),
                ).push(value)) by {
                    if left.len() == 0 {
                        lemma_merge_with_nothing(boxes@, axis, right.drop_last());
                        assert(right =~= right.drop_last().push(value));
                    }
                }
            }
            assert(merged@.subrange(i + j, total as int) =~= seq![value] + tail);
            let shorter = merge(
                boxes@,
                axis,
                first@.take(i as int),
                second@.take(j as int),
            );
            assert(shorter.push(value) + tail =~= shorter + (seq![value] + tail));
        }
    }
    assert(first@.take(0) =~= Seq::<usize>::empty());
    assert(second@.take(0) =~= Seq::<usize>::empty());
    assert(merged@.subrange(0, total as int) =~= merged@);
    assert(Seq::<usize>::empty() + merged@ =~= merged@);
    merged
}

/// Inserting into a sorted list adds the one object and nothing else.
pub proof fn lemma_insert_sorted_permutes(boxes: Seq<Aabb>, axis: usize, sorted: Seq<usize>, x: usize)
    ensures
        insert_sorted(boxes, axis, sorted, x).len() == sorted.len() + 1,
        insert_sorted(boxes, axis, sorted, x).to_multiset() == sorted.to_multiset().insert(x),
    decreases sorted.len(),
{
    broadcast use group_to_multiset_ensures;

    if sorted.len() == 0 || sort_key(boxes, axis, sorted.last()) <= sort_key(boxes, axis, x) {
    } else {
        lemma_insert_sorted_permutes(boxes, axis, sorted.drop_last(), x);
        assert(sorted == sorted.drop_last().push(sorted.last()));
        assert(sorted.to_multiset() == sorted.drop_last().to_multiset().insert(sorted.last()));
    }
}

/// Sorting keeps the objects of the list, each as often as it was there.
pub proof fn lemma_stable_sort_permutes(boxes: Seq<Aabb>, axis: usize, items: Seq<usize>)
    ensures
        stable_sort(boxes, axis, items).len() == items.len(),
        stable_sort(boxes, axis, items).to_multiset() == items.to_multiset(),
    decreases items.len(),
{
    broadcast use group_to_multiset_ensures;

    if items.len() > 0 {
        lemma_stable_sort_permutes(boxes, axis, items.drop_last());
        lemma_insert_sorted_permutes(
            boxes,
            axis,
            stable_sort(boxes, axis, items.drop_last()),
            items.last(),
        );
        assert(items == items.drop_last().push(items.last()));
        assert(items.to_multiset() == items.drop_last().to_multiset().insert(items.last()));
    }
}

/// Where [`insert_sorted`] puts the object: behind the last object that
/// does not come after it.
pub open spec fn insert_place(boxes: Seq<Aabb>, axis: usize, sorted: Seq<usize>, x: usize) -> int
    decreases sorted.len(),
{
    if sorted.len() == 0 || sort_key(boxes, axis, sorted.last()) <= sort_key(boxes, axis, x) {
        sorted.len() as int
    } else {
        insert_place(boxes, axis, sorted.drop_last(), x)
    }
}

/// [`insert_sorted`] puts the object at [`insert_place`], before all objects
/// that come after it.
pub proof fn lemma_insert_place(boxes: Seq<Aabb>, axis: usize, sorted: Seq<usize>, x: usize)
    ensures
        0 <= insert_place(boxes, axis, sorted, x) <= sorted.len(),
        insert_sorted(boxes, axis, sorted, x) == sorted.insert(
            insert_place(boxes, axis, sorted, x),
            x,
        ),
        forall|k: int|
            insert_place(boxes, axis, sorted, x) <= k < sorted.len() ==> sort_key(
                boxes,
                axis,
                #[trigger] sorted[k],
            ) > sort_key(boxes, axis, x),
        insert_place(boxes, axis, sorted, x) > 0 ==> sort_key(
            boxes,
            axis,
            sorted[insert_place(boxes, axis, sorted, x) - 1],
        ) <= sort_key(boxes, axis, x),
    decreases sorted.len(),
{
    if sorted.len() == 0 || sort_key(boxes, axis, sorted.last()) <= sort_key(boxes, axis, x) {
        assert(sorted.push(x) =~= sorted.insert(sorted.len() as int, x));
    } else {
        let rest = sorted.drop_last();
        lemma_insert_place(boxes, axis, rest, x);
        let j = insert_place(boxes, axis, rest, x);
        assert(rest.insert(j, x).push(sorted.last()) =~= sorted.insert(j, x));
        assert forall|k: int| j <= k < sorted.len() implies sort_key(
            boxes,
            axis,
            #[trigger] sorted[k],
        ) > sort_key(boxes, axis, x) by {
            if k < rest.len() {
                assert(sorted[k] == rest[k]);
            }
        }
        if j > 0 {
            assert(sorted[j - 1] == rest[j - 1]);
        }
    }
}

/// `order` names the places of `items` in the order of their keys, places of
/// one key in their own order: from one entry to the next the key grows, or
/// it stays and the place grows.
pub open spec fn is_stable_order(boxes: Seq<Aabb>, axis: usize, items: Seq<usize>, order: Seq<int>) -> bool {
    &&& order.len() == items.len()
    &&& forall|k: int| 0 <= k < order.len() ==> 0 <= #[trigger] order[k] < items.len()
    &&& forall|a: int, b: int|
        0 <= a < b < order.len() ==> {
            let first = sort_key(boxes, axis, items[#[trigger] order[a]]);
            let second = sort_key(boxes, axis, items[#[trigger] order[b]]);
            first < second || (first == second && order[a] < order[b])
        }
}

/// The sorted list is the stable sort of the list: it holds the objects of
/// the list in the order of their keys, and objects of one key in the order
/// in which the list has them. The order returned says from which place of
/// the list each object of the sorted list comes.
pub proof fn lemma_stable_sort_is_stable(boxes: Seq<Aabb>, axis: usize, items: Seq<usize>) -> (order:
    Seq<int>)
    ensures
        is_stable_order(boxes, axis, items, order),
        stable_sort(boxes, axis, items).len() == items.len(),
        forall|k: int|
            0 <= k < items.len() ==> #[trigger] stable_sort(boxes, axis, items)[k]
                == items[order[k]],
        forall|a: int, b: int|
            0 <= a <= b < items.len() ==> sort_key(boxes, axis, stable_sort(boxes, axis, items)[a])
                <= sort_key(boxes, axis, stable_sort(boxes, axis, items)[b]),
    decreases items.len(),
{
    if items.len() == 0 {
        Seq::<int>::empty()
    } else {
        let rest = items.drop_last();
        let x = items.last();
        let last_place = items.len() - 1;
        let before = lemma_stable_sort_is_stable(boxes, axis, rest);
        let sorted_rest = stable_sort(boxes, axis, rest);
        lemma_insert_place(boxes, axis, sorted_rest, x);
        let j = insert_place(boxes, axis, sorted_rest, x);
        let sorted = stable_sort(boxes, axis, items);
        assert(sorted == sorted_rest.insert(j, x));
        let order = before.insert(j, last_place);
        assert forall|k: int| 0 <= k < items.len() implies #[trigger] sorted[k]
            == items[order[k]] by {
            if k < j {
                assert(sorted[k] == sorted_rest[k]);
                assert(items[before[k]] == rest[before[k]]);
            } else if k > j {
                assert(sorted[k] == sorted_rest[k - 1]);
                assert(items[before[k - 1]] == rest[before[k - 1]]);
            }
        }
        assert forall|a: int, b: int| 0 <= a <= b < items.len() implies sort_key(
            boxes,
            axis,
            sorted[a],
        ) <= sort_key(boxes, axis, sorted[b]) by {
            if a < j && b == j && j > 0 {
                assert(sort_key(boxes, axis, sorted_rest[a]) <= sort_key(
                    boxes,
                    axis,
                    sorted_rest[j - 1],
                ));
            }
            if a < j && b > j {
                assert(sort_key(boxes, axis, sorted_rest[a]) <= sort_key(
                    boxes,
                    axis,
                    sorted_rest[b - 1],
                ));
            }
            if a > j {
                assert(sort_key(boxes, axis, sorted_rest[a - 1]) <= sort_key(
                    boxes,
                    axis,
                    sorted_rest[b - 1],
                ));
            }
            if a == j && b > j {
                assert(sort_key(boxes, axis, sorted_rest[b - 1]) > sort_key(boxes, axis, x));
            }
        }
        assert forall|a: int, b: int| 0 <= a < b < order.len() implies {
            let first = sort_key(boxes, axis, items[#[trigger] order[a]]);
            let second = sort_key(boxes, axis, items[#[trigger] order[b]]);
            first < second || (first == second && order[a] < order[b])
        } by {
            assert(sorted[a] == items[order[a]]);
            assert(sorted[b] == items[order[b]]);
            if b < j {
                assert(items[before[a]] == rest[before[a]]);
                assert(items[before[b]] == rest[before[b]]);
            } else if a > j {
                assert(items[before[a - 1]] == rest[before[a - 1]]);
                assert(items[before[b - 1]] == rest[before[b - 1]]);
            } else if a < j && b > j {
                assert(items[before[a]] == rest[before[a]]);
                assert(items[before[b - 1]] == rest[before[b - 1]]);
            } else if b == j {
                assert(order[a] == before[a]);
                assert(sort_key(boxes, axis, sorted[a]) <= sort_key(boxes, axis, sorted[j]));
            } else {
                assert(a == j);
                assert(sorted[b] == sorted_rest[b - 1]);
                assert(sort_key(boxes, axis, sorted_rest[b - 1]) > sort_key(boxes, axis, x));
            }
        }
        order
    }
}

/// Merging nothing with a list gives the list.
proof fn lemma_merge_with_nothing(boxes: Seq<Aabb>, axis: usize, second: Seq<usize>)
    ensures
        merge(boxes, axis, Seq::<usize>::empty(), second) == second,
{
}

/// Inserting into the merged list is inserting into the second of the two
/// lists.
proof fn lemma_insert_into_merged(
    boxes: Seq<Aabb>,
    axis: usize,
    first: Seq<usize>,
    second: Seq<usize>,
    x: usize,
)
    ensures
        insert_sorted(boxes, axis, merge(boxes, axis, first, second), x) == merge(
            boxes,
            axis,
            first,
            insert_sorted(boxes, axis, second, x),
        ),
    decreases first.len() + second.len(),
{
    let key = |object: usize| sort_key(boxes, axis, object);
    let merged = merge(boxes, axis, first, second);
    let longer = insert_sorted(boxes, axis, second, x);
    assert(longer.len() > 0 && (longer.last() == x || (second.len() > 0 && longer.last()
        == second.last())));
    if second.len() == 0 {
        assert(longer =~= seq![x]);
        assert(longer.drop_last() =~= second);
        if first.len() > 0 && key(first.last()) > key(x) {
            lemma_insert_into_merged(boxes, axis, first.drop_last(), second, x);
            assert(insert_sorted(boxes, axis, first.drop_last(), x) == merge(
                boxes,
                axis,
                first.drop_last(),
                longer,
            ));
        }
    } else if first.len() == 0 {
    } else if key(first.last()) > key(second.last()) {
        assert(merged.last() == first.last());
        assert(merged.drop_last() =~= merge(boxes, axis, first.drop_last(), second));
        if key(first.last()) <= key(x) {
            assert(longer == second.push(x));
            assert(longer.drop_last() =~= second);
        } else {
            lemma_insert_into_merged(boxes, axis, first.drop_last(), second, x);
        }
    } else {
        assert(merged.last() == second.last());
        assert(merged.drop_last() =~= merge(boxes, axis, first, second.drop_last()));
        if key(second.last()) <= key(x) {
            assert(longer == second.push(x));
            assert(longer.drop_last() =~= second);
        } else {
            lemma_insert_into_merged(boxes, axis, first, second.drop_last(), x);
            assert(longer.drop_last() =~= insert_sorted(boxes, axis, second.drop_last(), x));
        }
    }
}

/// The sorted list of two lists on end is the sorted lists of the two,
/// merged.
pub proof fn lemma_stable_sort_of_two(boxes: Seq<Aabb>, axis: usize, first: Seq<usize>, second: Seq<usize>)
    ensures
        stable_sort(boxes, axis, first + second) == merge(
            boxes,
            axis,
            stable_sort(boxes, axis, first),
            stable_sort(boxes, axis, second),
        ),
    decreases second.len(),
{
    if second.len() == 0 {
        assert(first + second =~= first);
    } else {
        let shorter = second.drop_last();
        lemma_stable_sort_of_two(boxes, axis, first, shorter);
        assert((first + second).drop_last() =~= first + shorter);
        lemma_insert_into_merged(
            boxes,
            axis,
            stable_sort(boxes, axis, first),
            stable_sort(boxes, axis, shorter),
            second.last(),
        );
    }
}

/// Sorting a list of objects of the scene gives objects of the scene.
proof fn lemma_sorted_in_range(boxes: Seq<Aabb>, axis: usize, items: Seq<usize>, n: nat)
    requires
        forall|k: int| 0 <= k < items.len() ==> items[k] < n,
    ensures
        in_range(stable_sort(boxes, axis, items), n),
{
    broadcast use group_to_multiset_ensures;

    let sorted = stable_sort(boxes, axis, items);
    lemma_stable_sort_permutes(boxes, axis, items);
    assert forall|k: int| 0 <= k < sorted.len() implies sorted[k] < n by {
        assert(sorted.to_multiset().count(sorted[k]) > 0);
        assert(items.contains(sorted[k]));
    }
}

/// Dealing a list out in turn keeps its objects.
proof fn lemma_alternate_permutes(s: Seq<usize>)
    ensures
        odd_places(s).to_multiset().add(even_places(s).to_multiset()) == s.to_multiset(),
    decreases s.len(),
{
    broadcast use group_to_multiset_ensures;

    if s.len() == 0 {
        assert(odd_places(s) =~= Seq::<usize>::empty());
        assert(even_places(s) =~= Seq::<usize>::empty());
        assert(s =~= Seq::<usize>::empty());
    } else {
        let t = s.drop_last();
        lemma_alternate_permutes(t);
        assert(s == t.push(s.last()));
        if t.len() % 2 == 0 {
            assert(even_places(s) =~= even_places(t).push(s.last()));
            assert(odd_places(s) =~= odd_places(t));
        } else {
            assert(odd_places(s) =~= odd_places(t).push(s.last()));
            assert(even_places(s) =~= even_places(t));
        }
        assert(odd_places(s).to_multiset().add(even_places(s).to_multiset()) =~= s.to_multiset());
    }
}

/// The two halves of a list hold its objects between them, and fewer each
/// than the list where that has two or more.
pub proof fn lemma_split_permutes(boxes: Seq<Aabb>, items: Seq<usize>)
    ensures
        split(boxes, items).0.to_multiset().add(split(boxes, items).1.to_multiset())
            == items.to_multiset(),
        split(boxes, items).0.len() == items.len() / 2,
        split(boxes, items).1.len() == (items.len() + 1) / 2,
        forall|n: nat| in_range(items, n) ==> in_range(split(boxes, items).0, n) && in_range(
            split(boxes, items).1,
            n,
        ),
{
    broadcast use group_to_multiset_ensures;

    let axis = axis_for(items.len()) as usize;
    let sorted = stable_sort(boxes, axis, items);
    lemma_stable_sort_permutes(boxes, axis, items);
    lemma_alternate_permutes(sorted);
    assert forall|n: nat| in_range(items, n) implies in_range(split(boxes, items).0, n)
        && in_range(split(boxes, items).1, n) by {
        assert forall|k: int| 0 <= k < sorted.len() implies sorted[k] < n by {
            assert(sorted.to_multiset().count(sorted[k]) > 0);
            assert(items.contains(sorted[k]));
        }
    }
}

/// The tree over a list of objects is well formed, and its leaves are the
/// objects of the list, each as often as the list has it.
pub proof fn lemma_subtree_well_formed(boxes: Seq<Aabb>, items: Seq<usize>)
    requires
        items.len() > 0,
        in_range(items, boxes.len()),
    ensures
        subtree(boxes, items).well_formed(boxes),
        subtree(boxes, items).leaves().to_multiset() == items.to_multiset(),
    decreases items.len(),
{
    broadcast use group_to_multiset_ensures;

    if items.len() <= 1 {
        assert(items =~= seq![items[0]]);
    } else {
        lemma_split_permutes(boxes, items);
        let halves = split(boxes, items);
        lemma_subtree_well_formed(boxes, halves.0);
        lemma_subtree_well_formed(boxes, halves.1);
        let left = subtree(boxes, halves.0);
        let right = subtree(boxes, halves.1);
        lemma_multiset_commutative(left.leaves(), right.leaves());
    }
}

/// The number of levels below a node.
pub open spec fn depth(node: BvhNode) -> nat
    decreases node,
{
    match node {
        BvhNode::Leaf { .. } => 0,
        BvhNode::Inner { left, right, .. } => {
            let below_left = depth(*left);
            let below_right = depth(*right);
            if below_left < below_right {
                1 + below_right
            } else {
                1 + below_left
            }
        },
    }
}

/// A longer list needs no fewer levels.
pub proof fn lemma_ceil_log2_monotonic(a: nat, b: nat)
    requires
        a <= b,
    ensures
        ceil_log2(a) <= ceil_log2(b),
    decreases b,
{
    if a > 1 {
        lemma_ceil_log2_monotonic(((a + 1) / 2) as nat, ((b + 1) / 2) as nat);
    }
}

/// The tree over `n` objects has as many levels as it takes halvings to get
/// from `n` to one: its depth is logarithmic in the number of objects.
pub proof fn lemma_depth_is_logarithmic(boxes: Seq<Aabb>, items: Seq<usize>)
    requires
        items.len() > 0,
    ensures
        depth(subtree(boxes, items)) == ceil_log2(items.len()),
    decreases items.len(),
{
    if items.len() > 1 {
        lemma_split_permutes(boxes, items);
        let halves = split(boxes, items);
        lemma_depth_is_logarithmic(boxes, halves.0);
        lemma_depth_is_logarithmic(boxes, halves.1);
        lemma_ceil_log2_monotonic(halves.0.len(), halves.1.len());
    }
}

/// Every box of the scene is well formed.
pub open spec fn boxes_well_formed(boxes: Seq<Aabb>) -> bool {
    forall|o: int| 0 <= o < boxes.len() ==> (#[trigger] boxes[o]).well_formed()
}

/// The box of a well-formed node is well formed.
pub proof fn lemma_node_box_well_formed(node: BvhNode, boxes: Seq<Aabb>)
    requires
        boxes_well_formed(boxes),
        node.well_formed(boxes),
    ensures
        node.spec_bounding_box(boxes).well_formed(),
    decreases node,
{
    match node {
        BvhNode::Leaf { object } => {
            assert(boxes[object as int].well_formed());
        },
        BvhNode::Inner { bounding_box, left, right } => {
            lemma_node_box_well_formed(*left, boxes);
            lemma_node_box_well_formed(*right, boxes);
            lemma_surrounding_is_smallest(
                left.spec_bounding_box(boxes),
                right.spec_bounding_box(boxes),
                bounding_box,
            );
        },
    }
}

/// The nodes below a well-formed node are well formed.
pub proof fn lemma_nodes_well_formed(root: BvhNode, node: BvhNode, boxes: Seq<Aabb>)
    requires
        root.well_formed(boxes),
        root.has_node(node),
    ensures
        node.well_formed(boxes),
    decreases root,
{
    if root != node {
        match root {
            BvhNode::Leaf { .. } => {},
            BvhNode::Inner { left, right, .. } => {
                if left.has_node(node) {
                    lemma_nodes_well_formed(*left, node, boxes);
                } else {
                    lemma_nodes_well_formed(*right, node, boxes);
                }
            },
        }
    }
}

/// The box of a node contains the box of every object below the node.
pub proof fn lemma_node_bounds_its_objects(node: BvhNode, boxes: Seq<Aabb>, object: usize)
    requires
        boxes_well_formed(boxes),
        node.well_formed(boxes),
        node.leaves().contains(object),
    ensures
        object < boxes.len(),
        node.spec_bounding_box(boxes).contains(boxes[object as int]),
    decreases node,
{
    match node {
        BvhNode::Leaf { object: own } => {
            assert(node.leaves() =~= seq![own]);
            assert(own == object);
            assert(boxes[object as int].well_formed());
        },
        BvhNode::Inner { bounding_box, left, right } => {
            let left_box = left.spec_bounding_box(boxes);
            let right_box = right.spec_bounding_box(boxes);
            lemma_node_box_well_formed(*left, boxes);
            lemma_node_box_well_formed(*right, boxes);
            lemma_surrounding_is_smallest(left_box, right_box, bounding_box);
            if left.leaves().contains(object) {
                lemma_node_bounds_its_objects(*left, boxes, object);
                lemma_contains_transitive(bounding_box, left_box, boxes[object as int]);
            } else {
                assert(right.leaves().contains(object));
                lemma_node_bounds_its_objects(*right, boxes, object);
                lemma_contains_transitive(bounding_box, right_box, boxes[object as int]);
            }
        },
    }
}

/// In the hierarchy over a scene, the box of every node contains the box of
/// every object that lies below that node.
pub proof fn lemma_hierarchy_bounds_objects(boxes: Seq<Aabb>, node: BvhNode, object: usize)
    requires
        boxes_well_formed(boxes),
        hierarchy(boxes) matches Some(root) && root.has_node(node),
        node.leaves().contains(object),
    ensures
        object < boxes.len(),
        node.spec_bounding_box(boxes).contains(boxes[object as int]),
{
    let root = hierarchy(boxes)->0;
    assert(in_range(all_objects(boxes.len()), boxes.len()));
    lemma_subtree_well_formed(boxes, all_objects(boxes.len()));
    lemma_nodes_well_formed(root, node, boxes);
    lemma_node_bounds_its_objects(node, boxes, object);
}

/// The hierarchy over a scene holds every object of the scene exactly once.
pub proof fn lemma_hierarchy_holds_every_object(boxes: Seq<Aabb>, object: usize)
    requires
        0 < boxes.len() <= usize::MAX,
    ensures
        hierarchy(boxes) matches Some(root) && root.well_formed(boxes) && root.leaves().to_multiset()
            == all_objects(boxes.len()).to_multiset() && (object < boxes.len()
            ==> root.leaves().to_multiset().count(object) == 1) && (object >= boxes.len()
            ==> !root.leaves().contains(object)),
{
    broadcast use group_to_multiset_ensures;

    let all = all_objects(boxes.len());
    assert(in_range(all, boxes.len()));
    lemma_subtree_well_formed(boxes, all);
    let root = hierarchy(boxes)->0;
    assert(all.no_duplicates());
    all.lemma_multiset_has_no_duplicates();
    if object < boxes.len() {
        assert(all[object as int] == object);
        assert(all.contains(object));
    } else {
        assert(!all.contains(object));
    }
}

/// Building twice from the same boxes gives the same hierarchy: the same
/// shape, the same objects at the leaves and the same boxes at the nodes.
pub proof fn lemma_construction_is_repeatable(first: Seq<Aabb>, second: Seq<Aabb>)
    requires
        first == second,
    ensures
        hierarchy(first) == hierarchy(second),
{
}

} // verus!
