//! The bounding volume hierarchy: a binary tree of boxes over the primitives
//! of a scene, built once and then searched for the nearest hit.
use crate::aabb::AABB;
use crate::hittable_list::HittableList;
use crate::object::{answers, closer_of, nearer_of, reports, HitRecord, Object};
use crate::rng::gen_range;
use crate::scalar::Scalar;
use vstd::prelude::*;
use vstd::relations::sorted_by;
use vstd::seq_lib::to_multiset_build;

verus! {

/// A node of the hierarchy. Primitives are named by their index in the list
/// that the hierarchy was built over.
///
/// A leaf holds two primitives, or one primitive twice. An inner node holds
/// two nodes. Either caches the box around what is below it.
#[derive(Debug)]
#[allow(inconsistent_fields)]
pub enum Node {
    Leaf { box_: AABB, left: usize, right: usize },
    Inner { box_: AABB, left: Box<Node>, right: Box<Node> },
}

/// Why no hierarchy could be built.
#[derive(Clone, Copy, Debug, PartialEq, Eq, Structural)]
pub enum BvhError {
    /// There are no primitives.
    Empty,
    /// The primitive with this index has no bounding box.
    NoBoundingBox(usize),
    /// The primitive with this index reported a box that is not valid.
    InvalidBox(usize),
}

/// Whether the primitive `a` comes before the primitive `b` along `axis`, or
/// is `b`: its box begins at a lesser coordinate, or at the same one and its
/// index is not the greater. On the primitives of a list this is a total
/// order.
pub open spec fn precedes(boxes: Seq<AABB>, axis: int, a: usize, b: usize) -> bool {
    let ka = boxes[a as int].min.at(axis).rank();
    let kb = boxes[b as int].min.at(axis).rank();
    ka < kb || (ka == kb && a <= b)
}

/// `precedes` along one axis, as a relation on indices.
pub open spec fn along(boxes: Seq<AABB>, axis: int) -> spec_fn(usize, usize) -> bool {
    |a: usize, b: usize| precedes(boxes, axis, a, b)
}

/// The box around the boxes of the primitives `leaves`, taken in order from
/// the first. `leaves` must not be empty.
pub open spec fn box_over(boxes: Seq<AABB>, leaves: Seq<usize>) -> AABB
    decreases leaves.len(),
{
    if leaves.len() <= 1 {
        boxes[leaves[0] as int]
    } else {
        box_over(boxes, leaves.drop_last()).union(boxes[leaves.last() as int])
    }
}

impl Node {
    /// The cached box of the node.
    pub open spec fn bound(self) -> AABB {
        match self {
            Node::Leaf { box_, .. } => box_,
            Node::Inner { box_, .. } => box_,
        }
    }

    /// The primitives below the node, from left to right. A leaf counts both
    /// of its places.
    pub open spec fn leaves(self) -> Seq<usize>
        decreases self,
    {
        match self {
            Node::Leaf { left, right, .. } => seq![left, right],
            Node::Inner { left, right, .. } => left.leaves() + right.leaves(),
        }
    }

    /// The validity of a tree over primitives with the given boxes: every
    /// leaf names primitives that exist, and every node caches the box around
    /// the boxes of its two sides.
    pub open spec fn wf(self, boxes: Seq<AABB>) -> bool
        decreases self,
    {
        match self {
            Node::Leaf { box_, left, right } => {
                &&& left < boxes.len()
                &&& right < boxes.len()
                &&& box_ == boxes[left as int].union(boxes[right as int])
            },
            Node::Inner { box_, left, right } => {
                &&& left.wf(boxes)
                &&& right.wf(boxes)
                &&& box_ == left.bound().union(right.bound())
            },
        }
    }

    /// Whether every leaf names a primitive below `n`.
    pub open spec fn within(self, n: nat) -> bool
        decreases self,
    {
        match self {
            Node::Leaf { left, right, .. } => left < n && right < n,
            Node::Inner { left, right, .. } => left.within(n) && right.within(n),
        }
    }

    /// The shape of a tree built over `n` primitives: a leaf for one or two,
    /// and else an inner node over the first half, rounded down, and the
    /// rest.
    pub open spec fn halved(self, n: nat) -> bool
        decreases self,
    {
        match self {
            Node::Leaf { left, right, .. } => (n == 1 && left == right) || n == 2,
            Node::Inner { left, right, .. } => {
                &&& n >= 3
                &&& left.halved(n / 2)
                &&& right.halved((n - n / 2) as nat)
            },
        }
    }

    /// Whether every node is split along an axis: there is an axis along
    /// which no primitive on the right begins before one on the left.
    pub open spec fn split(self, boxes: Seq<AABB>) -> bool
        decreases self,
    {
        match self {
            Node::Leaf { left, right, .. } => exists|axis: int|
                0 <= axis < 3 && #[trigger] precedes(boxes, axis, left, right),
            Node::Inner { left, right, .. } => {
                &&& left.split(boxes)
                &&& right.split(boxes)
                &&& exists|axis: int|
                    0 <= axis < 3 && #[trigger] divides(boxes, axis, left.leaves(), right.leaves())
            },
        }
    }

    /// A node over two nodes, with the given box.
    pub fn new_(b: AABB, l: Node, r: Node) -> (node: Node)
        ensures
            node == (Node::Inner { box_: b, left: Box::new(l), right: Box::new(r) }),
    {
        Node::Inner { box_: b, left: Box::new(l), right: Box::new(r) }
    }

    /// The cached box of the node.
    pub fn bounding_box(&self) -> (b: AABB)
        ensures
            b == self.bound(),
    {
        match self {
            Node::Leaf { box_, .. } => *box_,
            Node::Inner { box_, .. } => *box_,
        }
    }
}

/// Whether every primitive of `left` precedes every primitive of `right`
/// along `axis`.
pub open spec fn divides(boxes: Seq<AABB>, axis: int, left: Seq<usize>, right: Seq<usize>) -> bool {
    forall|i: int, j: int|
        0 <= i < left.len() && 0 <= j < right.len() ==> precedes(
            boxes,
            axis,
            #[trigger] left[i],
            #[trigger] right[j],
        )
}

/// `precedes` is a total order on indices.
pub proof fn lemma_precedes_total(boxes: Seq<AABB>, axis: int)
    ensures
        vstd::relations::total_ordering(along(boxes, axis)),
{
    let leq = along(boxes, axis);
    assert forall|x: usize, y: usize| #[trigger] leq(x, y) && #[trigger] leq(y, x) implies x == y by {}
    assert forall|x: usize, y: usize, z: usize| #[trigger] leq(x, y) && #[trigger] leq(y, z) implies leq(x, z) by {}
    assert forall|x: usize, y: usize| #[trigger] leq(x, y) || #[trigger] leq(y, x) by {}
    assert forall|x: usize| #[trigger] leq(x, x) by {}
}

/// Whether `a` precedes `b` along `axis`.
pub fn comes_before(boxes: &Vec<AABB>, axis: u32, a: usize, b: usize) -> (res: bool)
    requires
        a < boxes@.len(),
        b < boxes@.len(),
    ensures
        res == precedes(boxes@, axis as int, a, b),
{
    let ka = boxes[a].min.get(axis).order();
    let kb = boxes[b].min.get(axis).order();
    ka < kb || (ka == kb && a <= b)
}

/// Merges two runs of primitives, each in its order along `axis`, into one.
fn merge_along(boxes: &Vec<AABB>, left: &Vec<usize>, right: &Vec<usize>, axis: u32) -> (out: Vec<
    usize,
>)
    requires
        forall|i: int| 0 <= i < left@.len() ==> #[trigger] left@[i] < boxes@.len(),
        forall|i: int| 0 <= i < right@.len() ==> #[trigger] right@[i] < boxes@.len(),
        sorted_by(left@, along(boxes@, axis as int)),
        sorted_by(right@, along(boxes@, axis as int)),
        left@.len() + right@.len() <= usize::MAX,
    ensures
        sorted_by(out@, along(boxes@, axis as int)),
        out@.to_multiset() == left@.to_multiset().add(right@.to_multiset()),
        out@.len() == left@.len() + right@.len(),
        forall|i: int| 0 <= i < out@.len() ==> #[trigger] out@[i] < boxes@.len(),
{
    let ghost leq = along(boxes@, axis as int);
    let mut out: Vec<usize> = Vec::new();
    let mut i: usize = 0;
    let mut j: usize = 0;
    proof {
        lemma_precedes_total(boxes@, axis as int);
        assert(left@.take(0) =~= Seq::<usize>::empty());
        assert(right@.take(0) =~= Seq::<usize>::empty());
        assert(out@ =~= Seq::<usize>::empty());
        vstd::seq_lib::to_multiset_len(Seq::<usize>::empty());
        assert(out@.to_multiset() =~= left@.take(0).to_multiset().add(right@.take(0).to_multiset()));
    }
    while i < left.len() || j < right.len()
        invariant
            i <= left@.len(),
            j <= right@.len(),
            leq == along(boxes@, axis as int),
            vstd::relations::total_ordering(leq),
            sorted_by(left@, leq),
            sorted_by(right@, leq),
            sorted_by(out@, leq),
            out@.len() == i + j,
            out@.to_multiset() == left@.take(i as int).to_multiset().add(
                right@.take(j as int).to_multiset(),
            ),
            forall|k: int| 0 <= k < left@.len() ==> #[trigger] left@[k] < boxes@.len(),
            forall|k: int| 0 <= k < right@.len() ==> #[trigger] right@[k] < boxes@.len(),
            forall|k: int| 0 <= k < out@.len() ==> #[trigger] out@[k] < boxes@.len(),
            forall|k: int| 0 <= k < out@.len() && i < left@.len() ==> leq(#[trigger] out@[k], left@[i as int]),
            forall|k: int| 0 <= k < out@.len() && j < right@.len() ==> leq(#[trigger] out@[k], right@[j as int]),
        decreases left@.len() - i + right@.len() - j,
    {
        let ghost before = out@;
        let from_left = if i == left.len() {
            false
        } else if j == right.len() {
            true
        } else {
            comes_before(boxes, axis, left[i], right[j])
        };
        if from_left {
            let x = left[i];
            out.push(x);
            proof {
                assert(left@.take(i as int + 1) =~= left@.take(i as int).push(x));
                to_multiset_build(left@.take(i as int), x);
                to_multiset_build(before, x);
                assert(out@.to_multiset() =~= left@.take(i as int + 1).to_multiset().add(
                    right@.take(j as int).to_multiset(),
                ));
                assert forall|k: int| 0 <= k < out@.len() && i + 1 < left@.len() implies leq(
                    #[trigger] out@[k],
                    left@[i as int + 1],
                ) by {
                    assert(leq(left@[i as int], left@[i as int + 1]));
                    if k < before.len() {
                        assert(leq(before[k], left@[i as int]));
                    }
                }
            }
            i += 1;
        } else {
            let x = right[j];
            out.push(x);
            proof {
                assert(right@.take(j as int + 1) =~= right@.take(j as int).push(x));
                to_multiset_build(right@.take(j as int), x);
                to_multiset_build(before, x);
                assert(out@.to_multiset() =~= left@.take(i as int).to_multiset().add(
                    right@.take(j as int + 1).to_multiset(),
                ));
                assert forall|k: int| 0 <= k < out@.len() && j + 1 < right@.len() implies leq(
                    #[trigger] out@[k],
                    right@[j as int + 1],
                ) by {
                    assert(leq(right@[j as int], right@[j as int + 1]));
                    if k < before.len() {
                        assert(leq(before[k], right@[j as int]));
                    }
                }
                if i < left@.len() {
                    assert(leq(x, left@[i as int]));
                }
            }
            j += 1;
        }
    }
    proof {
        assert(left@.take(i as int) =~= left@);
        assert(right@.take(j as int) =~= right@);
    }
    out
}

/// The primitives `items` in their order along `axis`.
///
/// The order is total, so the result is the one arrangement of `items` that
/// is sorted. The items are sorted by merging: halved, each half sorted, and
/// the two merged.
pub fn sort_along(boxes: &Vec<AABB>, items: &Vec<usize>, axis: u32) -> (out: Vec<usize>)
    requires
        forall|i: int| 0 <= i < items@.len() ==> #[trigger] items@[i] < boxes@.len(),
    ensures
        sorted_by(out@, along(boxes@, axis as int)),
        out@.to_multiset() == items@.to_multiset(),
        out@.len() == items@.len(),
        forall|i: int| 0 <= i < out@.len() ==> #[trigger] out@[i] < boxes@.len(),
    decreases items@.len(),
{
    let n = items.len();
    let mid = n / 2;
    let mut left: Vec<usize> = Vec::new();
    let mut right: Vec<usize> = Vec::new();
    let mut i: usize = 0;
    while i < n
        invariant
            n == items@.len(),
            mid == n / 2,
            i <= n,
            left@ == items@.take(if i < mid { i as int } else { mid as int }),
            right@ == items@.subrange(mid as int, if i < mid { mid as int } else { i as int }),
        decreases n - i,
    {
        if i < mid {
            left.push(items[i]);
            assert(items@.take(i as int + 1) =~= items@.take(i as int).push(items@[i as int]));
        } else {
            right.push(items[i]);
            assert(items@.subrange(mid as int, i as int + 1) =~= items@.subrange(
                mid as int,
                i as int,
            ).push(items@[i as int]));
        }
        i += 1;
    }
    proof {
        assert(left@ + right@ =~= items@);
        vstd::seq_lib::lemma_multiset_commutative(left@, right@);
    }
    if n <= 1 {
        proof {
            assert(left@ =~= Seq::<usize>::empty());
            assert(right@ =~= items@);
        }
        return right;
    }
    let left = sort_along(boxes, &left, axis);
    let right = sort_along(boxes, &right, axis);
    merge_along(boxes, &left, &right, axis)
}

/// Two sequences with the same elements as often contain the same elements.
proof fn lemma_same_members(a: Seq<usize>, b: Seq<usize>)
    requires
        a.to_multiset() == b.to_multiset(),
    ensures
        forall|x: usize| a.contains(x) <==> b.contains(x),
{
    assert forall|x: usize| a.contains(x) <==> b.contains(x) by {
        vstd::seq_lib::to_multiset_contains(a, x);
        vstd::seq_lib::to_multiset_contains(b, x);
    }
}

/// The primitives `items` in their order along `axis`, cut in two: the first
/// half, rounded down, and the rest.
pub fn split_along(boxes: &Vec<AABB>, items: &Vec<usize>, axis: u32) -> (halves: (
    Vec<usize>,
    Vec<usize>,
))
    requires
        forall|i: int| 0 <= i < items@.len() ==> #[trigger] items@[i] < boxes@.len(),
    ensures
        sorted_by(halves.0@ + halves.1@, along(boxes@, axis as int)),
        (halves.0@ + halves.1@).to_multiset() == items@.to_multiset(),
        halves.0@.len() == items@.len() / 2,
        halves.1@.len() == items@.len() - items@.len() / 2,
{
    let mut sorted = sort_along(boxes, items, axis);
    let ghost whole = sorted@;
    let mid = sorted.len() / 2;
    let right = sorted.split_off(mid);
    assert(sorted@ + right@ =~= whole);
    (sorted, right)
}

impl Node {
    /// A random integer from `min` to `max`, both included.
    pub fn random_int(min: u32, max: u32) -> (r: u32)
        requires
            min <= max,
            max < u32::MAX,
        ensures
            min <= r <= max,
    {
        gen_range(min as usize, max as usize + 1) as u32
    }

    /// Builds the tree over the primitives `items`, whose boxes are `boxes`.
    ///
    /// Each node picks an axis at random. One primitive makes a leaf that
    /// holds it twice, two make a leaf that holds them in their order along
    /// the axis, and more are put in that order, cut at the middle, and built
    /// into the two sides of an inner node. Whatever the axes, the tree is
    /// valid, has the shape that the number of primitives gives it, is split at
    /// every node, and holds the given primitives and no others.
    pub fn build(boxes: &Vec<AABB>, items: Vec<usize>) -> (node: Node)
        requires
            items@.len() > 0,
            forall|i: int| 0 <= i < items@.len() ==> #[trigger] items@[i] < boxes@.len(),
        ensures
            node.wf(boxes@),
            node.halved(items@.len()),
            node.split(boxes@),
            forall|x: usize| node.leaves().contains(x) <==> items@.contains(x),
        decreases items@.len(),
    {
        let axis = Node::random_int(0, 2);
        let n = items.len();
        if n == 1 {
            let i = items[0];
            let node = Node::Leaf { box_: AABB::surrounding_box(boxes[i], boxes[i]), left: i, right: i };
            proof {
                assert(precedes(boxes@, 0, i, i));
                assert forall|x: usize| node.leaves().contains(x) <==> items@.contains(x) by {
                    if node.leaves().contains(x) {
                        assert(x == i);
                        assert(items@[0] == x);
                    }
                    if items@.contains(x) {
                        assert(node.leaves()[0] == x);
                    }
                }
            }
            node
        } else if n == 2 {
            let sorted = sort_along(boxes, &items, axis);
            let l = sorted[0];
            let r = sorted[1];
            let node = Node::Leaf { box_: AABB::surrounding_box(boxes[l], boxes[r]), left: l, right: r };
            proof {
                assert(along(boxes@, axis as int)(sorted@[0], sorted@[1]));
                assert(precedes(boxes@, axis as int, l, r));
                assert(node.leaves() =~= sorted@);
                lemma_same_members(sorted@, items@);
            }
            node
        } else {
            let (left_items, right_items) = split_along(boxes, &items, axis);
            let ghost both = left_items@ + right_items@;
            proof {
                lemma_same_members(both, items@);
                assert forall|i: int| 0 <= i < left_items@.len() implies #[trigger] left_items@[i]
                    < boxes@.len() by {
                    assert(both[i] == left_items@[i]);
                    assert(both.contains(left_items@[i]));
                }
                assert forall|i: int| 0 <= i < right_items@.len() implies #[trigger] right_items@[i]
                    < boxes@.len() by {
                    assert(both[left_items@.len() + i] == right_items@[i]);
                    assert(both.contains(right_items@[i]));
                }
            }
            let left = Node::build(boxes, left_items);
            let right = Node::build(boxes, right_items);
            let node = Node::new_(
                AABB::surrounding_box(left.bounding_box(), right.bounding_box()),
                left,
                right,
            );
            proof {
                assert forall|i: int, j: int|
                    0 <= i < left.leaves().len() && 0 <= j < right.leaves().len() implies precedes(
                    boxes@,
                    axis as int,
                    #[trigger] left.leaves()[i],
                    #[trigger] right.leaves()[j],
                ) by {
                    let a = left.leaves()[i];
                    let b = right.leaves()[j];
                    assert(left.leaves().contains(a));
                    assert(right.leaves().contains(b));
                    let ia = choose|k: int| 0 <= k < left_items@.len() && left_items@[k] == a;
                    let ib = choose|k: int| 0 <= k < right_items@.len() && right_items@[k] == b;
                    assert(both[ia] == a);
                    assert(both[left_items@.len() + ib] == b);
                    assert(along(boxes@, axis as int)(both[ia], both[left_items@.len() + ib]));
                }
                assert(divides(boxes@, axis as int, left.leaves(), right.leaves()));
                assert forall|x: usize| node.leaves().contains(x) <==> items@.contains(x) by {
                    let all = left.leaves() + right.leaves();
                    assert(node.leaves() == all);
                    if all.contains(x) {
                        let k = choose|k: int| 0 <= k < all.len() && all[k] == x;
                        if k < left.leaves().len() {
                            assert(left.leaves()[k] == x);
                            assert(left.leaves().contains(x));
                            let m = choose|m: int| 0 <= m < left_items@.len() && left_items@[m] == x;
                            assert(both[m] == x);
                        } else {
                            assert(right.leaves()[k - left.leaves().len()] == x);
                            assert(right.leaves().contains(x));
                            let m = choose|m: int|
                                0 <= m < right_items@.len() && right_items@[m] == x;
                            assert(both[left_items@.len() + m] == x);
                        }
                        assert(both.contains(x));
                    }
                    if items@.contains(x) {
                        assert(both.contains(x));
                        let k = choose|k: int| 0 <= k < both.len() && both[k] == x;
                        if k < left_items@.len() {
                            assert(left_items@[k] == x);
                            assert(left_items@.contains(x));
                            let m = choose|m: int|
                                0 <= m < left.leaves().len() && left.leaves()[m] == x;
                            assert(all[m] == x);
                        } else {
                            assert(right_items@[k - left_items@.len()] == x);
                            assert(right_items@.contains(x));
                            let m = choose|m: int|
                                0 <= m < right.leaves().len() && right.leaves()[m] == x;
                            assert(all[left.leaves().len() + m] == x);
                        }
                    }
                }
            }
            node
        }
    }
}


impl Node {
    /// What `hit` may return for the primitives `objects`.
    ///
    /// The box of the node is tested first, and where the ray misses it there
    /// is no hit. Else the left side is searched between `t_min` and `t_max`,
    /// then the right side between `t_min` and the parameter of the left hit,
    /// or `t_max` where the left side gave none, and the nearer of the two
    /// hits is the result.
    pub open spec fn hit_of<T: Object>(
        self,
        objects: Seq<T>,
        r: &T::Ray,
        t_min: Scalar,
        t_max: Scalar,
        res: Option<HitRecord<T::Material>>,
    ) -> bool
        decreases self,
    {
        exists|entered: bool| #[trigger]
            self.bound().hit_by(r, t_min, t_max, entered) && if !entered {
                res is None
            } else {
                match self {
                    Node::Leaf { left, right, .. } => exists|hl: Option<HitRecord<T::Material>>|
                        answers(&objects[left as int], r, t_min, t_max, hl) && exists|
                            hr: Option<HitRecord<T::Material>>,
                        |
                            answers(
                                &objects[right as int],
                                r,
                                t_min,
                                #[trigger] closer_of(t_max, hl),
                                hr,
                            ) && res == #[trigger] nearer_of(hl, hr),
                    Node::Inner { left, right, .. } => exists|hl: Option<HitRecord<T::Material>>|
                        left.hit_of(objects, r, t_min, t_max, hl) && exists|
                            hr: Option<HitRecord<T::Material>>,
                        |
                            right.hit_of(objects, r, t_min, #[trigger] closer_of(t_max, hl), hr)
                                && res == #[trigger] nearer_of(hl, hr),
                }
            }
    }

    /// The nearest hit of the ray among the primitives below the node.
    pub fn hit<T: Object>(&self, objects: &Vec<T>, r: &T::Ray, t_min: Scalar, t_max: Scalar) -> (res:
        Option<HitRecord<T::Material>>)
        requires
            self.within(objects@.len()),
        ensures
            self.hit_of(objects@, r, t_min, t_max, res),
        decreases self,
    {
        let entered = self.bounding_box().hit(r, t_min, t_max);
        if !entered {
            return None;
        }
        match self {
            Node::Leaf { left, right, .. } => {
                let hl = objects[*left].hit(r, t_min, t_max);
                let closer = match &hl {
                    Some(y) => y.t,
                    None => t_max,
                };
                let hr = objects[*right].hit(r, t_min, closer);
                let ghost first = hl;
                let ghost second = hr;
                let res = HitRecord::nearer(hl, hr);
                proof {
                    assert(answers(&objects@[*left as int], r, t_min, t_max, first));
                    assert(answers(
                        &objects@[*right as int],
                        r,
                        t_min,
                        closer_of(t_max, first),
                        second,
                    ) && res == nearer_of(first, second));
                }
                res
            },
            Node::Inner { left, right, .. } => {
                let hl = left.hit(objects, r, t_min, t_max);
                let closer = match &hl {
                    Some(y) => y.t,
                    None => t_max,
                };
                let hr = right.hit(objects, r, t_min, closer);
                let ghost first = hl;
                let ghost second = hr;
                let res = HitRecord::nearer(hl, hr);
                proof {
                    assert(right.hit_of(objects@, r, t_min, closer_of(t_max, first), second) && res
                        == nearer_of(first, second));
                }
                res
            },
        }
    }
}

/// A valid tree names only primitives that have a box.
pub proof fn lemma_wf_within(node: Node, boxes: Seq<AABB>)
    requires
        node.wf(boxes),
    ensures
        node.within(boxes.len()),
    decreases node,
{
    match node {
        Node::Leaf { .. } => {},
        Node::Inner { left, right, .. } => {
            lemma_wf_within(*left, boxes);
            lemma_wf_within(*right, boxes);
        },
    }
}

/// A bounding volume hierarchy over a list of primitives, itself a primitive.
///
/// It owns the primitives, remembers the box that each reported when the
/// hierarchy was built, and holds the tree over them. It never changes.
pub struct BvhNode<T: Object> {
    objects: Vec<T>,
    boxes: Vec<AABB>,
    root: Node,
}

/// Whether a reported box can go into a hierarchy: there is one, and it is
/// valid.
pub open spec fn usable(found: Option<AABB>) -> bool {
    found is Some && found->0.wf()
}

impl<T: Object> BvhNode<T> {
    /// The primitives of the hierarchy.
    pub closed spec fn objects(self) -> Seq<T> {
        self.objects@
    }

    /// The boxes of the primitives.
    pub closed spec fn boxes(self) -> Seq<AABB> {
        self.boxes@
    }

    /// The tree over the primitives.
    pub closed spec fn tree(self) -> Node {
        self.root
    }

    /// What holds of every hierarchy: there is at least one primitive, each
    /// has the valid box that it reported, and the tree over them is valid,
    /// has the shape that their number gives it, is split at every node, and
    /// holds each primitive and nothing else.
    pub open spec fn valid(self) -> bool {
        &&& 0 < self.objects().len() <= usize::MAX
        &&& self.boxes().len() == self.objects().len()
        &&& forall|i: int|
            0 <= i < self.boxes().len() ==> (#[trigger] self.boxes()[i]).wf() && reports(
                &self.objects()[i],
                Some(self.boxes()[i]),
            )
        &&& self.tree().wf(self.boxes())
        &&& self.tree().halved(self.objects().len())
        &&& self.tree().split(self.boxes())
        &&& forall|x: usize| self.tree().leaves().contains(x) <==> x < self.objects().len()
    }

    #[verifier::type_invariant]
    spec fn inv(self) -> bool {
        self.valid()
    }

    /// What `new` may return for the primitives `objects`.
    ///
    /// The primitives are asked for their boxes, one after another from the
    /// first, and `found` is what they reported. Building stops with an error
    /// at the first primitive whose box cannot be used; with none such, the
    /// hierarchy holds the primitives and their boxes.
    pub open spec fn built(objects: Seq<T>, res: Result<BvhNode<T>, BvhError>) -> bool {
        exists|found: Seq<Option<AABB>>|
            {
                &&& found.len() <= objects.len()
                &&& forall|i: int| 0 <= i < found.len() ==> reports(&objects[i], #[trigger] found[i])
                &&& forall|i: int| 0 <= i < found.len() - 1 ==> usable(#[trigger] found[i])
                &&& match res {
                    Err(BvhError::Empty) => objects.len() == 0,
                    Err(BvhError::NoBoundingBox(i)) => found.len() == i + 1 && found[i as int] is None,
                    Err(BvhError::InvalidBox(i)) => found.len() == i + 1 && found[i as int] is Some
                        && !found[i as int]->0.wf(),
                    Ok(bvh) => {
                        &&& objects.len() > 0
                        &&& found.len() == objects.len()
                        &&& usable(found.last())
                        &&& bvh.objects() == objects
                        &&& bvh.boxes() == found.map_values(|b: Option<AABB>| b->0)
                        &&& bvh.valid()
                    },
                }
            }
    }

    /// Builds the hierarchy over the primitives of `world`.
    ///
    /// Every primitive must have a valid bounding box: the first that has
    /// none, or an invalid one, is named in the error. An empty list is an
    /// error too. The time interval from `_t0` to `_t1` is not looked at:
    /// primitives do not move.
    pub fn new(world: HittableList<T>, _t0: Scalar, _t1: Scalar) -> (res: Result<
        BvhNode<T>,
        BvhError,
    >)
        ensures
            Self::built(world.objects@, res),
    {
        let ghost given = world.objects@;
        let objects = world.objects;
        let n = objects.len();
        if n == 0 {
            assert(Self::built(objects@, Err(BvhError::Empty))) by {
                let found = Seq::<Option<AABB>>::empty();
                assert(found.len() <= objects@.len());
            }
            return Err(BvhError::Empty);
        }
        let mut boxes: Vec<AABB> = Vec::new();
        let mut items: Vec<usize> = Vec::new();
        let ghost mut found: Seq<Option<AABB>> = Seq::empty();
        let mut i: usize = 0;
        while i < n
            invariant
                objects@ == given,
                given == world.objects@,
                n == objects@.len(),
                i <= n,
                found.len() == i,
                boxes@.len() == i,
                items@.len() == i,
                forall|k: int| 0 <= k < i ==> reports(&objects@[k], #[trigger] found[k]),
                forall|k: int| 0 <= k < i ==> usable(#[trigger] found[k]),
                forall|k: int| 0 <= k < i ==> #[trigger] boxes@[k] == found[k]->0,
                forall|k: int| 0 <= k < i ==> #[trigger] items@[k] == k,
            decreases n - i,
        {
            let reported = objects[i].bounding_box();
            proof {
                found = found.push(reported);
            }
            match reported {
                None => {
                    assert(Self::built(objects@, Err(BvhError::NoBoundingBox(i)))) by {
                        assert(found.len() <= objects@.len());
                    }
                    return Err(BvhError::NoBoundingBox(i));
                },
                Some(bx) => {
                    if !bx.is_valid() {
                        assert(Self::built(objects@, Err(BvhError::InvalidBox(i)))) by {
                            assert(found.len() <= objects@.len());
                        }
                        return Err(BvhError::InvalidBox(i));
                    }
                    boxes.push(bx);
                    items.push(i);
                },
            }
            i += 1;
        }
        let root = Node::build(&boxes, items);
        proof {
            assert(boxes@ =~= found.map_values(|b: Option<AABB>| b->0));
            assert forall|x: usize| root.leaves().contains(x) <==> x < n by {
                if x < n {
                    assert(items@[x as int] == x);
                    assert(items@.contains(x));
                }
                if items@.contains(x) {
                    let k = choose|k: int| 0 <= k < items@.len() && items@[k] == x;
                    assert(x < n);
                }
            }
        }
        let bvh = BvhNode { objects, boxes, root };
        assert(Self::built(bvh.objects(), Ok(bvh))) by {
            assert(found.len() <= bvh.objects().len());
        }
        Ok(bvh)
    }

    /// The primitives of the hierarchy, in the order of the list that it was
    /// built from.
    pub fn primitives(&self) -> (objects: &Vec<T>)
        ensures
            objects@ == self.objects(),
            self.valid(),
    {
        proof {
            use_type_invariant(self);
        }
        &self.objects
    }

    /// The boxes of the primitives, as they reported them.
    pub fn primitive_boxes(&self) -> (boxes: &Vec<AABB>)
        ensures
            boxes@ == self.boxes(),
            self.valid(),
    {
        proof {
            use_type_invariant(self);
        }
        &self.boxes
    }

    /// The root of the tree.
    pub fn root(&self) -> (node: &Node)
        ensures
            *node == self.tree(),
            self.valid(),
    {
        proof {
            use_type_invariant(self);
        }
        &self.root
    }
}

impl<T: Object> Object for BvhNode<T> {
    type Ray = T::Ray;

    type Material = T::Material;

    /// The nearest hit of the ray among the primitives, found by descending
    /// the tree.
    fn hit(&self, r: &T::Ray, t_min: Scalar, t_max: Scalar) -> (res: Option<HitRecord<T::Material>>)
        ensures
            self.valid(),
            self.tree().hit_of(self.objects(), r, t_min, t_max, res),
    {
        proof {
            use_type_invariant(self);
            lemma_wf_within(self.root, self.boxes@);
        }
        self.root.hit(&self.objects, r, t_min, t_max)
    }

    /// The box around all primitives: the cached box of the root.
    fn bounding_box(&self) -> (res: Option<AABB>)
        ensures
            self.valid(),
            res == Some(self.tree().bound()),
    {
        proof {
            use_type_invariant(self);
        }
        Some(self.root.bounding_box())
    }
}


impl Node {
    /// Whether `sub` is this node or a node below it.
    pub open spec fn has(self, sub: Node) -> bool
        decreases self,
    {
        self == sub || match self {
            Node::Leaf { .. } => false,
            Node::Inner { left, right, .. } => left.has(sub) || right.has(sub),
        }
    }
}

/// Every node of a valid tree is the root of a valid tree.
pub proof fn lemma_subtree_wf(root: Node, node: Node, boxes: Seq<AABB>)
    requires
        root.wf(boxes),
        root.has(node),
    ensures
        node.wf(boxes),
    decreases root,
{
    if root != node {
        match root {
            Node::Leaf { .. } => {},
            Node::Inner { left, right, .. } => {
                if left.has(node) {
                    lemma_subtree_wf(*left, node, boxes);
                } else {
                    lemma_subtree_wf(*right, node, boxes);
                }
            },
        }
    }
}

/// The cached box of a valid tree is valid and contains the box of every
/// primitive below it.
pub proof fn lemma_bound_contains_leaves(node: Node, boxes: Seq<AABB>, k: int)
    requires
        node.wf(boxes),
        forall|i: int| 0 <= i < boxes.len() ==> (#[trigger] boxes[i]).wf(),
        0 <= k < node.leaves().len(),
    ensures
        node.bound().wf(),
        node.leaves()[k] < boxes.len(),
        node.bound().contains(boxes[node.leaves()[k] as int]),
    decreases node,
{
    match node {
        Node::Leaf { left, right, .. } => {
            crate::aabb::lemma_union_contains(boxes[left as int], boxes[right as int]);
        },
        Node::Inner { left, right, .. } => {
            lemma_leaves_nonempty(*left);
            lemma_leaves_nonempty(*right);
            lemma_bound_contains_leaves(*left, boxes, 0);
            lemma_bound_contains_leaves(*right, boxes, 0);
            crate::aabb::lemma_union_contains(left.bound(), right.bound());
            let inner = boxes[node.leaves()[k] as int];
            if k < left.leaves().len() {
                lemma_bound_contains_leaves(*left, boxes, k);
                crate::aabb::lemma_contains_order(node.bound(), left.bound(), inner);
            } else {
                lemma_bound_contains_leaves(*right, boxes, k - left.leaves().len());
                crate::aabb::lemma_contains_order(node.bound(), right.bound(), inner);
            }
        },
    }
}

/// Every tree has leaves.
pub proof fn lemma_leaves_nonempty(node: Node)
    ensures
        node.leaves().len() >= 2,
    decreases node,
{
    match node {
        Node::Leaf { .. } => {},
        Node::Inner { left, right, .. } => {
            lemma_leaves_nonempty(*left);
            lemma_leaves_nonempty(*right);
        },
    }
}

/// The box over some primitives is valid, contains the box of each, and lies
/// in every box that contains them all.
pub proof fn lemma_box_over(boxes: Seq<AABB>, leaves: Seq<usize>, k: int, outer: AABB)
    requires
        forall|i: int| 0 <= i < boxes.len() ==> (#[trigger] boxes[i]).wf(),
        forall|i: int| 0 <= i < leaves.len() ==> #[trigger] leaves[i] < boxes.len(),
        0 <= k < leaves.len(),
    ensures
        box_over(boxes, leaves).wf(),
        box_over(boxes, leaves).contains(boxes[leaves[k] as int]),
        (forall|i: int| 0 <= i < leaves.len() ==> outer.contains(boxes[#[trigger] leaves[i] as int]))
            ==> outer.contains(box_over(boxes, leaves)),
    decreases leaves.len(),
{
    if leaves.len() > 1 {
        let rest = leaves.drop_last();
        let last = boxes[leaves.last() as int];
        assert(forall|i: int| 0 <= i < rest.len() ==> rest[i] == leaves[i]);
        lemma_box_over(boxes, rest, if k < rest.len() { k } else { 0 }, outer);
        crate::aabb::lemma_union_contains(box_over(boxes, rest), last);
        crate::aabb::lemma_contains_order(
            box_over(boxes, leaves),
            box_over(boxes, rest),
            boxes[leaves[k] as int],
        );
        if forall|i: int| 0 <= i < leaves.len() ==> outer.contains(boxes[#[trigger] leaves[i] as int]) {
            assert forall|i: int| 0 <= i < rest.len() implies outer.contains(
                boxes[#[trigger] rest[i] as int],
            ) by {
                assert(rest[i] == leaves[i]);
            }
            assert(outer.contains(boxes[leaves[leaves.len() - 1] as int]));
            crate::aabb::lemma_union_least(box_over(boxes, rest), last, outer);
        }
    }
}

/// Box containment. For every node of a valid tree, the cached box contains
/// the box of every primitive below the node, and it is the box around them:
/// taken afresh from the primitives' boxes, the box has the same corners.
pub proof fn lemma_box_containment(root: Node, node: Node, boxes: Seq<AABB>)
    requires
        root.wf(boxes),
        root.has(node),
        forall|i: int| 0 <= i < boxes.len() ==> (#[trigger] boxes[i]).wf(),
    ensures
        forall|k: int|
            0 <= k < node.leaves().len() ==> node.bound().contains(
                boxes[#[trigger] node.leaves()[k] as int],
            ),
        node.bound().alike(box_over(boxes, node.leaves())),
{
    lemma_subtree_wf(root, node, boxes);
    lemma_leaves_nonempty(node);
    let leaves = node.leaves();
    assert forall|k: int| 0 <= k < leaves.len() implies node.bound().contains(
        boxes[#[trigger] leaves[k] as int],
    ) && leaves[k] < boxes.len() by {
        lemma_bound_contains_leaves(node, boxes, k);
    }
    lemma_box_over(boxes, leaves, 0, node.bound());
    assert forall|k: int| 0 <= k < leaves.len() implies box_over(boxes, leaves).contains(
        boxes[#[trigger] leaves[k] as int],
    ) by {
        lemma_box_over(boxes, leaves, k, node.bound());
    }
    lemma_bound_is_least(node, boxes, box_over(boxes, leaves));
    crate::aabb::lemma_contains_order(node.bound(), box_over(boxes, leaves), node.bound());
}

/// The cached box of a valid tree lies in every box that contains the boxes
/// of the primitives below it.
pub proof fn lemma_bound_is_least(node: Node, boxes: Seq<AABB>, outer: AABB)
    requires
        node.wf(boxes),
        forall|i: int| 0 <= i < boxes.len() ==> (#[trigger] boxes[i]).wf(),
        forall|k: int|
            0 <= k < node.leaves().len() ==> outer.contains(boxes[#[trigger] node.leaves()[k] as int]),
    ensures
        outer.contains(node.bound()),
    decreases node,
{
    match node {
        Node::Leaf { left, right, .. } => {
            assert(node.leaves()[0] == left && node.leaves()[1] == right);
            crate::aabb::lemma_union_least(boxes[left as int], boxes[right as int], outer);
        },
        Node::Inner { left, right, .. } => {
            let all = node.leaves();
            assert forall|k: int| 0 <= k < left.leaves().len() implies outer.contains(
                boxes[#[trigger] left.leaves()[k] as int],
            ) by {
                assert(all[k] == left.leaves()[k]);
            }
            assert forall|k: int| 0 <= k < right.leaves().len() implies outer.contains(
                boxes[#[trigger] right.leaves()[k] as int],
            ) by {
                assert(all[left.leaves().len() + k] == right.leaves()[k]);
            }
            lemma_bound_is_least(*left, boxes, outer);
            lemma_bound_is_least(*right, boxes, outer);
            crate::aabb::lemma_union_least(left.bound(), right.bound(), outer);
        },
    }
}

} // verus!
