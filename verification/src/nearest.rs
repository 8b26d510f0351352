//! Why the hierarchy finds what the linear search finds.
//!
//! The kernel cannot see inside a primitive, so the law is stated for every
//! scene that behaves as a scene of real shapes does. Such a scene has a
//! model: for each primitive the place of its first intersection with the ray
//! beyond `t_min`, if there is one. Against that model the primitives answer
//! with their first intersection, and the slab test never turns away a ray
//! that hits something inside the box.
use crate::aabb::AABB;
use crate::bvh::{lemma_bound_contains_leaves, BvhNode, Node};
use crate::hittable_list::{scan, scan_from};
use crate::object::{answers, closer_of, nearer_of, HitRecord, Object};
use crate::scalar::Scalar;
use vstd::prelude::*;

verus! {

/// Whether the primitives answer with their first intersection.
///
/// `first(i)` models primitive `i`: the rank of the ray parameter of its first
/// intersection beyond `t_min`, or `None` if the ray misses it. Asked for a
/// hit before a far end `c` that is at most `t_max`, the primitive answers
/// with a hit at exactly that parameter where it lies before `c`, and with
/// none where it does not.
pub open spec fn nearest_first<T: Object>(
    objects: Seq<T>,
    r: &T::Ray,
    t_min: Scalar,
    t_max: Scalar,
    first: spec_fn(int) -> Option<int>,
) -> bool {
    forall|i: int, c: Scalar, a: Option<HitRecord<T::Material>>|
        0 <= i < objects.len() && c.at_most(t_max) && #[trigger] answers(&objects[i], r, t_min, c, a)
            ==> match a {
            Some(rec) => rec.t.less(c) && first(i) == Some(rec.t.rank()),
            None => first(i) is None || first(i)->0 >= c.rank(),
        }
}

/// Whether the slab test is sound for the scene: where primitive `i` is hit
/// before a far end `c`, the test says yes, for the range up to `c`, of every
/// box that contains the primitive's box.
pub open spec fn sound_boxes<T: Object>(
    boxes: Seq<AABB>,
    r: &T::Ray,
    t_min: Scalar,
    t_max: Scalar,
    first: spec_fn(int) -> Option<int>,
) -> bool {
    forall|i: int, b: AABB, c: Scalar, entered: bool|
        0 <= i < boxes.len() && c.at_most(t_max) && first(i) is Some && first(i)->0 < c.rank()
            && #[trigger] b.contains(boxes[i]) && #[trigger] b.hit_by(r, t_min, c, entered)
            ==> entered
}

/// Whether `res` is a hit that primitive `i` gave when it was asked for a hit
/// before some far end that is at most `t_max`.
pub open spec fn came_from<T: Object>(
    objects: Seq<T>,
    r: &T::Ray,
    t_min: Scalar,
    t_max: Scalar,
    i: int,
    res: Option<HitRecord<T::Material>>,
) -> bool {
    exists|c: Scalar| c.at_most(t_max) && #[trigger] answers(&objects[i], r, t_min, c, res)
}

/// Whether `res` is the nearest hit before `c` among the primitives `among`,
/// as the model has it: a hit lies before `c`, at the first intersection of
/// the one of them that gave it, and no other of them is hit earlier; and
/// there is a hit where one of them is hit before `c`.
pub open spec fn nearest_among<T: Object>(
    objects: Seq<T>,
    r: &T::Ray,
    t_min: Scalar,
    t_max: Scalar,
    among: Seq<usize>,
    c: Scalar,
    first: spec_fn(int) -> Option<int>,
    res: Option<HitRecord<T::Material>>,
) -> bool {
    &&& res is Some ==> res->0.t.less(c) && exists|k: int|
        0 <= k < among.len() && first(#[trigger] among[k] as int) == Some(res->0.t.rank())
            && came_from(objects, r, t_min, t_max, among[k] as int, res)
    &&& forall|k: int|
        0 <= k < among.len() && first(#[trigger] among[k] as int) is Some && first(
            among[k] as int,
        )->0 < c.rank() ==> res is Some && res->0.t.rank() <= first(among[k] as int)->0
}

/// The nearer of the nearest hits of two groups of primitives is the nearest
/// hit of both groups together, where the second group was searched up to the
/// hit in the first.
proof fn lemma_nearer_of_two<T: Object>(
    objects: Seq<T>,
    r: &T::Ray,
    t_min: Scalar,
    t_max: Scalar,
    left: Seq<usize>,
    right: Seq<usize>,
    c: Scalar,
    first: spec_fn(int) -> Option<int>,
    hl: Option<HitRecord<T::Material>>,
    hr: Option<HitRecord<T::Material>>,
)
    requires
        c.is_number(),
        nearest_among(objects, r, t_min, t_max, left, c, first, hl),
        nearest_among(objects, r, t_min, t_max, right, closer_of(c, hl), first, hr),
    ensures
        nearest_among(objects, r, t_min, t_max, left + right, c, first, nearer_of(hl, hr)),
{
    let all = left + right;
    let res = nearer_of(hl, hr);
    if res is Some {
        if res == hl {
            let k = choose|k: int|
                0 <= k < left.len() && first(#[trigger] left[k] as int) == Some(hl->0.t.rank())
                    && came_from(objects, r, t_min, t_max, left[k] as int, hl);
            assert(all[k] == left[k]);
        } else {
            let k = choose|k: int|
                0 <= k < right.len() && first(#[trigger] right[k] as int) == Some(hr->0.t.rank())
                    && came_from(objects, r, t_min, t_max, right[k] as int, hr);
            assert(all[left.len() + k] == right[k]);
        }
    }
    assert forall|k: int|
        0 <= k < all.len() && first(#[trigger] all[k] as int) is Some && first(all[k] as int)->0
            < c.rank() implies res is Some && res->0.t.rank() <= first(all[k] as int)->0 by {
        if k < left.len() {
            assert(all[k] == left[k]);
        } else {
            assert(all[k] == right[k - left.len()]);
        }
    }
}

/// The hierarchy finds the nearest hit. Whatever a valid tree returns for a
/// scene that behaves, it is the nearest hit before `c` among the primitives
/// below the node.
pub proof fn lemma_tree_finds_nearest<T: Object>(
    node: Node,
    objects: Seq<T>,
    boxes: Seq<AABB>,
    r: &T::Ray,
    t_min: Scalar,
    t_max: Scalar,
    c: Scalar,
    first: spec_fn(int) -> Option<int>,
    res: Option<HitRecord<T::Material>>,
)
    requires
        node.wf(boxes),
        boxes.len() == objects.len(),
        forall|i: int| 0 <= i < boxes.len() ==> (#[trigger] boxes[i]).wf(),
        nearest_first(objects, r, t_min, t_max, first),
        sound_boxes::<T>(boxes, r, t_min, t_max, first),
        c.at_most(t_max),
        node.hit_of(objects, r, t_min, c, res),
    ensures
        nearest_among(objects, r, t_min, t_max, node.leaves(), c, first, res),
    decreases node,
{
    let leaves = node.leaves();
    let entered = choose|entered: bool| #[trigger]
        node.bound().hit_by(r, t_min, c, entered) && if !entered {
            res is None
        } else {
            match node {
                Node::Leaf { left, right, .. } => exists|hl: Option<HitRecord<T::Material>>|
                    answers(&objects[left as int], r, t_min, c, hl) && exists|
                        hr: Option<HitRecord<T::Material>>,
                    |
                        answers(&objects[right as int], r, t_min, #[trigger] closer_of(c, hl), hr)
                            && res == #[trigger] nearer_of(hl, hr),
                Node::Inner { left, right, .. } => exists|hl: Option<HitRecord<T::Material>>|
                    left.hit_of(objects, r, t_min, c, hl) && exists|
                        hr: Option<HitRecord<T::Material>>,
                    |
                        right.hit_of(objects, r, t_min, #[trigger] closer_of(c, hl), hr) && res
                            == #[trigger] nearer_of(hl, hr),
            }
        };
    if !entered {
        assert forall|k: int|
            0 <= k < leaves.len() && first(#[trigger] leaves[k] as int) is Some && first(
                leaves[k] as int,
            )->0 < c.rank() implies false by {
            lemma_bound_contains_leaves(node, boxes, k);
            assert(node.bound().contains(boxes[leaves[k] as int]));
        }
    } else {
        match node {
            Node::Leaf { left, right, .. } => {
                let hl = choose|hl: Option<HitRecord<T::Material>>|
                    answers(&objects[left as int], r, t_min, c, hl) && exists|
                        hr: Option<HitRecord<T::Material>>,
                    |
                        answers(&objects[right as int], r, t_min, #[trigger] closer_of(c, hl), hr)
                            && res == #[trigger] nearer_of(hl, hr);
                let hr = choose|hr: Option<HitRecord<T::Material>>|
                    answers(&objects[right as int], r, t_min, #[trigger] closer_of(c, hl), hr)
                        && res == #[trigger] nearer_of(hl, hr);
                let one = seq![left];
                let other = seq![right];
                assert(one[0] == left);
                assert(other[0] == right);
                assert(hl is Some ==> came_from(objects, r, t_min, t_max, one[0] as int, hl));
                assert(nearest_among(objects, r, t_min, t_max, one, c, first, hl));
                assert(closer_of(c, hl).at_most(t_max));
                assert(hr is Some ==> came_from(objects, r, t_min, t_max, other[0] as int, hr));
                assert(nearest_among(objects, r, t_min, t_max, other, closer_of(c, hl), first, hr));
                lemma_nearer_of_two(objects, r, t_min, t_max, one, other, c, first, hl, hr);
                assert(one + other =~= leaves);
            },
            Node::Inner { left, right, .. } => {
                let hl = choose|hl: Option<HitRecord<T::Material>>|
                    left.hit_of(objects, r, t_min, c, hl) && exists|
                        hr: Option<HitRecord<T::Material>>,
                    |
                        right.hit_of(objects, r, t_min, #[trigger] closer_of(c, hl), hr) && res
                            == #[trigger] nearer_of(hl, hr);
                let hr = choose|hr: Option<HitRecord<T::Material>>|
                    right.hit_of(objects, r, t_min, #[trigger] closer_of(c, hl), hr) && res
                        == #[trigger] nearer_of(hl, hr);
                lemma_tree_finds_nearest(*left, objects, boxes, r, t_min, t_max, c, first, hl);
                assert(closer_of(c, hl).at_most(t_max));
                lemma_tree_finds_nearest(
                    *right,
                    objects,
                    boxes,
                    r,
                    t_min,
                    t_max,
                    closer_of(c, hl),
                    first,
                    hr,
                );
                lemma_nearer_of_two(
                    objects,
                    r,
                    t_min,
                    t_max,
                    left.leaves(),
                    right.leaves(),
                    c,
                    first,
                    hl,
                    hr,
                );
            },
        }
    }
}


/// The indices below `n`, in order.
pub open spec fn indices(n: int) -> Seq<usize> {
    Seq::new(n as nat, |i: int| i as usize)
}

/// The linear search finds the nearest hit. Let the search have come to
/// member `from` with the nearest hit among the members before it. Then what
/// it returns in the end is the nearest hit among all members.
pub proof fn lemma_scan_finds_nearest<T: Object>(
    objects: Seq<T>,
    r: &T::Ray,
    t_min: Scalar,
    t_max: Scalar,
    first: spec_fn(int) -> Option<int>,
    from: int,
    closest: Scalar,
    best: Option<HitRecord<T::Material>>,
    res: Option<HitRecord<T::Material>>,
)
    requires
        objects.len() <= usize::MAX,
        nearest_first(objects, r, t_min, t_max, first),
        t_max.is_number(),
        0 <= from <= objects.len(),
        closest == closer_of(t_max, best),
        nearest_among(objects, r, t_min, t_max, indices(from), t_max, first, best),
        scan_from(objects, r, t_min, from, closest, best, res),
    ensures
        nearest_among(objects, r, t_min, t_max, indices(objects.len() as int), t_max, first, res),
    decreases objects.len() - from,
{
    if from < objects.len() {
        let a = choose|a: Option<HitRecord<T::Material>>| #[trigger]
            answers(&objects[from], r, t_min, closest, a) && match a {
                Some(rec) => scan_from(objects, r, t_min, from + 1, rec.t, a, res),
                None => scan_from(objects, r, t_min, from + 1, closest, best, res),
            };
        let before = indices(from);
        let now = indices(from + 1);
        assert(now[from] == from as usize);
        assert(forall|k: int| 0 <= k < from ==> now[k] == before[k]);
        match a {
            Some(rec) => {
                assert(nearest_among(objects, r, t_min, t_max, now, t_max, first, a)) by {
                    assert(first(now[from] as int) == Some(rec.t.rank()));
                    assert(came_from(objects, r, t_min, t_max, now[from] as int, a));
                    assert forall|k: int|
                        0 <= k < now.len() && first(#[trigger] now[k] as int) is Some && first(
                            now[k] as int,
                        )->0 < t_max.rank() implies rec.t.rank() <= first(now[k] as int)->0 by {
                        if k < from {
                            assert(now[k] == before[k]);
                        }
                    }
                }
                lemma_scan_finds_nearest(objects, r, t_min, t_max, first, from + 1, rec.t, a, res);
            },
            None => {
                assert(nearest_among(objects, r, t_min, t_max, now, t_max, first, best)) by {
                    if best is Some {
                        let k = choose|k: int|
                            0 <= k < before.len() && first(#[trigger] before[k] as int) == Some(
                                best->0.t.rank(),
                            ) && came_from(objects, r, t_min, t_max, before[k] as int, best);
                        assert(now[k] == before[k]);
                    }
                    assert forall|k: int|
                        0 <= k < now.len() && first(#[trigger] now[k] as int) is Some && first(
                            now[k] as int,
                        )->0 < t_max.rank() implies best is Some && best->0.t.rank() <= first(
                        now[k] as int,
                    )->0 by {
                        if k < from {
                            assert(now[k] == before[k]);
                        }
                    }
                }
                lemma_scan_finds_nearest(
                    objects,
                    r,
                    t_min,
                    t_max,
                    first,
                    from + 1,
                    closest,
                    best,
                    res,
                );
            },
        }
    } else {
        assert(indices(from) =~= indices(objects.len() as int));
    }
}

/// Completeness of the hierarchy: it finds what the linear search finds.
///
/// Take a hierarchy and a ray, and a scene that behaves: against some model
/// `first` the primitives answer with their first intersection, and the slab
/// test is sound. Let `via_tree` be what the hierarchy returns for the range
/// from `t_min` to `t_max`, and `via_scan` what the linear search over the
/// same primitives returns. Then both found a hit or neither did, and the
/// two hits lie at the same ray parameter, which is the least among the
/// primitives that the ray hits before `t_max`. This holds whatever axes the
/// hierarchy was built along.
pub proof fn lemma_tree_agrees_with_scan<T: Object>(
    bvh: BvhNode<T>,
    r: &T::Ray,
    t_min: Scalar,
    t_max: Scalar,
    first: spec_fn(int) -> Option<int>,
    via_tree: Option<HitRecord<T::Material>>,
    via_scan: Option<HitRecord<T::Material>>,
)
    requires
        bvh.valid(),
        t_max.is_number(),
        nearest_first(bvh.objects(), r, t_min, t_max, first),
        sound_boxes::<T>(bvh.boxes(), r, t_min, t_max, first),
        bvh.tree().hit_of(bvh.objects(), r, t_min, t_max, via_tree),
        scan(bvh.objects(), r, t_min, t_max, via_scan),
    ensures
        via_tree is Some <==> via_scan is Some,
        via_tree is Some ==> via_tree->0.t.same(via_scan->0.t),
        via_tree is Some ==> via_tree->0.t.less(t_max),
        forall|i: int|
            0 <= i < bvh.objects().len() && (#[trigger] first(i)) is Some && first(i)->0
                < t_max.rank() ==> via_tree is Some && via_tree->0.t.rank() <= first(i)->0,
{
    let n = bvh.objects().len() as int;
    let leaves = bvh.tree().leaves();
    let all = indices(n);
    lemma_tree_finds_nearest(
        bvh.tree(),
        bvh.objects(),
        bvh.boxes(),
        r,
        t_min,
        t_max,
        t_max,
        first,
        via_tree,
    );
    assert(indices(0) =~= Seq::<usize>::empty());
    lemma_scan_finds_nearest(
        bvh.objects(),
        r,
        t_min,
        t_max,
        first,
        0,
        t_max,
        None,
        via_scan,
    );
    assert forall|i: int|
        0 <= i < n && (#[trigger] first(i)) is Some && first(i)->0
            < t_max.rank() implies via_tree is Some && via_tree->0.t.rank() <= first(i)->0
        && via_scan is Some && via_scan->0.t.rank() <= first(i)->0 by {
        assert(leaves.contains(i as usize));
        let k = choose|k: int| 0 <= k < leaves.len() && leaves[k] == i as usize;
        assert(first(leaves[k] as int) == first(i));
        assert(all[i] == i as usize);
        assert(first(all[i] as int) == first(i));
    }
    if via_tree is Some {
        let k = choose|k: int|
            0 <= k < leaves.len() && first(#[trigger] leaves[k] as int) == Some(
                via_tree->0.t.rank(),
            ) && came_from(bvh.objects(), r, t_min, t_max, leaves[k] as int, via_tree);
        assert(leaves.contains(leaves[k]));
        assert(first(leaves[k] as int) is Some);
    }
    if via_scan is Some {
        let k = choose|k: int|
            0 <= k < all.len() && first(#[trigger] all[k] as int) == Some(via_scan->0.t.rank())
                && came_from(bvh.objects(), r, t_min, t_max, all[k] as int, via_scan);
        assert(first(k) is Some);
    }
}


/// Whether every primitive has one hit to give: whatever far end it is asked
/// with, where it answers with a hit, it is the same hit.
pub open spec fn single_valued<T: Object>(
    objects: Seq<T>,
    r: &T::Ray,
    t_min: Scalar,
    t_max: Scalar,
) -> bool {
    forall|
        i: int,
        c1: Scalar,
        c2: Scalar,
        a1: Option<HitRecord<T::Material>>,
        a2: Option<HitRecord<T::Material>>,
    |
        0 <= i < objects.len() && c1.at_most(t_max) && c2.at_most(t_max) && a1 is Some && a2 is Some
            && #[trigger] answers(&objects[i], r, t_min, c1, a1) && #[trigger] answers(
            &objects[i],
            r,
            t_min,
            c2,
            a2,
        ) ==> a1 == a2
}

/// Whether no two primitives are first hit at the same ray parameter.
pub open spec fn no_ties(n: int, first: spec_fn(int) -> Option<int>) -> bool {
    forall|i: int, j: int|
        0 <= i < n && 0 <= j < n && i != j && (#[trigger] first(i)) is Some && (#[trigger] first(
            j,
        )) is Some ==> first(i) != first(j)
}

/// The hierarchy returns the very hit that the linear search returns, where
/// the scene behaves, every primitive has one hit to give, and no two
/// primitives are first hit at the same ray parameter.
pub proof fn lemma_tree_returns_what_scan_returns<T: Object>(
    bvh: BvhNode<T>,
    r: &T::Ray,
    t_min: Scalar,
    t_max: Scalar,
    first: spec_fn(int) -> Option<int>,
    via_tree: Option<HitRecord<T::Material>>,
    via_scan: Option<HitRecord<T::Material>>,
)
    requires
        bvh.valid(),
        t_max.is_number(),
        nearest_first(bvh.objects(), r, t_min, t_max, first),
        sound_boxes::<T>(bvh.boxes(), r, t_min, t_max, first),
        single_valued(bvh.objects(), r, t_min, t_max),
        no_ties(bvh.objects().len() as int, first),
        bvh.tree().hit_of(bvh.objects(), r, t_min, t_max, via_tree),
        scan(bvh.objects(), r, t_min, t_max, via_scan),
    ensures
        via_tree == via_scan,
{
    let objects = bvh.objects();
    let n = objects.len() as int;
    let leaves = bvh.tree().leaves();
    let all = indices(n);
    lemma_tree_agrees_with_scan(bvh, r, t_min, t_max, first, via_tree, via_scan);
    lemma_tree_finds_nearest(bvh.tree(), objects, bvh.boxes(), r, t_min, t_max, t_max, first, via_tree);
    assert(indices(0) =~= Seq::<usize>::empty());
    lemma_scan_finds_nearest(objects, r, t_min, t_max, first, 0, t_max, None, via_scan);
    if via_tree is Some {
        let k = choose|k: int|
            0 <= k < leaves.len() && first(#[trigger] leaves[k] as int) == Some(
                via_tree->0.t.rank(),
            ) && came_from(objects, r, t_min, t_max, leaves[k] as int, via_tree);
        let m = choose|m: int|
            0 <= m < all.len() && first(#[trigger] all[m] as int) == Some(via_scan->0.t.rank())
                && came_from(objects, r, t_min, t_max, all[m] as int, via_scan);
        assert(leaves.contains(leaves[k]));
        let i = leaves[k] as int;
        assert(all[m] as int == m);
        assert(first(i) is Some && first(m) is Some);
        assert(i == m);
        let c1 = choose|c: Scalar| c.at_most(t_max) && #[trigger] answers(&objects[i], r, t_min, c, via_tree);
        let c2 = choose|c: Scalar| c.at_most(t_max) && #[trigger] answers(&objects[i], r, t_min, c, via_scan);
        assert(answers(&objects[i], r, t_min, c1, via_tree) && answers(
            &objects[i],
            r,
            t_min,
            c2,
            via_scan,
        ));
    }
}


/// The least of the first intersections of the primitives below `n`: the
/// model of the aggregate that they make up.
pub open spec fn least_first(first: spec_fn(int) -> Option<int>, n: int) -> Option<int>
    decreases n,
{
    if n <= 0 {
        None
    } else {
        match (least_first(first, n - 1), first(n - 1)) {
            (None, last) => last,
            (rest, None) => rest,
            (Some(a), Some(b)) => Some(if b < a { b } else { a }),
        }
    }
}

/// The least first intersection is the first intersection of a primitive, and
/// no primitive has an earlier one.
pub proof fn lemma_least_first(first: spec_fn(int) -> Option<int>, n: int)
    ensures
        least_first(first, n) is Some ==> exists|i: int|
            0 <= i < n && #[trigger] first(i) == least_first(first, n),
        forall|i: int|
            0 <= i < n && (#[trigger] first(i)) is Some ==> least_first(first, n) is Some
                && least_first(first, n)->0 <= first(i)->0,
    decreases n,
{
    if n > 0 {
        lemma_least_first(first, n - 1);
        if least_first(first, n) is Some {
            if least_first(first, n) == first(n - 1) {
            } else {
                let i = choose|i: int| 0 <= i < n - 1 && #[trigger] first(i) == least_first(first, n - 1);
                assert(first(i) == least_first(first, n));
            }
        }
    }
}

/// A hierarchy answers with its first intersection, as its primitives do.
///
/// Over a scene that behaves, a hierarchy is a primitive whose model is the
/// least of its primitives' first intersections: asked for a hit before a far
/// end `c`, it answers with a hit at exactly that parameter where it lies
/// before `c`, and with none where it does not. So a hierarchy can stand in a
/// list, or below another hierarchy, and the laws of this file hold of the
/// whole.
pub proof fn lemma_hierarchy_answers_first<T: Object>(
    bvh: BvhNode<T>,
    r: &T::Ray,
    t_min: Scalar,
    t_max: Scalar,
    c: Scalar,
    first: spec_fn(int) -> Option<int>,
    res: Option<HitRecord<T::Material>>,
)
    requires
        bvh.valid(),
        nearest_first(bvh.objects(), r, t_min, t_max, first),
        sound_boxes::<T>(bvh.boxes(), r, t_min, t_max, first),
        c.at_most(t_max),
        bvh.tree().hit_of(bvh.objects(), r, t_min, c, res),
    ensures
        match res {
            Some(rec) => rec.t.less(c) && least_first(first, bvh.objects().len() as int) == Some(
                rec.t.rank(),
            ),
            None => least_first(first, bvh.objects().len() as int) is None || least_first(
                first,
                bvh.objects().len() as int,
            )->0 >= c.rank(),
        },
{
    let n = bvh.objects().len() as int;
    let leaves = bvh.tree().leaves();
    lemma_tree_finds_nearest(bvh.tree(), bvh.objects(), bvh.boxes(), r, t_min, t_max, c, first, res);
    lemma_least_first(first, n);
    let least = least_first(first, n);
    if least is Some {
        let i = choose|i: int| 0 <= i < n && #[trigger] first(i) == least;
        assert(leaves.contains(i as usize));
        let k = choose|k: int| 0 <= k < leaves.len() && leaves[k] == i as usize;
        assert(first(leaves[k] as int) == least);
    }
    if res is Some {
        let k = choose|k: int|
            0 <= k < leaves.len() && first(#[trigger] leaves[k] as int) == Some(res->0.t.rank())
                && came_from(bvh.objects(), r, t_min, t_max, leaves[k] as int, res);
        assert(leaves.contains(leaves[k]));
        assert(first(leaves[k] as int) is Some);
    }
}

/// A list answers with its first intersection, as its members do: asked for
/// a hit before `t_max`, it answers with a hit at the least of its members'
/// first intersections where that lies before `t_max`, and with none where it
/// does not.
pub proof fn lemma_list_answers_first<T: Object>(
    objects: Seq<T>,
    r: &T::Ray,
    t_min: Scalar,
    t_max: Scalar,
    first: spec_fn(int) -> Option<int>,
    res: Option<HitRecord<T::Material>>,
)
    requires
        objects.len() <= usize::MAX,
        t_max.is_number(),
        nearest_first(objects, r, t_min, t_max, first),
        scan(objects, r, t_min, t_max, res),
    ensures
        match res {
            Some(rec) => rec.t.less(t_max) && least_first(first, objects.len() as int) == Some(
                rec.t.rank(),
            ),
            None => least_first(first, objects.len() as int) is None || least_first(
                first,
                objects.len() as int,
            )->0 >= t_max.rank(),
        },
{
    let n = objects.len() as int;
    let all = indices(n);
    assert(indices(0) =~= Seq::<usize>::empty());
    lemma_scan_finds_nearest(objects, r, t_min, t_max, first, 0, t_max, None, res);
    lemma_least_first(first, n);
    let least = least_first(first, n);
    if least is Some {
        let i = choose|i: int| 0 <= i < n && #[trigger] first(i) == least;
        assert(all[i] == i as usize);
        assert(first(all[i] as int) == least);
    }
    if res is Some {
        let k = choose|k: int|
            0 <= k < all.len() && first(#[trigger] all[k] as int) == Some(res->0.t.rank())
                && came_from(objects, r, t_min, t_max, all[k] as int, res);
        assert(first(k) is Some);
    }
}

} // verus!
