//! Axis-aligned bounding boxes.
use crate::ray::{narrowed_by_all, Ray, Slab, Span};
use crate::scalar::Scalar;
use crate::vec3::Vec3;
use vstd::prelude::*;

verus! {

/// An axis-aligned box, given by its two corners.
///
/// A box is valid when on every axis `min` is at most `max`; this also says
/// that no corner holds a NaN. The constructor does not ask for it, so that a
/// box can carry what a shape reported; [`AABB::is_valid`] tests it.
#[derive(Clone, Copy, Debug, PartialEq, Eq, Structural)]
pub struct AABB {
    pub min: Vec3,
    pub max: Vec3,
}

/// The smaller of two scalars as IEEE `<` sees them: `a` if `a < b`, else `b`.
pub open spec fn lesser(a: Scalar, b: Scalar) -> Scalar {
    if a.less(b) {
        a
    } else {
        b
    }
}

/// The larger of two scalars as IEEE `>` sees them: `a` if `a > b`, else `b`.
pub open spec fn greater(a: Scalar, b: Scalar) -> Scalar {
    if b.less(a) {
        a
    } else {
        b
    }
}

impl AABB {
    /// The validity of a box: `min <= max` on every axis.
    pub open spec fn wf(self) -> bool {
        &&& self.min.x.at_most(self.max.x)
        &&& self.min.y.at_most(self.max.y)
        &&& self.min.z.at_most(self.max.z)
    }

    /// Whether the point `p` lies in the box, its faces included.
    pub open spec fn holds(self, p: Vec3) -> bool {
        &&& self.min.x.at_most(p.x) && p.x.at_most(self.max.x)
        &&& self.min.y.at_most(p.y) && p.y.at_most(self.max.y)
        &&& self.min.z.at_most(p.z) && p.z.at_most(self.max.z)
    }

    /// Whether the box `inner` lies in this box.
    pub open spec fn contains(self, inner: AABB) -> bool {
        &&& self.min.x.at_most(inner.min.x) && inner.max.x.at_most(self.max.x)
        &&& self.min.y.at_most(inner.min.y) && inner.max.y.at_most(self.max.y)
        &&& self.min.z.at_most(inner.min.z) && inner.max.z.at_most(self.max.z)
    }

    /// Whether two boxes are the same box: their corners are the same numbers.
    /// (Two such boxes can differ in the sign of a zero.)
    pub open spec fn alike(self, other: AABB) -> bool {
        &&& self.min.x.same(other.min.x) && self.max.x.same(other.max.x)
        &&& self.min.y.same(other.min.y) && self.max.y.same(other.max.y)
        &&& self.min.z.same(other.min.z) && self.max.z.same(other.max.z)
    }

    /// The box around two boxes: on every axis the lesser of the two minima
    /// and the greater of the two maxima.
    pub open spec fn union(self, other: AABB) -> AABB {
        AABB {
            min: Vec3 {
                x: lesser(self.min.x, other.min.x),
                y: lesser(self.min.y, other.min.y),
                z: lesser(self.min.z, other.min.z),
            },
            max: Vec3 {
                x: greater(self.max.x, other.max.x),
                y: greater(self.max.y, other.max.y),
                z: greater(self.max.z, other.max.z),
            },
        }
    }

    /// Whether `s` is a passage that the ray may report for this box on `axis`.
    pub open spec fn passage<R: Ray>(self, r: &R, axis: u32, s: Slab) -> bool {
        call_ensures(R::slab, (r, axis, self.min.at(axis as int), self.max.at(axis as int)), s)
    }

    /// What `hit` may answer. There are passages `slabs` that the ray reported
    /// for the axes 0, 1, 2 in turn. The answer is whether something is left
    /// of the span from `t_min` to `t_max` after it was narrowed by each of
    /// them. The ray is asked no further once nothing is left, so there may be
    /// fewer than three passages where the answer is no.
    pub open spec fn hit_by<R: Ray>(self, r: &R, t_min: Scalar, t_max: Scalar, res: bool) -> bool {
        exists|slabs: Seq<Slab>|
            {
                &&& slabs.len() <= 3
                &&& forall|i: int|
                    0 <= i < slabs.len() ==> self.passage(r, i as u32, #[trigger] slabs[i])
                &&& res == (narrowed_by_all(slabs, Span { lo: t_min, hi: t_max }) is Some)
                &&& (slabs.len() == 3 || !res)
            }
    }

    /// The box with the corners `a` and `b`. It is valid where `a` is at most
    /// `b` on every axis.
    pub fn new(a: Vec3, b: Vec3) -> (bx: AABB)
        ensures
            bx.min == a,
            bx.max == b,
            bx.wf() == (a.x.at_most(b.x) && a.y.at_most(b.y) && a.z.at_most(b.z)),
    {
        AABB { min: a, max: b }
    }

    /// Whether the box is valid.
    pub fn is_valid(&self) -> (b: bool)
        ensures
            b == self.wf(),
    {
        self.min.x.le(self.max.x) && self.min.y.le(self.max.y) && self.min.z.le(self.max.z)
    }

    /// The lesser of two scalars.
    pub fn min(a: Scalar, b: Scalar) -> (m: Scalar)
        ensures
            m == lesser(a, b),
    {
        if a.lt(b) {
            a
        } else {
            b
        }
    }

    /// The greater of two scalars.
    pub fn max(a: Scalar, b: Scalar) -> (m: Scalar)
        ensures
            m == greater(a, b),
    {
        if a.gt(b) {
            a
        } else {
            b
        }
    }

    /// The slab test: whether the ray passes through the box at a parameter
    /// strictly between `t_min` and `t_max`.
    ///
    /// The span from `t_min` to `t_max` is narrowed by the ray's passage
    /// through the slab of each axis in turn, and the answer is no as soon as
    /// nothing is left.
    pub fn hit<R: Ray>(&self, r: &R, t_min: Scalar, t_max: Scalar) -> (res: bool)
        ensures
            self.hit_by(r, t_min, t_max, res),
    {
        let mut span = Span { lo: t_min, hi: t_max };
        let ghost whole = span;
        let ghost mut slabs: Seq<Slab> = Seq::empty();
        let mut axis: u32 = 0;
        while axis < 3
            invariant
                axis <= 3,
                slabs.len() == axis,
                whole == (Span { lo: t_min, hi: t_max }),
                forall|i: int| 0 <= i < slabs.len() ==> self.passage(r, i as u32, #[trigger] slabs[i]),
                narrowed_by_all(slabs, whole) == Some(span),
            decreases 3 - axis,
        {
            let s = r.slab(axis, self.min.get(axis), self.max.get(axis));
            let ghost before = slabs;
            proof {
                slabs = slabs.push(s);
                assert(slabs.drop_last() == before);
            }
            match s.narrow(span) {
                None => {
                    return false;
                },
                Some(rest) => {
                    span = rest;
                },
            }
            axis += 1;
        }
        true
    }

    /// The smallest box around two boxes.
    pub fn surrounding_box(box1: AABB, box2: AABB) -> (bx: AABB)
        ensures
            bx == box1.union(box2),
    {
        let small = Vec3::new(
            AABB::min(box1.min.x, box2.min.x),
            AABB::min(box1.min.y, box2.min.y),
            AABB::min(box1.min.z, box2.min.z),
        );
        let big = Vec3::new(
            AABB::max(box1.max.x, box2.max.x),
            AABB::max(box1.max.y, box2.max.y),
            AABB::max(box1.max.z, box2.max.z),
        );
        AABB::new(small, big)
    }

    /// Whether the first box begins before the second on axis `ax`. With a
    /// missing box the answer is no.
    pub fn compare(a: Option<AABB>, b: Option<AABB>, ax: u32) -> (res: bool)
        ensures
            res == match (a, b) {
                (Some(p), Some(q)) => p.min.at(ax as int).less(q.min.at(ax as int)),
                _ => false,
            },
    {
        match a {
            None => false,
            Some(bo_a) => match b {
                None => false,
                Some(bo_b) => bo_a.min.get(ax).lt(bo_b.min.get(ax)),
            },
        }
    }

    /// Whether the first box begins before the second on the x axis.
    pub fn compare_x(a: Option<AABB>, b: Option<AABB>) -> (res: bool)
        ensures
            res == match (a, b) {
                (Some(p), Some(q)) => p.min.x.less(q.min.x),
                _ => false,
            },
    {
        AABB::compare(a, b, 0)
    }

    /// Whether the first box begins before the second on the y axis.
    pub fn compare_y(a: Option<AABB>, b: Option<AABB>) -> (res: bool)
        ensures
            res == match (a, b) {
                (Some(p), Some(q)) => p.min.y.less(q.min.y),
                _ => false,
            },
    {
        AABB::compare(a, b, 1)
    }

    /// Whether the first box begins before the second on the z axis.
    pub fn compare_z(a: Option<AABB>, b: Option<AABB>) -> (res: bool)
        ensures
            res == match (a, b) {
                (Some(p), Some(q)) => p.min.z.less(q.min.z),
                _ => false,
            },
    {
        AABB::compare(a, b, 2)
    }
}

/// The box around a sequence of points: the box of the first point alone,
/// widened by each further point in turn. `None` for no points.
pub open spec fn box_around(points: Seq<Vec3>) -> Option<AABB>
    decreases points.len(),
{
    if points.len() == 0 {
        None
    } else {
        let p = points.last();
        match box_around(points.drop_last()) {
            None => Some(AABB { min: p, max: p }),
            Some(b) => Some(b.union(AABB { min: p, max: p })),
        }
    }
}

impl AABB {
    /// The box around the given points, by componentwise extrema: the box that
    /// a turned or moved shape gets from the corners of its own.
    pub fn enclosing(points: &Vec<Vec3>) -> (res: Option<AABB>)
        ensures
            res == box_around(points@),
    {
        if points.len() == 0 {
            return None;
        }
        let mut bx = AABB::new(points[0], points[0]);
        proof {
            let first = points@.take(1);
            assert(first.drop_last() =~= Seq::<Vec3>::empty());
            assert(box_around(first.drop_last()) == None::<AABB>);
            assert(first.last() == points@[0]);
        }
        let mut i: usize = 1;
        while i < points.len()
            invariant
                1 <= i <= points.len(),
                box_around(points@.take(i as int)) == Some(bx),
            decreases points.len() - i,
        {
            let p = points[i];
            assert(points@.take(i + 1).drop_last() =~= points@.take(i as int));
            bx = AABB::surrounding_box(bx, AABB::new(p, p));
            i += 1;
        }
        assert(points@.take(i as int) =~= points@);
        Some(bx)
    }

    /// The eight corners of the box.
    pub fn corners(&self) -> (res: Vec<Vec3>)
        ensures
            res@.len() == 8,
            forall|i: int, j: int, k: int|
                0 <= i < 2 && 0 <= j < 2 && 0 <= k < 2 ==> #[trigger] res@[4 * i + 2 * j + k] == (Vec3 {
                    x: if i == 1 { self.max.x } else { self.min.x },
                    y: if j == 1 { self.max.y } else { self.min.y },
                    z: if k == 1 { self.max.z } else { self.min.z },
                }),
    {
        let mut res: Vec<Vec3> = Vec::new();
        res.push(Vec3::new(self.min.x, self.min.y, self.min.z));
        res.push(Vec3::new(self.min.x, self.min.y, self.max.z));
        res.push(Vec3::new(self.min.x, self.max.y, self.min.z));
        res.push(Vec3::new(self.min.x, self.max.y, self.max.z));
        res.push(Vec3::new(self.max.x, self.min.y, self.min.z));
        res.push(Vec3::new(self.max.x, self.min.y, self.max.z));
        res.push(Vec3::new(self.max.x, self.max.y, self.min.z));
        res.push(Vec3::new(self.max.x, self.max.y, self.max.z));
        res
    }
}


/// The box around two valid boxes is valid and contains both.
pub proof fn lemma_union_contains(a: AABB, b: AABB)
    requires
        a.wf(),
        b.wf(),
    ensures
        a.union(b).wf(),
        a.union(b).contains(a),
        a.union(b).contains(b),
{
}

/// The box around two boxes is the least box around them: every box that
/// contains both contains it.
pub proof fn lemma_union_least(a: AABB, b: AABB, c: AABB)
    requires
        c.contains(a),
        c.contains(b),
    ensures
        c.contains(a.union(b)),
{
}

/// Containment is reflexive on valid boxes and transitive on all.
pub proof fn lemma_contains_order(a: AABB, b: AABB, c: AABB)
    ensures
        a.wf() ==> a.contains(a),
        a.contains(b) && b.contains(c) ==> a.contains(c),
        a.contains(b) && b.contains(a) ==> a.alike(b),
{
}

/// Taking the box around two boxes does not depend on their order, and a valid
/// box around itself is itself.
pub proof fn lemma_union_symmetric(a: AABB, b: AABB)
    requires
        a.wf(),
        b.wf(),
    ensures
        a.union(b).alike(b.union(a)),
        a.union(a) == a,
{
}

/// Taking the box around three boxes does not depend on the grouping.
pub proof fn lemma_union_associative(a: AABB, b: AABB, c: AABB)
    requires
        a.wf(),
        b.wf(),
        c.wf(),
    ensures
        a.union(b).union(c).alike(a.union(b.union(c))),
{
}

/// The box around points that hold no NaN is valid and holds each of them.
pub proof fn lemma_box_around_holds(points: Seq<Vec3>, i: int)
    requires
        forall|j: int| 0 <= j < points.len() ==> (#[trigger] points[j]).is_number(),
        0 <= i < points.len(),
    ensures
        box_around(points) is Some,
        box_around(points)->0.wf(),
        box_around(points)->0.holds(points[i]),
    decreases points.len(),
{
    let p = points.last();
    let rest = points.drop_last();
    if rest.len() > 0 {
        if i < rest.len() {
            lemma_box_around_holds(rest, i);
        } else {
            lemma_box_around_holds(rest, 0);
        }
    }
}

/// The box around points is the least box that holds them all.
pub proof fn lemma_box_around_least(points: Seq<Vec3>, c: AABB)
    requires
        points.len() > 0,
        forall|j: int| 0 <= j < points.len() ==> c.holds(#[trigger] points[j]),
    ensures
        box_around(points) is Some,
        c.contains(box_around(points)->0),
    decreases points.len(),
{
    let rest = points.drop_last();
    assert(c.holds(points[points.len() - 1]));
    if rest.len() > 0 {
        assert forall|j: int| 0 <= j < rest.len() implies c.holds(#[trigger] rest[j]) by {
            assert(rest[j] == points[j]);
        }
        lemma_box_around_least(rest, c);
    }
}

/// Narrowing never widens: what is left of a span of numbers lies within it,
/// and within every slab that narrowed it.
pub proof fn lemma_narrowed_within(slabs: Seq<Slab>, range: Span, i: int)
    requires
        range.lo.is_number(),
        range.hi.is_number(),
        narrowed_by_all(slabs, range) is Some,
    ensures
        range.lo.at_most(narrowed_by_all(slabs, range)->0.lo),
        slabs.len() > 0 ==> narrowed_by_all(slabs, range)->0.lo.less(
            narrowed_by_all(slabs, range)->0.hi,
        ),
        narrowed_by_all(slabs, range)->0.hi.at_most(range.hi),
        0 <= i < slabs.len() && slabs[i].enter().is_number() ==> slabs[i].enter().at_most(
            narrowed_by_all(slabs, range)->0.lo,
        ),
        0 <= i < slabs.len() && slabs[i].exit().is_number() ==> narrowed_by_all(
            slabs,
            range,
        )->0.hi.at_most(slabs[i].exit()),
    decreases slabs.len(),
{
    if slabs.len() > 0 {
        lemma_narrowed_within(slabs.drop_last(), range, i);
        if 0 <= i < slabs.len() - 1 {
            assert(slabs.drop_last()[i] == slabs[i]);
        }
    }
}

/// The slab test says yes for a range that holds a stretch of the ray inside
/// the box. Let the stretch from `inside.lo` to `inside.hi` lie within every
/// slab, and let it have some length. Then a span that contains it is narrowed
/// to a span that still contains it.
pub proof fn lemma_slab_test_hits(slabs: Seq<Slab>, range: Span, inside: Span)
    requires
        forall|i: int|
            0 <= i < slabs.len() ==> (#[trigger] slabs[i]).enter().at_most(inside.lo)
                && inside.hi.at_most(slabs[i].exit()),
        inside.lo.less(inside.hi),
        range.lo.at_most(inside.lo),
        inside.hi.at_most(range.hi),
    ensures
        narrowed_by_all(slabs, range) is Some,
        narrowed_by_all(slabs, range)->0.lo.at_most(inside.lo),
        inside.hi.at_most(narrowed_by_all(slabs, range)->0.hi),
    decreases slabs.len(),
{
    if slabs.len() > 0 {
        let rest = slabs.drop_last();
        assert forall|i: int| 0 <= i < rest.len() implies (#[trigger] rest[i]).enter().at_most(
            inside.lo,
        ) && inside.hi.at_most(rest[i].exit()) by {
            assert(rest[i] == slabs[i]);
        }
        lemma_slab_test_hits(rest, range, inside);
        let last = slabs[slabs.len() - 1];
        assert(last.enter().at_most(inside.lo));
    }
}

/// The slab test says no for a range that ends before the ray enters one of
/// the slabs, or begins after the ray has left one.
pub proof fn lemma_slab_test_misses(slabs: Seq<Slab>, range: Span, i: int)
    requires
        0 <= i < slabs.len(),
        range.lo.is_number(),
        range.hi.is_number(),
        range.hi.at_most(slabs[i].enter()) || slabs[i].exit().at_most(range.lo),
    ensures
        narrowed_by_all(slabs, range) is None,
    decreases slabs.len(),
{
    let rest = slabs.drop_last();
    if i < slabs.len() - 1 {
        assert(rest[i] == slabs[i]);
        lemma_slab_test_misses(rest, range, i);
    } else {
        if narrowed_by_all(rest, range) is Some {
            lemma_narrowed_within(rest, range, 0);
        }
    }
}

/// The stretch of the ray inside a box, from the passages through its three
/// slabs: from the last entry to the first exit.
pub open spec fn stretch_inside(s0: Slab, s1: Slab, s2: Slab) -> Span {
    Span {
        lo: greater(greater(s0.enter(), s1.enter()), s2.enter()),
        hi: lesser(lesser(s0.exit(), s1.exit()), s2.exit()),
    }
}

/// The slab test is right about a ray that passes through the box.
///
/// Let `s0`, `s1`, `s2` be the passages that the ray reports for the three
/// slabs of the box, all numbers, and let the ray pass through the box: the
/// stretch inside has some length. Then `hit` says yes for every range that
/// contains the stretch, and no for every range that ends at or before its
/// start or begins at or after its end.
pub proof fn lemma_hit_through<R: Ray>(
    bx: AABB,
    r: &R,
    t_min: Scalar,
    t_max: Scalar,
    res: bool,
    s0: Slab,
    s1: Slab,
    s2: Slab,
)
    requires
        bx.hit_by(r, t_min, t_max, res),
        forall|s: Slab| bx.passage(r, 0, s) ==> s == s0,
        forall|s: Slab| bx.passage(r, 1, s) ==> s == s1,
        forall|s: Slab| bx.passage(r, 2, s) ==> s == s2,
        s0.is_number() && s1.is_number() && s2.is_number(),
        t_min.is_number() && t_max.is_number(),
        stretch_inside(s0, s1, s2).lo.less(stretch_inside(s0, s1, s2).hi),
    ensures
        t_min.at_most(stretch_inside(s0, s1, s2).lo) && stretch_inside(s0, s1, s2).hi.at_most(t_max)
            ==> res,
        t_max.at_most(stretch_inside(s0, s1, s2).lo) || stretch_inside(s0, s1, s2).hi.at_most(t_min)
            ==> !res,
{
    let range = Span { lo: t_min, hi: t_max };
    let inside = stretch_inside(s0, s1, s2);
    let slabs = choose|slabs: Seq<Slab>|
        {
            &&& slabs.len() <= 3
            &&& forall|i: int| 0 <= i < slabs.len() ==> bx.passage(r, i as u32, #[trigger] slabs[i])
            &&& res == (narrowed_by_all(slabs, range) is Some)
            &&& (slabs.len() == 3 || !res)
        };
    let all = seq![s0, s1, s2];
    assert forall|i: int| 0 <= i < slabs.len() implies #[trigger] slabs[i] == all[i] by {
        assert(bx.passage(r, i as u32, slabs[i]));
    }
    if t_min.at_most(inside.lo) && inside.hi.at_most(t_max) {
        assert forall|i: int| 0 <= i < slabs.len() implies (#[trigger] slabs[i]).enter().at_most(
            inside.lo,
        ) && inside.hi.at_most(slabs[i].exit()) by {
            assert(slabs[i] == all[i]);
        }
        lemma_slab_test_hits(slabs, range, inside);
    }
    if res && (t_max.at_most(inside.lo) || inside.hi.at_most(t_min)) {
        assert(slabs.len() == 3);
        assert(slabs[0] == all[0] && slabs[1] == all[1] && slabs[2] == all[2]);
        if t_max.at_most(inside.lo) {
            if inside.lo == s0.enter() {
                lemma_slab_test_misses(slabs, range, 0);
            } else if inside.lo == s1.enter() {
                lemma_slab_test_misses(slabs, range, 1);
            } else {
                lemma_slab_test_misses(slabs, range, 2);
            }
        } else {
            if inside.hi == s0.exit() {
                lemma_slab_test_misses(slabs, range, 0);
            } else if inside.hi == s1.exit() {
                lemma_slab_test_misses(slabs, range, 1);
            } else {
                lemma_slab_test_misses(slabs, range, 2);
            }
        }
    }
}

} // verus!
