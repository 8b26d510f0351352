//! The decisions that the shapes take once their arithmetic is done: which
//! root of a sphere counts, and whether a crossing of a plane lies on a
//! rectangle.
use crate::aabb::AABB;
use crate::hittable_list::{scan, HittableList};
use crate::object::{HitRecord, Object};
use crate::scalar::Scalar;
use crate::vec3::Vec3;
use vstd::prelude::*;

verus! {

/// Whether `t` lies strictly between `t_min` and `t_max`.
pub open spec fn strictly_within(t: Scalar, t_min: Scalar, t_max: Scalar) -> bool {
    t.less(t_max) && t_min.less(t)
}

/// The ray parameter at which a sphere is hit, from the discriminant of the
/// quadratic and its two roots: none where the discriminant is not above
/// zero, else the nearer root where it lies strictly inside the range, else
/// the farther root where that does.
pub open spec fn root_in_range(
    discriminant: Scalar,
    nearer: Scalar,
    farther: Scalar,
    t_min: Scalar,
    t_max: Scalar,
) -> Option<Scalar> {
    if !(Scalar { bits: 0 }).less(discriminant) {
        None
    } else if strictly_within(nearer, t_min, t_max) {
        Some(nearer)
    } else if strictly_within(farther, t_min, t_max) {
        Some(farther)
    } else {
        None
    }
}

/// Picks the root of a sphere's quadratic that counts as the hit.
pub fn sphere_root(
    discriminant: Scalar,
    nearer: Scalar,
    farther: Scalar,
    t_min: Scalar,
    t_max: Scalar,
) -> (res: Option<Scalar>)
    ensures
        res == root_in_range(discriminant, nearer, farther, t_min, t_max),
{
    if discriminant.gt(Scalar::zero()) {
        if nearer.lt(t_max) && nearer.gt(t_min) {
            return Some(nearer);
        }
        if farther.lt(t_max) && farther.gt(t_min) {
            return Some(farther);
        }
    }
    None
}

/// The first root beyond `t_min`, as a rank: the model of a sphere that the
/// laws of the hierarchy speak of.
pub open spec fn first_root_beyond(
    discriminant: Scalar,
    nearer: Scalar,
    farther: Scalar,
    t_min: Scalar,
) -> Option<int> {
    if !(Scalar { bits: 0 }).less(discriminant) {
        None
    } else if t_min.less(nearer) {
        Some(nearer.rank())
    } else if t_min.less(farther) {
        Some(farther.rank())
    } else {
        None
    }
}

/// A sphere answers with its first intersection. Where the two roots are in
/// order, the root that is picked lies strictly before `t_max` and is the
/// first root beyond `t_min`; and where none is picked, there is no root
/// beyond `t_min`, or the first one does not lie before `t_max`.
pub proof fn lemma_sphere_answers_first(
    discriminant: Scalar,
    nearer: Scalar,
    farther: Scalar,
    t_min: Scalar,
    t_max: Scalar,
)
    requires
        nearer.at_most(farther),
        t_min.is_number(),
        t_max.is_number(),
    ensures
        match root_in_range(discriminant, nearer, farther, t_min, t_max) {
            Some(t) => t.less(t_max) && first_root_beyond(discriminant, nearer, farther, t_min)
                == Some(t.rank()),
            None => first_root_beyond(discriminant, nearer, farther, t_min) is None
                || first_root_beyond(discriminant, nearer, farther, t_min)->0 >= t_max.rank(),
        },
{
}

/// Whether a ray that crosses the plane of a rectangle at the parameter `t`,
/// in the point with the plane coordinates `a` and `b`, hits the rectangle:
/// `t` lies in the range from `t_min` to `t_max`, and the point lies between
/// the bounds of the rectangle, the ends included each time. A NaN lies
/// nowhere.
pub open spec fn on_rectangle(
    t: Scalar,
    t_min: Scalar,
    t_max: Scalar,
    a: Scalar,
    a0: Scalar,
    a1: Scalar,
    b: Scalar,
    b0: Scalar,
    b1: Scalar,
) -> bool {
    &&& t_min.at_most(t) && t.at_most(t_max)
    &&& a0.at_most(a) && a.at_most(a1)
    &&& b0.at_most(b) && b.at_most(b1)
}

/// Whether a crossing of the plane of a rectangle is a hit.
pub fn rect_accepts(
    t: Scalar,
    t_min: Scalar,
    t_max: Scalar,
    a: Scalar,
    a0: Scalar,
    a1: Scalar,
    b: Scalar,
    b0: Scalar,
    b1: Scalar,
) -> (res: bool)
    ensures
        res == on_rectangle(t, t_min, t_max, a, a0, a1, b, b0, b1),
{
    if !(t.ge(t_min) && t.le(t_max)) {
        return false;
    }
    a.ge(a0) && a.le(a1) && b.ge(b0) && b.le(b1)
}


/// A rectangle in a plane perpendicular to one axis, as data: the axis
/// `across` (0, 1 or 2) that it is perpendicular to, its place `k` on that
/// axis, and its bounds on the two other axes, `a` being the lower of them
/// and `b` the higher.
#[derive(Clone, Copy, Debug, PartialEq, Eq, Structural)]
pub struct Face {
    pub across: u32,
    pub a0: Scalar,
    pub a1: Scalar,
    pub b0: Scalar,
    pub b1: Scalar,
    pub k: Scalar,
}

/// The lower of the two axes that a face perpendicular to `across` spans.
pub open spec fn lower_axis(across: u32) -> int {
    if across == 0 {
        1
    } else {
        0
    }
}

/// The higher of the two axes that a face perpendicular to `across` spans.
pub open spec fn higher_axis(across: u32) -> int {
    if across == 2 {
        1
    } else {
        2
    }
}

/// The face of the box from `min` to `max` that is perpendicular to `across`,
/// on the far side of the box if `far`, else on the near side: it spans the
/// whole of the box on the two other axes.
pub open spec fn face_of(min: Vec3, max: Vec3, across: u32, far: bool) -> Face {
    Face {
        across,
        a0: min.at(lower_axis(across)),
        a1: max.at(lower_axis(across)),
        b0: min.at(higher_axis(across)),
        b1: max.at(higher_axis(across)),
        k: if far {
            max.at(across as int)
        } else {
            min.at(across as int)
        },
    }
}

/// The six faces of the box with the corners `min` and `max`: for each axis
/// from the last to the first, the far face and then the near one.
pub fn box_faces(min: Vec3, max: Vec3) -> (faces: Vec<Face>)
    ensures
        faces@.len() == 6,
        forall|i: int|
            0 <= i < 6 ==> #[trigger] faces@[i] == face_of(min, max, (2 - i / 2) as u32, i % 2 == 0),
{
    let mut faces: Vec<Face> = Vec::new();
    faces.push(Face { across: 2, a0: min.x, a1: max.x, b0: min.y, b1: max.y, k: max.z });
    faces.push(Face { across: 2, a0: min.x, a1: max.x, b0: min.y, b1: max.y, k: min.z });
    faces.push(Face { across: 1, a0: min.x, a1: max.x, b0: min.z, b1: max.z, k: max.y });
    faces.push(Face { across: 1, a0: min.x, a1: max.x, b0: min.z, b1: max.z, k: min.y });
    faces.push(Face { across: 0, a0: min.y, a1: max.y, b0: min.z, b1: max.z, k: max.x });
    faces.push(Face { across: 0, a0: min.y, a1: max.y, b0: min.z, b1: max.z, k: min.x });
    faces
}

/// Whether the point `p` lies on the face: at its place on the axis that the
/// face is perpendicular to, and between its bounds on the two others.
pub open spec fn on_face(f: Face, p: Vec3) -> bool {
    &&& p.at(f.across as int).same(f.k)
    &&& f.a0.at_most(p.at(lower_axis(f.across))) && p.at(lower_axis(f.across)).at_most(f.a1)
    &&& f.b0.at_most(p.at(higher_axis(f.across))) && p.at(higher_axis(f.across)).at_most(f.b1)
}

/// The faces of a valid box are its surface: a point lies on one of the six
/// faces just when it lies in the box and, on some axis, at the least or the
/// greatest coordinate of the box.
pub proof fn lemma_faces_are_the_surface(min: Vec3, max: Vec3, p: Vec3)
    requires
        (AABB { min, max }).wf(),
    ensures
        (exists|across: u32, far: bool|
            across < 3 && on_face(#[trigger] face_of(min, max, across, far), p)) <==> (AABB {
            min,
            max,
        }).holds(p) && (p.x.same(min.x) || p.x.same(max.x) || p.y.same(min.y) || p.y.same(max.y)
            || p.z.same(min.z) || p.z.same(max.z)),
{
    let bx = AABB { min, max };
    if bx.holds(p) {
        if p.x.same(min.x) {
            assert(on_face(face_of(min, max, 0, false), p));
        }
        if p.x.same(max.x) {
            assert(on_face(face_of(min, max, 0, true), p));
        }
        if p.y.same(min.y) {
            assert(on_face(face_of(min, max, 1, false), p));
        }
        if p.y.same(max.y) {
            assert(on_face(face_of(min, max, 1, true), p));
        }
        if p.z.same(min.z) {
            assert(on_face(face_of(min, max, 2, false), p));
        }
        if p.z.same(max.z) {
            assert(on_face(face_of(min, max, 2, true), p));
        }
    }
    if exists|across: u32, far: bool| across < 3 && on_face(#[trigger] face_of(min, max, across, far), p) {
        let (across, far) = choose|across: u32, far: bool|
            across < 3 && on_face(#[trigger] face_of(min, max, across, far), p);
        let f = face_of(min, max, across, far);
        assert(on_face(f, p));
        if across == 0 {
            assert(p.x.same(f.k));
        } else if across == 1 {
            assert(p.y.same(f.k));
        } else {
            assert(p.z.same(f.k));
        }
    }
}

/// A box of six rectangles.
///
/// The sides are of whatever type the scene makes its rectangles of. A ray
/// hits the box where it hits the nearest of them.
pub struct Box<T> {
    pub box_min: Vec3,
    pub box_max: Vec3,
    pub sides: HittableList<T>,
}

impl<T: Object> Box<T> {
    /// The box with the corners `mi` and `ma`, whose sides `side` makes from
    /// the six faces.
    pub fn new<F: Fn(Face) -> T>(mi: Vec3, ma: Vec3, side: F) -> (bx: Box<T>)
        requires
            forall|face: Face| call_requires(side, (face,)),
        ensures
            bx.box_min == mi,
            bx.box_max == ma,
            bx.sides.objects@.len() == 6,
            forall|i: int|
                0 <= i < 6 ==> call_ensures(
                    side,
                    (face_of(mi, ma, (2 - i / 2) as u32, i % 2 == 0),),
                    #[trigger] bx.sides.objects@[i],
                ),
    {
        let faces = box_faces(mi, ma);
        let mut wor: HittableList<T> = HittableList::new();
        let mut i: usize = 0;
        while i < 6
            invariant
                i <= 6,
                faces@.len() == 6,
                forall|k: int|
                    0 <= k < 6 ==> #[trigger] faces@[k] == face_of(
                        mi,
                        ma,
                        (2 - k / 2) as u32,
                        k % 2 == 0,
                    ),
                forall|face: Face| call_requires(side, (face,)),
                wor.objects@.len() == i,
                forall|k: int|
                    0 <= k < i ==> call_ensures(side, (faces@[k],), #[trigger] wor.objects@[k]),
            decreases 6 - i,
        {
            wor.add(side(faces[i]));
            i += 1;
        }
        Box { box_min: mi, box_max: ma, sides: wor }
    }
}

impl<T: Object> Object for Box<T> {
    type Ray = T::Ray;

    type Material = T::Material;

    /// The nearest hit among the six sides.
    fn hit(&self, r: &T::Ray, t_min: Scalar, t_max: Scalar) -> (res: Option<HitRecord<T::Material>>)
        ensures
            scan(self.sides.objects@, r, t_min, t_max, res),
    {
        self.sides.hit(r, t_min, t_max)
    }

    /// The box itself.
    fn bounding_box(&self) -> (res: Option<AABB>)
        ensures
            res == Some(AABB { min: self.box_min, max: self.box_max }),
    {
        Some(AABB::new(self.box_min, self.box_max))
    }
}

} // verus!
