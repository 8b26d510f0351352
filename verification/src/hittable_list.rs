//! The flat aggregate of primitives: a list that is searched from end to end.
use crate::aabb::AABB;
use crate::object::{answers, reports, HitRecord, Light, Object};
use crate::vec3::Vec3;
use crate::rng::gen_range;
use crate::scalar::Scalar;
use vstd::prelude::*;

verus! {

/// A list of primitives, itself a primitive.
#[derive(Clone, Debug)]
pub struct HittableList<T> {
    pub objects: Vec<T>,
}

/// The box around the boxes that the members of a list reported, in order:
/// `None` for no reports and where a member reported none, else the box around
/// them all, taken from the first on.
pub open spec fn box_of_reports(boxes: Seq<Option<AABB>>) -> Option<AABB>
    decreases boxes.len(),
{
    if boxes.len() == 0 {
        None
    } else if boxes.last() is None {
        None
    } else if boxes.len() == 1 {
        boxes.last()
    } else {
        match box_of_reports(boxes.drop_last()) {
            None => None,
            Some(b) => Some(b.union(boxes.last()->0)),
        }
    }
}

/// The linear search, from member `from` on. `best` is the nearest hit so far
/// and `closest` the far end of the range that is still searched. Each member
/// is asked for a hit between `t_min` and `closest`; a hit becomes the new
/// `best` and its parameter the new `closest`. `res` is what is left at the
/// end.
pub open spec fn scan_from<T: Object>(
    objects: Seq<T>,
    r: &T::Ray,
    t_min: Scalar,
    from: int,
    closest: Scalar,
    best: Option<HitRecord<T::Material>>,
    res: Option<HitRecord<T::Material>>,
) -> bool
    decreases objects.len() - from,
{
    if from < 0 || from >= objects.len() {
        res == best
    } else {
        exists|a: Option<HitRecord<T::Material>>| #[trigger]
            answers(&objects[from], r, t_min, closest, a) && match a {
                Some(rec) => scan_from(objects, r, t_min, from + 1, rec.t, a, res),
                None => scan_from(objects, r, t_min, from + 1, closest, best, res),
            }
    }
}

/// What the linear search over all of `objects` may return.
pub open spec fn scan<T: Object>(
    objects: Seq<T>,
    r: &T::Ray,
    t_min: Scalar,
    t_max: Scalar,
    res: Option<HitRecord<T::Material>>,
) -> bool {
    scan_from(objects, r, t_min, 0, t_max, None, res)
}

/// What `bounding_box` may return for a list of `objects`: there are boxes
/// that the members reported, one after another from the first, up to all of
/// them or to the first that reported none, and `res` is the box around them.
pub open spec fn list_box<T: Object>(objects: Seq<T>, res: Option<AABB>) -> bool {
    exists|boxes: Seq<Option<AABB>>|
        {
            &&& boxes.len() <= objects.len()
            &&& forall|i: int| 0 <= i < boxes.len() ==> reports(&objects[i], #[trigger] boxes[i])
            &&& boxes.len() == objects.len() || (boxes.len() > 0 && boxes.last() is None)
            &&& res == box_of_reports(boxes)
        }
}

impl<T> HittableList<T> {
    /// The empty list.
    pub fn new() -> (list: HittableList<T>)
        ensures
            list.objects@.len() == 0,
    {
        HittableList { objects: Vec::new() }
    }

    /// Puts a primitive at the end of the list.
    pub fn add(&mut self, t: T)
        ensures
            final(self).objects@ == old(self).objects@.push(t),
    {
        self.objects.push(t);
    }

    /// The number of primitives in the list.
    pub fn len(&self) -> (n: usize)
        ensures
            n == self.objects@.len(),
    {
        self.objects.len()
    }

    /// The index of a member picked at random, each with the same chance: the
    /// member towards which a direction is sampled. The list must not be
    /// empty.
    pub fn random_index(&self) -> (i: usize)
        requires
            self.objects@.len() > 0,
        ensures
            i < self.objects@.len(),
    {
        gen_range(0, self.objects.len())
    }
}

impl<T: Light> HittableList<T> {
    /// A direction from the point `o` towards a member picked at random, each
    /// with the same chance. The list must not be empty.
    pub fn random(&self, o: Vec3) -> (dir: Vec3)
        requires
            self.objects@.len() > 0,
        ensures
            exists|i: int|
                0 <= i < self.objects@.len() && call_ensures(
                    T::random,
                    (&#[trigger] self.objects@[i], o),
                    dir,
                ),
    {
        let i = self.random_index();
        self.objects[i].random(o)
    }

    /// The densities that the members give, seen from `o`, to the direction
    /// `d`, in the order of the list. The density of the list as a light is
    /// their mean, which is left to the arithmetic.
    pub fn pdf_values(&self, o: Vec3, d: Vec3) -> (values: Vec<Scalar>)
        ensures
            values@.len() == self.objects@.len(),
            forall|i: int|
                0 <= i < values@.len() ==> call_ensures(
                    T::pdf_value,
                    (&self.objects@[i], o, d),
                    #[trigger] values@[i],
                ),
    {
        let mut values: Vec<Scalar> = Vec::new();
        let mut i: usize = 0;
        while i < self.objects.len()
            invariant
                i <= self.objects@.len(),
                values@.len() == i,
                forall|k: int|
                    0 <= k < values@.len() ==> call_ensures(
                        T::pdf_value,
                        (&self.objects@[k], o, d),
                        #[trigger] values@[k],
                    ),
            decreases self.objects@.len() - i,
        {
            let value = self.objects[i].pdf_value(o, d);
            values.push(value);
            i += 1;
        }
        values
    }
}

impl<T: Object> Object for HittableList<T> {
    type Ray = T::Ray;

    type Material = T::Material;

    /// The nearest hit among the members, by linear search.
    fn hit(&self, r: &T::Ray, t_min: Scalar, t_max: Scalar) -> (res: Option<HitRecord<T::Material>>)
        ensures
            scan(self.objects@, r, t_min, t_max, res),
    {
        let mut temp_rec: Option<HitRecord<T::Material>> = None;
        let mut closest_so_far = t_max;
        let mut i: usize = 0;
        while i < self.objects.len()
            invariant
                i <= self.objects@.len(),
                forall|res: Option<HitRecord<T::Material>>| #[trigger]
                    scan_from(self.objects@, r, t_min, i as int, closest_so_far, temp_rec, res)
                        ==> scan(self.objects@, r, t_min, t_max, res),
            decreases self.objects@.len() - i,
        {
            let ghost before_closest = closest_so_far;
            let ghost before_rec = temp_rec;
            let found = self.objects[i].hit(r, t_min, closest_so_far);
            assert(answers(&self.objects@[i as int], r, t_min, before_closest, found));
            match found {
                Some(rec) => {
                    closest_so_far = rec.t;
                    temp_rec = Some(rec);
                },
                None => {},
            }
            assert forall|res: Option<HitRecord<T::Material>>| #[trigger]
                scan_from(
                    self.objects@,
                    r,
                    t_min,
                    i as int + 1,
                    closest_so_far,
                    temp_rec,
                    res,
                ) implies scan_from(
                self.objects@,
                r,
                t_min,
                i as int,
                before_closest,
                before_rec,
                res,
            ) by {}
            i += 1;
        }
        assert(scan_from(self.objects@, r, t_min, i as int, closest_so_far, temp_rec, temp_rec));
        temp_rec
    }

    /// The box around all members, or `None` if the list is empty or a member
    /// has no box.
    fn bounding_box(&self) -> (res: Option<AABB>)
        ensures
            list_box(self.objects@, res),
    {
        if self.objects.len() == 0 {
            assert(box_of_reports(Seq::<Option<AABB>>::empty()) == None::<AABB>);
            return None;
        }
        let mut output_box: Option<AABB> = None;
        let ghost mut boxes: Seq<Option<AABB>> = Seq::empty();
        let mut i: usize = 0;
        while i < self.objects.len()
            invariant
                i <= self.objects@.len(),
                boxes.len() == i,
                forall|j: int| 0 <= j < boxes.len() ==> reports(&self.objects@[j], #[trigger] boxes[j]),
                i == 0 ==> output_box is None,
                i > 0 ==> output_box is Some,
                i > 0 ==> output_box == box_of_reports(boxes),
            decreases self.objects@.len() - i,
        {
            let tmp = self.objects[i].bounding_box();
            let ghost before = boxes;
            proof {
                boxes = boxes.push(tmp);
                assert(boxes.drop_last() == before);
            }
            match tmp {
                None => {
                    return None;
                },
                Some(b) => {
                    output_box = match output_box {
                        None => Some(b),
                        Some(so_far) => Some(AABB::surrounding_box(so_far, b)),
                    };
                    assert(boxes.last() == Some(b));
                    assert(output_box == box_of_reports(boxes));
                },
            }
            i += 1;
        }
        output_box
    }
}

} // verus!
