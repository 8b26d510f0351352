//! Scene primitives: what every shape can do, and what a hit is.
use crate::aabb::AABB;
use crate::ray::Ray;
use crate::scalar::Scalar;
use crate::vec3::Vec3;
use vstd::prelude::*;

verus! {

/// One intersection of a ray with a primitive.
///
/// `normal` always faces against the incoming ray; `front_face` records
/// whether that is the outward normal of the surface. `mat` names the material
/// of the primitive that was hit.
#[derive(Clone, Debug)]
pub struct HitRecord<M> {
    pub p: Vec3,
    pub normal: Vec3,
    pub t: Scalar,
    pub front_face: bool,
    pub mat: Option<M>,
    pub u: Scalar,
    pub v: Scalar,
}

/// Texture coordinates.
#[derive(Clone, Copy, Debug, PartialEq, Eq, Structural)]
pub struct UV {
    pub u: Scalar,
    pub v: Scalar,
}

impl UV {
    pub fn new(a: Scalar, b: Scalar) -> (uv: UV)
        ensures
            uv.u == a,
            uv.v == b,
    {
        UV { u: a, v: b }
    }
}

/// A scene primitive: a shape, a wrapper round one, or an aggregate.
///
/// The arithmetic of an intersection belongs to the implementing type. The
/// kernel relies on nothing about what these methods return; what its own
/// aggregates return is stated over the answers that their members gave.
pub trait Object {
    /// The rays that this primitive can be asked about.
    type Ray: Ray;

    /// What names a material in a hit.
    type Material;

    /// The intersection of the ray with the primitive between the parameters
    /// `t_min` and `t_max`, if there is one.
    fn hit(&self, r: &Self::Ray, t_min: Scalar, t_max: Scalar) -> Option<HitRecord<Self::Material>>;

    /// A box around the primitive, or `None` for a primitive without bounds.
    fn bounding_box(&self) -> Option<AABB>;
}

/// A primitive that can serve as a light: directions towards it can be
/// sampled from a point, and it knows how densely.
pub trait Light {
    /// The density, among the directions from the point `o`, of the
    /// direction `d` towards the primitive.
    fn pdf_value(&self, o: Vec3, d: Vec3) -> Scalar;

    /// A direction from the point `o` towards the primitive, picked at
    /// random.
    fn random(&self, o: Vec3) -> Vec3;
}

/// Whether `res` is an answer that the primitive `o` may give to `hit` for the
/// ray `r` between `t_min` and `t_max`.
pub open spec fn answers<T: Object>(
    o: &T,
    r: &T::Ray,
    t_min: Scalar,
    t_max: Scalar,
    res: Option<HitRecord<T::Material>>,
) -> bool {
    call_ensures(T::hit, (o, r, t_min, t_max), res)
}

/// Whether `res` is a box that the primitive `o` may report as its own.
pub open spec fn reports<T: Object>(o: &T, res: Option<AABB>) -> bool {
    call_ensures(T::bounding_box, (o,), res)
}

/// The nearer of two optional hits: the one there is, and of two the second
/// only where its parameter is less than the first's.
pub open spec fn nearer_of<M>(first: Option<HitRecord<M>>, second: Option<HitRecord<M>>) -> Option<
    HitRecord<M>,
> {
    match (first, second) {
        (None, _) => second,
        (Some(_), None) => first,
        (Some(y), Some(z)) => if z.t.less(y.t) {
            second
        } else {
            first
        },
    }
}

/// The far end of the range in which a second primitive is searched after a
/// first was: the parameter of the first hit, or `t_max` where it missed.
pub open spec fn closer_of<M>(t_max: Scalar, first: Option<HitRecord<M>>) -> Scalar {
    match first {
        Some(y) => y.t,
        None => t_max,
    }
}

impl<M> HitRecord<M> {
    /// The record with the other side as its front.
    pub open spec fn flip(self) -> HitRecord<M> {
        HitRecord { front_face: !self.front_face, ..self }
    }

    /// The record with its normal set against a ray, from the outward normal
    /// of the surface and the product of that normal with the ray's
    /// direction: the front was hit where the product is below zero, and the
    /// normal is turned round where it was not.
    pub open spec fn faced(self, along: Scalar, outward_normal: Vec3) -> HitRecord<M> {
        HitRecord {
            front_face: along.less(Scalar { bits: 0 }),
            normal: outward_normal.set_against(along),
            ..self
        }
    }

    /// A record at the origin with no material: a place to start from.
    pub fn new() -> (rec: HitRecord<M>)
        ensures
            rec.p == (Vec3 { x: Scalar { bits: 0 }, y: Scalar { bits: 0 }, z: Scalar { bits: 0 } }),
            rec.normal == rec.p,
            rec.t.bits == 0,
            rec.u.bits == 0,
            rec.v.bits == 0,
            !rec.front_face,
            rec.mat is None,
    {
        HitRecord {
            p: Vec3::zero(),
            normal: Vec3::zero(),
            t: Scalar::zero(),
            front_face: false,
            mat: None,
            u: Scalar::zero(),
            v: Scalar::zero(),
        }
    }

    /// Sets the normal against the incoming ray. `along` is the product of the
    /// ray's direction with `outward_normal`.
    pub fn set_face_normal(self, along: Scalar, outward_normal: Vec3) -> (rec: HitRecord<M>)
        ensures
            rec == self.faced(along, outward_normal),
    {
        HitRecord {
            front_face: along.lt(Scalar::zero()),
            normal: outward_normal.against(along),
            ..self
        }
    }

    /// The nearer of two optional hits.
    pub fn nearer(first: Option<HitRecord<M>>, second: Option<HitRecord<M>>) -> (res: Option<
        HitRecord<M>,
    >)
        ensures
            res == nearer_of(first, second),
    {
        match first {
            None => second,
            Some(y) => match second {
                None => Some(y),
                Some(z) => if z.t.lt(y.t) {
                    Some(z)
                } else {
                    Some(y)
                },
            },
        }
    }
}

/// A primitive seen from its other side: every hit has its front and back
/// exchanged. It turns a one-sided emitter towards the scene.
#[derive(Clone, Debug)]
pub struct FlipFace<T> {
    pub ptr: T,
}

impl<T: Object> FlipFace<T> {
    pub fn new(a: T) -> (f: FlipFace<T>)
        ensures
            f.ptr == a,
    {
        FlipFace { ptr: a }
    }

    /// What `hit` returns: an answer of the inner primitive, flipped.
    pub open spec fn hit_of(
        self,
        r: &T::Ray,
        t_min: Scalar,
        t_max: Scalar,
        res: Option<HitRecord<T::Material>>,
    ) -> bool {
        exists|inner: Option<HitRecord<T::Material>>| #[trigger]
            answers(&self.ptr, r, t_min, t_max, inner) && res == match inner {
                Some(k) => Some(k.flip()),
                None => None,
            }
    }
}

impl<T: Object> Object for FlipFace<T> {
    type Ray = T::Ray;

    type Material = T::Material;

    fn hit(&self, r: &T::Ray, t_min: Scalar, t_max: Scalar) -> (res: Option<HitRecord<T::Material>>)
        ensures
            self.hit_of(r, t_min, t_max, res),
    {
        let rec = self.ptr.hit(r, t_min, t_max);
        assert(answers(&self.ptr, r, t_min, t_max, rec));
        match rec {
            None => None,
            Some(k) => {
                let mut p = k;
                p.front_face = !p.front_face;
                Some(p)
            },
        }
    }

    fn bounding_box(&self) -> (res: Option<AABB>)
        ensures
            reports(&self.ptr, res),
    {
        self.ptr.bounding_box()
    }
}

} // verus!
