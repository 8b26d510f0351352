//! Materials: what the estimator asks of a material, what a scattering event
//! is, and the decisions that the usual materials take once their arithmetic
//! is done.
//!
//! The usual materials are data here. How each of them scatters is
//! arithmetic, and belongs to the code that does it.
use crate::object::HitRecord;
use crate::pdf::Pdf;
use crate::scalar::{Scalar, ONE_BITS};
use crate::vec3::Vec3;
use vstd::prelude::*;

verus! {

/// What a material proposes for one bounce of light.
///
/// `jud` is false where the light was absorbed and the path ends. A specular
/// event carries no density: `pdf_ptr` is there for the others only.
pub struct ScaRet<R, P> {
    pub scattered: R,
    pub attenustion: Vec3,
    pub pdf_ptr: Option<P>,
    pub is_specular: bool,
    pub jud: bool,
}

impl<R, P> ScaRet<R, P> {
    /// An event without a density.
    pub fn new(r: R, v: Vec3, ip: bool, j: bool) -> (s: ScaRet<R, P>)
        ensures
            s.scattered == r,
            s.attenustion == v,
            s.pdf_ptr is None,
            s.is_specular == ip,
            s.jud == j,
    {
        ScaRet { scattered: r, attenustion: v, pdf_ptr: None, is_specular: ip, jud: j }
    }

    /// An event without a density.
    pub fn _new_(r: R, v: Vec3, ip: bool, j: bool) -> (s: ScaRet<R, P>)
        ensures
            s.scattered == r,
            s.attenustion == v,
            s.pdf_ptr is None,
            s.is_specular == ip,
            s.jud == j,
    {
        ScaRet { scattered: r, attenustion: v, pdf_ptr: None, is_specular: ip, jud: j }
    }
}

/// A material: what a surface does with light.
///
/// The arithmetic of scattering belongs to the implementing type. The kernel
/// relies on nothing about what these methods return.
pub trait Material: Sized {
    /// The rays that the material scatters.
    type Ray;

    /// The strategies that the material samples its directions with.
    type Pdf: Pdf;

    /// What becomes of the light that comes along `r_in` and meets the
    /// surface in `rec`.
    fn scatter(&self, r_in: &Self::Ray, rec: &HitRecord<Self>) -> ScaRet<Self::Ray, Self::Pdf>;

    /// The light that the surface emits where it was hit. No light, unless
    /// the material says otherwise.
    fn emitted(&self, _rec: &HitRecord<Self>, _u: Scalar, _v: Scalar, _p: Vec3) -> (light: Vec3)
        default_ensures
            light == (Vec3 { x: Scalar { bits: 0 }, y: Scalar { bits: 0 }, z: Scalar { bits: 0 } }),
    {
        Vec3::zero()
    }

    /// The density with which the material itself scatters light from `r_in`
    /// into `scattered`. Zero, unless the material says otherwise.
    fn scattering_pdf(
        &self,
        _r_in: &Self::Ray,
        _rec: &HitRecord<Self>,
        _scattered: &Self::Ray,
    ) -> (density: Scalar)
        default_ensures
            density == (Scalar { bits: 0 }),
    {
        Scalar::zero()
    }
}

/// What a material proposes for one bounce where no densities are kept.
pub struct ScaRet_<R> {
    pub scattered: R,
    pub attenustion: Vec3,
    pub jud: bool,
}

impl<R> ScaRet_<R> {
    pub fn new(r: R, v: Vec3, j: bool) -> (s: ScaRet_<R>)
        ensures
            s.scattered == r,
            s.attenustion == v,
            s.jud == j,
    {
        ScaRet_ { scattered: r, attenustion: v, jud: j }
    }
}

/// The material of a shape that only says where a light is. Nothing is ever
/// scattered by it or emitted from it.
#[derive(Clone, Copy, Debug)]
pub struct NoMaterial;

/// A diffuse surface with the texture `albedo`.
#[derive(Clone, Copy, Debug)]
pub struct Lambertian<T> {
    pub albedo: T,
}

impl<T> Lambertian<T> {
    pub fn new(v: T) -> (m: Lambertian<T>)
        ensures
            m.albedo == v,
    {
        Lambertian { albedo: v }
    }
}

/// A mirror of the colour `albedo`, blurred by `fuzz`, which is at most 1.
#[derive(Clone, Copy, Debug)]
pub struct Metal {
    pub albedo: Vec3,
    pub fuzz: Scalar,
}

impl Metal {
    /// A metal with the given blur, cut down to 1 where it is more, or no
    /// number.
    pub fn new(v: Vec3, f: Scalar) -> (m: Metal)
        ensures
            m.albedo == v,
            m.fuzz == (if f.at_most(Scalar { bits: ONE_BITS }) {
                f
            } else {
                Scalar { bits: ONE_BITS }
            }),
            m.fuzz.at_most(Scalar { bits: ONE_BITS }),
    {
        Metal {
            albedo: v,
            fuzz: if f.le(Scalar::one()) {
                f
            } else {
                Scalar::one()
            },
        }
    }

    /// Whether a reflected ray goes on. `along` is the product of its
    /// direction with the surface normal: a ray that points into the surface,
    /// or along it, is absorbed.
    pub fn scatters(along: Scalar) -> (res: bool)
        ensures
            res == (Scalar { bits: 0 }).less(along),
    {
        along.gt(Scalar::zero())
    }
}

/// A clear material with the refractive index `ref_idx`.
#[derive(Clone, Copy, Debug)]
pub struct Dielectric {
    pub ref_idx: Scalar,
}

impl Dielectric {
    pub fn new(x: Scalar) -> (m: Dielectric)
        ensures
            m.ref_idx == x,
    {
        Dielectric { ref_idx: x }
    }

    /// The cosine of the angle of incidence from the product of the reversed
    /// direction with the normal: the product, cut down to 1.
    pub fn cosine(along: Scalar) -> (res: Scalar)
        ensures
            res == (if (Scalar { bits: ONE_BITS }).less(along) {
                Scalar { bits: ONE_BITS }
            } else {
                along
            }),
    {
        if along.gt(Scalar::one()) {
            Scalar::one()
        } else {
            along
        }
    }

    /// Whether the light is reflected rather than refracted.
    ///
    /// `eta_sin_theta` is the ratio of the refractive indices times the sine
    /// of the angle of incidence, `reflectance` the share of light that the
    /// surface reflects at that angle, and `draw` a random number from 0 to 1.
    /// Beyond the critical angle, where `eta_sin_theta` is above 1, all light
    /// is reflected, whatever was drawn. Else the draw decides: the light is
    /// reflected where it falls below the reflectance.
    pub fn reflects(eta_sin_theta: Scalar, reflectance: Scalar, draw: Scalar) -> (res: bool)
        ensures
            res == ((Scalar { bits: ONE_BITS }).less(eta_sin_theta) || draw.less(reflectance)),
            (Scalar { bits: ONE_BITS }).less(eta_sin_theta) ==> res,
    {
        if eta_sin_theta.gt(Scalar::one()) {
            return true;
        }
        draw.lt(reflectance)
    }
}

/// A surface that emits the colours of the texture `emit` from its front.
#[derive(Clone, Copy, Debug)]
pub struct DiffuseLight<T> {
    pub emit: T,
}

impl<T> DiffuseLight<T> {
    pub fn new(m: T) -> (l: DiffuseLight<T>)
        ensures
            l.emit == m,
    {
        DiffuseLight { emit: m }
    }

    /// The light that leaves the surface where it was hit: the colour of the
    /// texture there on the front, and black on the back.
    pub fn emitted(front_face: bool, colour: Vec3) -> (res: Vec3)
        ensures
            front_face ==> res == colour,
            !front_face ==> res == (Vec3 {
                x: Scalar { bits: 0 },
                y: Scalar { bits: 0 },
                z: Scalar { bits: 0 },
            }),
    {
        if front_face {
            colour
        } else {
            Vec3::zero()
        }
    }
}

} // verus!
