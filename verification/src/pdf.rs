//! Sampling strategies: densities over directions, and samples from them.
use crate::object::Light;
use crate::rng::coin;
use crate::scalar::Scalar;
use crate::vec3::Vec3;
use vstd::prelude::*;

verus! {

/// A sampling strategy: it gives directions, and knows the density with which
/// it gives each.
pub trait Pdf {
    /// The density of the direction `dir`.
    fn value(&self, dir: Vec3) -> Scalar;

    /// A direction, picked at random.
    fn generate(&self) -> Vec3;
}

/// Whether `res` is a density that the strategy may give for `dir`.
pub open spec fn weighs_as<P: Pdf>(pdf: &P, dir: Vec3, res: Scalar) -> bool {
    call_ensures(P::value, (pdf, dir), res)
}

/// Whether `dir` is a direction that the strategy may give.
pub open spec fn samples<P: Pdf>(pdf: &P, dir: Vec3) -> bool {
    call_ensures(P::generate, (pdf,), dir)
}

/// The density of a direction under the cosine law, from the cosine `co` of
/// its angle with the normal and from `co_over_pi`, that cosine over pi: the
/// latter where the direction points out of the surface, and zero where it
/// does not, or where the cosine is no number.
pub open spec fn cosine_law(co: Scalar, co_over_pi: Scalar) -> Scalar {
    if (Scalar { bits: 0 }).less(co) {
        co_over_pi
    } else {
        Scalar { bits: 0 }
    }
}

/// The density of a direction under the cosine law.
pub fn cosine_density(co: Scalar, co_over_pi: Scalar) -> (res: Scalar)
    ensures
        res == cosine_law(co, co_over_pi),
{
    if co.gt(Scalar::zero()) {
        co_over_pi
    } else {
        Scalar::zero()
    }
}

/// The strategy that samples directions from the point `o` towards the
/// primitive `ptr`: a light.
pub struct HittablePdf<'a, T> {
    pub o: Vec3,
    pub ptr: &'a T,
}

impl<'a, T> HittablePdf<'a, T> {
    pub fn new(oo: Vec3, p: &'a T) -> (pdf: HittablePdf<'a, T>)
        ensures
            pdf.o == oo,
            pdf.ptr == p,
    {
        HittablePdf { o: oo, ptr: p }
    }
}

impl<'a, T: Light> Pdf for HittablePdf<'a, T> {
    /// The density that the light gives the direction, seen from `o`.
    fn value(&self, dir: Vec3) -> (res: Scalar)
        ensures
            call_ensures(T::pdf_value, (self.ptr, self.o, dir), res),
    {
        self.ptr.pdf_value(self.o, dir)
    }

    /// A direction from `o` towards the light.
    fn generate(&self) -> (dir: Vec3)
        ensures
            call_ensures(T::random, (self.ptr, self.o), dir),
    {
        self.ptr.random(self.o)
    }
}

/// The even mixture of two strategies. Its density is the mean of the two
/// densities; the kernel gives both, and leaves the mean to the arithmetic.
pub struct MixturePdf<P0, P1> {
    pub p0: P0,
    pub p1: P1,
}

impl<P0: Pdf, P1: Pdf> MixturePdf<P0, P1> {
    pub fn new(pp0: P0, pp1: P1) -> (pdf: MixturePdf<P0, P1>)
        ensures
            pdf.p0 == pp0,
            pdf.p1 == pp1,
    {
        MixturePdf { p0: pp0, p1: pp1 }
    }

    /// The densities that the two strategies give the direction `dir`, the
    /// first strategy's first.
    pub fn values(&self, dir: Vec3) -> (res: (Scalar, Scalar))
        ensures
            weighs_as(&self.p0, dir, res.0),
            weighs_as(&self.p1, dir, res.1),
    {
        (self.p0.value(dir), self.p1.value(dir))
    }

    /// A direction from one of the two strategies, each picked by a fair
    /// coin.
    pub fn generate(&self) -> (dir: Vec3)
        ensures
            samples(&self.p0, dir) || samples(&self.p1, dir),
    {
        if coin() {
            self.p0.generate()
        } else {
            self.p1.generate()
        }
    }
}

} // verus!
