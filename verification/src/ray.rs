//! What the kernel asks of a ray.
use crate::scalar::Scalar;
use crate::vec3::Vec3;
use vstd::prelude::*;

verus! {

/// How a ray passes the slab between two parallel planes of one axis.
///
/// `t0` and `t1` are the ray parameters at which the ray meets the lower and
/// the upper plane, and `inv_d` is the reciprocal of the ray's direction on
/// that axis. A direction of zero gives infinities, or a NaN where the origin
/// lies on a plane; both are taken as they come.
#[derive(Clone, Copy, Debug, PartialEq, Eq, Structural)]
pub struct Slab {
    pub inv_d: Scalar,
    pub t0: Scalar,
    pub t1: Scalar,
}

/// A ray, as far as the kernel needs one: it can be made from an origin and
/// a direction, and it can say how it passes a slab. The arithmetic on origin
/// and direction stays with the implementing type.
pub trait Ray: Sized {
    /// The ray from the point `p` in the direction `d`.
    fn new(p: Vec3, d: Vec3) -> Self;

    /// The passage through the slab of `axis` (0, 1 or 2) between the plane
    /// coordinates `lo` and `hi`.
    fn slab(&self, axis: u32, lo: Scalar, hi: Scalar) -> Slab;
}

/// An interval of ray parameters, from `lo` to `hi`.
#[derive(Clone, Copy, Debug, PartialEq, Eq, Structural)]
pub struct Span {
    pub lo: Scalar,
    pub hi: Scalar,
}

impl Slab {
    /// The parameter at which the ray enters the slab: the crossing of the
    /// lower plane, or of the upper one where the ray runs downwards.
    pub open spec fn enter(self) -> Scalar {
        if self.inv_d.less(Scalar { bits: 0 }) {
            self.t1
        } else {
            self.t0
        }
    }

    /// The parameter at which the ray leaves the slab.
    pub open spec fn exit(self) -> Scalar {
        if self.inv_d.less(Scalar { bits: 0 }) {
            self.t0
        } else {
            self.t1
        }
    }

    /// Whether the three scalars are numbers.
    pub open spec fn is_number(self) -> bool {
        self.inv_d.is_number() && self.t0.is_number() && self.t1.is_number()
    }

    /// The span `within` cut down to the stretch inside the slab: its start
    /// moves up to the entry if that is later, its end down to the exit if
    /// that is earlier. A NaN moves nothing.
    pub open spec fn cut(self, within: Span) -> Span {
        Span {
            lo: if within.lo.less(self.enter()) { self.enter() } else { within.lo },
            hi: if self.exit().less(within.hi) { self.exit() } else { within.hi },
        }
    }

    /// What is left of `within` inside the slab, or `None` if that is empty.
    pub open spec fn narrowed(self, within: Span) -> Option<Span> {
        let cut = self.cut(within);
        if cut.hi.at_most(cut.lo) {
            None
        } else {
            Some(cut)
        }
    }

    /// Cuts the span `within` down to the stretch inside the slab. Returns
    /// `None` as soon as nothing is left, that is when the end is at or before
    /// the start.
    pub fn narrow(&self, within: Span) -> (res: Option<Span>)
        ensures
            res == self.narrowed(within),
    {
        let down = self.inv_d.lt(Scalar::zero());
        let enter = if down { self.t1 } else { self.t0 };
        let exit = if down { self.t0 } else { self.t1 };
        let lo = if enter.gt(within.lo) { enter } else { within.lo };
        let hi = if exit.lt(within.hi) { exit } else { within.hi };
        if hi.le(lo) {
            None
        } else {
            Some(Span { lo, hi })
        }
    }
}

/// What is left of `within` after it was narrowed by each slab in turn, or
/// `None` once nothing was left.
pub open spec fn narrowed_by_all(slabs: Seq<Slab>, within: Span) -> Option<Span>
    decreases slabs.len(),
{
    if slabs.len() == 0 {
        Some(within)
    } else {
        match narrowed_by_all(slabs.drop_last(), within) {
            None => None,
            Some(rest) => slabs.last().narrowed(rest),
        }
    }
}

} // verus!
