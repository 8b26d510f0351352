//! Real numbers as the kernel holds them.
//!
//! A [`Scalar`] is the bit pattern of an IEEE 754 binary64 number. The kernel
//! never does arithmetic on it: it stores scalars, passes them through, negates
//! them and compares them, and each of these is exact on the bit pattern. The
//! comparisons are the IEEE ones: a NaN compares false with everything, and the
//! two zeros are equal. Finite scalars compare as the numbers that they stand
//! for, which [`lemma_comparisons_are_by_value`] proves from the layout of the
//! pattern.
use vstd::arithmetic::power2::{
    lemma2_to64, lemma_pow2_pos, lemma_pow2_strictly_increases, lemma_pow2_unfold, pow2,
};
use vstd::prelude::*;

verus! {

/// The sign bit of a binary64 pattern.
pub const SIGN_BIT: u64 = 0x8000_0000_0000_0000;

/// The pattern of positive infinity; every larger magnitude is a NaN.
pub const INFINITY_BITS: u64 = 0x7FF0_0000_0000_0000;

/// The pattern of 1.
pub const ONE_BITS: u64 = 0x3FF0_0000_0000_0000;

/// The pattern of 1/2.
pub const HALF_BITS: u64 = 0x3FE0_0000_0000_0000;

/// The pattern of 0.001, the nearest ray parameter at which a hit counts.
pub const NEAR_BITS: u64 = 0x3F50_624D_D2F1_A9FC;

/// The pattern of 1e15, the farthest ray parameter at which a hit counts.
pub const FAR_BITS: u64 = 0x430C_6BF5_2634_0000;

/// A binary64 number, held as its bit pattern.
///
/// `==` on scalars compares patterns; [`Scalar::same`] compares numbers.
#[derive(Clone, Copy, Debug, PartialEq, Eq, Structural)]
pub struct Scalar {
    pub bits: u64,
}

impl Scalar {
    /// Whether the sign bit is set.
    pub open spec fn negative(self) -> bool {
        self.bits >= SIGN_BIT
    }

    /// The pattern without its sign bit. Among numbers of one sign, a larger
    /// magnitude is a number farther from zero.
    pub open spec fn magnitude(self) -> int {
        if self.bits >= SIGN_BIT {
            self.bits - SIGN_BIT
        } else {
            self.bits as int
        }
    }

    /// Whether the pattern is a NaN.
    pub open spec fn nan(self) -> bool {
        self.magnitude() > INFINITY_BITS
    }

    /// Whether the pattern is a number: finite or infinite, but no NaN.
    pub open spec fn is_number(self) -> bool {
        !self.nan()
    }

    /// The place of a number on the line: numbers compare as their ranks do.
    /// Both zeros have rank 0.
    pub open spec fn rank(self) -> int {
        if self.negative() {
            -self.magnitude()
        } else {
            self.magnitude()
        }
    }

    /// IEEE `<`.
    pub open spec fn less(self, other: Scalar) -> bool {
        self.is_number() && other.is_number() && self.rank() < other.rank()
    }

    /// IEEE `<=`.
    pub open spec fn at_most(self, other: Scalar) -> bool {
        self.is_number() && other.is_number() && self.rank() <= other.rank()
    }

    /// IEEE `==`.
    pub open spec fn same(self, other: Scalar) -> bool {
        self.is_number() && other.is_number() && self.rank() == other.rank()
    }

    /// The pattern with its sign bit flipped.
    pub open spec fn negated(self) -> Scalar {
        if self.bits >= SIGN_BIT {
            Scalar { bits: (self.bits - SIGN_BIT) as u64 }
        } else {
            Scalar { bits: (self.bits + SIGN_BIT) as u64 }
        }
    }

    /// The scalar with the given bit pattern.
    pub fn from_bits(bits: u64) -> (s: Scalar)
        ensures
            s.bits == bits,
    {
        Scalar { bits }
    }

    /// The bit pattern of the scalar.
    pub fn to_bits(self) -> (bits: u64)
        ensures
            bits == self.bits,
    {
        self.bits
    }

    /// Positive zero.
    pub fn zero() -> (s: Scalar)
        ensures
            s.bits == 0,
    {
        Scalar { bits: 0 }
    }

    /// The number 1.
    pub fn one() -> (s: Scalar)
        ensures
            s.bits == ONE_BITS,
    {
        Scalar { bits: ONE_BITS }
    }

    /// The number 1/2.
    pub fn half() -> (s: Scalar)
        ensures
            s.bits == HALF_BITS,
    {
        Scalar { bits: HALF_BITS }
    }

    /// The nearest ray parameter at which a hit counts, 0.001.
    pub fn near() -> (s: Scalar)
        ensures
            s.bits == NEAR_BITS,
    {
        Scalar { bits: NEAR_BITS }
    }

    /// The farthest ray parameter at which a hit counts, 1e15.
    pub fn far() -> (s: Scalar)
        ensures
            s.bits == FAR_BITS,
    {
        Scalar { bits: FAR_BITS }
    }

    /// Whether the scalar is a NaN.
    pub fn is_nan(self) -> (b: bool)
        ensures
            b == self.nan(),
    {
        let magnitude: u64 = if self.bits >= SIGN_BIT {
            self.bits - SIGN_BIT
        } else {
            self.bits
        };
        magnitude > INFINITY_BITS
    }

    /// The rank of the scalar as a machine integer.
    pub fn order(self) -> (r: i64)
        ensures
            r == self.rank(),
    {
        if self.bits >= SIGN_BIT {
            let magnitude: u64 = self.bits - SIGN_BIT;
            -(magnitude as i64)
        } else {
            self.bits as i64
        }
    }

    /// IEEE `self < other`.
    pub fn lt(self, other: Scalar) -> (b: bool)
        ensures
            b == self.less(other),
    {
        !self.is_nan() && !other.is_nan() && self.order() < other.order()
    }

    /// IEEE `self <= other`.
    pub fn le(self, other: Scalar) -> (b: bool)
        ensures
            b == self.at_most(other),
    {
        !self.is_nan() && !other.is_nan() && self.order() <= other.order()
    }

    /// IEEE `self > other`.
    pub fn gt(self, other: Scalar) -> (b: bool)
        ensures
            b == other.less(self),
    {
        other.lt(self)
    }

    /// IEEE `self >= other`.
    pub fn ge(self, other: Scalar) -> (b: bool)
        ensures
            b == other.at_most(self),
    {
        other.le(self)
    }

    /// IEEE `self == other`: both are numbers and they are the same number.
    pub fn same_number(self, other: Scalar) -> (b: bool)
        ensures
            b == self.same(other),
    {
        !self.is_nan() && !other.is_nan() && self.order() == other.order()
    }

    /// The scalar with the opposite sign. Exact for every pattern.
    pub fn neg(self) -> (n: Scalar)
        ensures
            n == self.negated(),
            n.magnitude() == self.magnitude(),
            n.negative() != self.negative(),
            n.rank() == -self.rank(),
    {
        if self.bits >= SIGN_BIT {
            Scalar { bits: self.bits - SIGN_BIT }
        } else {
            Scalar { bits: self.bits + SIGN_BIT }
        }
    }
}

/// The number of patterns with one exponent: 2 to the 52.
pub const MANTISSA_RANGE: u64 = 0x10_0000_0000_0000;

impl Scalar {
    /// Whether the pattern is a finite number.
    pub open spec fn is_finite(self) -> bool {
        self.magnitude() < INFINITY_BITS
    }

    /// The exponent field of the pattern.
    pub open spec fn exponent(self) -> nat {
        (self.magnitude() / (MANTISSA_RANGE as int)) as nat
    }

    /// The mantissa field of the pattern.
    pub open spec fn mantissa(self) -> nat {
        (self.magnitude() % (MANTISSA_RANGE as int)) as nat
    }

    /// The size of a finite number, in units of 2 to the -1075, so that it is
    /// a whole number: a pattern with the exponent field 0 stands for its
    /// mantissa times 2 to the -1074, and every other for 2 to the 52 plus
    /// its mantissa, times 2 to the power of the exponent field less 1075.
    pub open spec fn scaled_size(self) -> int {
        if self.exponent() == 0 {
            2 * (self.mantissa() as int)
        } else {
            (MANTISSA_RANGE + self.mantissa()) * (pow2(self.exponent()) as int)
        }
    }

    /// The finite number that the pattern stands for, in units of 2 to the
    /// -1075.
    pub open spec fn scaled(self) -> int {
        if self.negative() {
            -self.scaled_size()
        } else {
            self.scaled_size()
        }
    }
}

/// Among finite numbers, a greater magnitude is a greater size, and only the
/// magnitude 0 has the size 0.
pub proof fn lemma_size_rises_with_magnitude(a: Scalar, b: Scalar)
    requires
        a.is_finite(),
        b.is_finite(),
        a.magnitude() < b.magnitude(),
    ensures
        0 <= a.scaled_size() < b.scaled_size(),
        a.scaled_size() == 0 <==> a.magnitude() == 0,
{
    let range = MANTISSA_RANGE as int;
    let (ea, ma) = (a.exponent(), a.mantissa() as int);
    let (eb, mb) = (b.exponent(), b.mantissa() as int);
    assert(a.magnitude() == ea * range + ma && 0 <= ma < range);
    assert(b.magnitude() == eb * range + mb && 0 <= mb < range);
    lemma_pow2_pos(ea);
    lemma_pow2_pos(eb);
    let (pa, pb) = (pow2(ea) as int, pow2(eb) as int);
    if ea > 0 {
        assert((range + ma) * pa >= range + ma) by (nonlinear_arith)
            requires
                pa >= 1,
                range + ma >= 0,
        ;
    }
    if ea == eb {
        assert(ma < mb);
        if ea > 0 {
            assert((range + ma) * pa < (range + mb) * pa) by (nonlinear_arith)
                requires
                    ma < mb,
                    pa > 0,
            ;
        }
    } else {
        assert(ea < eb) by (nonlinear_arith)
            requires
                ea * range + ma < eb * range + mb,
                0 <= ma < range,
                0 <= mb < range,
                ea != eb,
        ;
        assert((range + mb) * pb >= range * pb) by (nonlinear_arith)
            requires
                mb >= 0,
                pb > 0,
        ;
        if ea == 0 {
            lemma2_to64();
            if eb > 1 {
                lemma_pow2_strictly_increases(1, eb);
            }
            assert(range * pb >= range * 2) by (nonlinear_arith)
                requires
                    pb >= 2,
                    range > 0,
            ;
        } else {
            lemma_pow2_unfold(ea + 1);
            if ea + 1 < eb {
                lemma_pow2_strictly_increases(ea + 1, eb);
            }
            let next = pow2(ea + 1) as int;
            assert((range + ma) * pa < range * next) by (nonlinear_arith)
                requires
                    ma < range,
                    pa > 0,
                    next == 2 * pa,
            ;
            assert(range * next <= range * pb) by (nonlinear_arith)
                requires
                    next <= pb,
                    range > 0,
            ;
        }
    }
}

/// Finite numbers compare as the numbers that their patterns stand for:
/// `<`, `<=` and `==` on scalars are `<`, `<=` and `==` on their values. The
/// two zeros stand for the same value.
pub proof fn lemma_comparisons_are_by_value(a: Scalar, b: Scalar)
    requires
        a.is_finite(),
        b.is_finite(),
    ensures
        a.less(b) <==> a.scaled() < b.scaled(),
        a.at_most(b) <==> a.scaled() <= b.scaled(),
        a.same(b) <==> a.scaled() == b.scaled(),
{
    let zero = Scalar { bits: 0 };
    assert(zero.scaled_size() == 0);
    if a.magnitude() < b.magnitude() {
        lemma_size_rises_with_magnitude(a, b);
    } else if b.magnitude() < a.magnitude() {
        lemma_size_rises_with_magnitude(b, a);
    } else {
        assert(a.exponent() == b.exponent() && a.mantissa() == b.mantissa());
    }
    if a.magnitude() > 0 {
        lemma_size_rises_with_magnitude(zero, a);
    } else {
        assert(a.exponent() == 0 && a.mantissa() == 0);
    }
    if b.magnitude() > 0 {
        lemma_size_rises_with_magnitude(zero, b);
    } else {
        assert(b.exponent() == 0 && b.mantissa() == 0);
    }
}

/// `x` held between `min` and `max`: `min` where `x` is below it, `max` where
/// `x` is above it, and `x` itself otherwise, a NaN included.
pub open spec fn clamped(x: Scalar, min: Scalar, max: Scalar) -> Scalar {
    if x.less(min) {
        min
    } else if max.less(x) {
        max
    } else {
        x
    }
}

/// Holds `x` between `min` and `max`.
pub fn clamp(x: Scalar, min: Scalar, max: Scalar) -> (r: Scalar)
    ensures
        r == clamped(x, min, max),
{
    if x.lt(min) {
        return min;
    }
    if x.gt(max) {
        return max;
    }
    x
}

/// Numbers are totally ordered: of two numbers one is less than the other, or
/// they are the same number.
pub proof fn lemma_numbers_compare(a: Scalar, b: Scalar)
    requires
        a.is_number(),
        b.is_number(),
    ensures
        a.less(b) || b.less(a) || a.same(b),
        a.at_most(b) <==> !b.less(a),
        a.at_most(b) <==> a.less(b) || a.same(b),
        a.at_most(b) || b.at_most(a),
{
}

/// `<=` on numbers is transitive, and mixes with `<` as it should.
pub proof fn lemma_order_transitive(a: Scalar, b: Scalar, c: Scalar)
    ensures
        a.at_most(b) && b.at_most(c) ==> a.at_most(c),
        a.less(b) && b.at_most(c) ==> a.less(c),
        a.at_most(b) && b.less(c) ==> a.less(c),
{
}

/// A clamped number lies between the bounds, when the bounds are in order.
pub proof fn lemma_clamped_between(x: Scalar, min: Scalar, max: Scalar)
    requires
        x.is_number(),
        min.at_most(max),
    ensures
        min.at_most(clamped(x, min, max)),
        clamped(x, min, max).at_most(max),
        min.at_most(x) && x.at_most(max) ==> clamped(x, min, max) == x,
{
}

/// Negation turns the order round, and undoes itself.
pub proof fn lemma_negation(a: Scalar, b: Scalar)
    ensures
        a.negated().negated() == a,
        a.negated().is_number() == a.is_number(),
        a.less(b) <==> b.negated().less(a.negated()),
        a.at_most(b) <==> b.negated().at_most(a.negated()),
{
}

} // verus!
