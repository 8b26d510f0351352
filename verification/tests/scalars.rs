use raytracer::scalar::{FAR_BITS, HALF_BITS, INFINITY_BITS, NEAR_BITS, ONE_BITS, SIGN_BIT};
use raytracer::{clamp, Scalar, Vec3, AABB};

fn s(x: f64) -> Scalar {
    Scalar::from_bits(x.to_bits())
}

fn f(x: Scalar) -> f64 {
    f64::from_bits(x.to_bits())
}

fn v(x: f64, y: f64, z: f64) -> Vec3 {
    Vec3::new(s(x), s(y), s(z))
}

fn samples() -> Vec<f64> {
    vec![
        0.0,
        -0.0,
        1.0,
        -1.0,
        0.5,
        0.001,
        -0.001,
        1e15,
        -1e15,
        1e-310,
        -1e-310,
        f64::MIN_POSITIVE,
        f64::MAX,
        f64::MIN,
        f64::INFINITY,
        f64::NEG_INFINITY,
        f64::NAN,
        -f64::NAN,
        3.25,
        -7.75,
        f64::EPSILON,
    ]
}

#[test]
fn bits_go_in_and_out_unchanged() {
    for x in samples() {
        assert_eq!(s(x).to_bits(), x.to_bits());
        assert_eq!(Scalar::from_bits(x.to_bits()).bits, x.to_bits());
    }
    assert_eq!(f(s(0.1 + 0.2)), 0.1 + 0.2);
}

#[test]
fn constants_are_the_numbers_they_name() {
    assert_eq!(SIGN_BIT, (-0.0f64).to_bits());
    assert_eq!(INFINITY_BITS, f64::INFINITY.to_bits());
    assert_eq!(ONE_BITS, 1.0f64.to_bits());
    assert_eq!(HALF_BITS, 0.5f64.to_bits());
    assert_eq!(NEAR_BITS, 0.001f64.to_bits());
    assert_eq!(FAR_BITS, 1e15f64.to_bits());
    assert_eq!(f(Scalar::zero()), 0.0);
    assert_eq!(Scalar::zero().to_bits(), 0);
    assert_eq!(f(Scalar::one()), 1.0);
    assert_eq!(f(Scalar::half()), 0.5);
    assert_eq!(f(Scalar::near()), 0.001);
    assert_eq!(f(Scalar::far()), 1e15);
}

#[test]
fn comparisons_are_the_ieee_ones() {
    for a in samples() {
        assert_eq!(s(a).is_nan(), a.is_nan());
        for b in samples() {
            assert_eq!(s(a).lt(s(b)), a < b, "{} < {}", a, b);
            assert_eq!(s(a).le(s(b)), a <= b, "{} <= {}", a, b);
            assert_eq!(s(a).gt(s(b)), a > b, "{} > {}", a, b);
            assert_eq!(s(a).ge(s(b)), a >= b, "{} >= {}", a, b);
            assert_eq!(s(a).same_number(s(b)), a == b, "{} == {}", a, b);
        }
    }
}

#[test]
fn the_two_zeros_are_one_number() {
    assert!(s(0.0).same_number(s(-0.0)));
    assert!(!s(-0.0).lt(s(0.0)));
    assert!(s(-0.0).le(s(0.0)));
    assert_ne!(s(0.0), s(-0.0));
    assert_eq!(s(0.0).order(), 0);
    assert_eq!(s(-0.0).order(), 0);
}

#[test]
fn a_nan_compares_false_with_everything() {
    let nan = s(f64::NAN);
    assert!(nan.is_nan());
    for b in samples() {
        assert!(!nan.lt(s(b)));
        assert!(!nan.le(s(b)));
        assert!(!nan.gt(s(b)));
        assert!(!nan.ge(s(b)));
        assert!(!nan.same_number(s(b)));
    }
}

#[test]
fn order_rises_with_the_number() {
    let mut numbers: Vec<f64> = samples().into_iter().filter(|x| !x.is_nan()).collect();
    numbers.sort_by(|a, b| a.partial_cmp(b).unwrap());
    for pair in numbers.windows(2) {
        assert!(s(pair[0]).order() <= s(pair[1]).order());
        if pair[0] < pair[1] {
            assert!(s(pair[0]).order() < s(pair[1]).order());
        }
    }
    assert_eq!(s(1.0).order(), 0x3FF0_0000_0000_0000);
    assert_eq!(s(-1.0).order(), -0x3FF0_0000_0000_0000);
}

#[test]
fn negation_flips_the_sign_only() {
    for x in samples() {
        assert_eq!(s(x).neg().to_bits(), (-x).to_bits());
        assert_eq!(s(x).neg().neg(), s(x));
    }
    assert_eq!(f(s(2.5).neg()), -2.5);
    assert_eq!(s(0.0).neg(), s(-0.0));
}

fn clamp_floats(x: f64, min: f64, max: f64) -> f64 {
    if x < min {
        return min;
    }
    if x > max {
        return max;
    }
    x
}

#[test]
fn clamp_holds_a_number_between_the_bounds() {
    assert_eq!(f(clamp(s(0.5), s(0.0), s(0.999))), 0.5);
    assert_eq!(f(clamp(s(-3.0), s(0.0), s(0.999))), 0.0);
    assert_eq!(f(clamp(s(7.0), s(0.0), s(0.999))), 0.999);
    assert_eq!(f(clamp(s(0.0), s(0.0), s(0.999))), 0.0);
    assert_eq!(f(clamp(s(0.999), s(0.0), s(0.999))), 0.999);
    assert!(f(clamp(s(f64::NAN), s(0.0), s(1.0))).is_nan());
    for x in samples() {
        let got = f(clamp(s(x), s(-1.0), s(2.0)));
        let want = clamp_floats(x, -1.0, 2.0);
        assert_eq!(got.to_bits(), want.to_bits());
    }
}

#[test]
fn test_new() {
    assert_eq!(v(1.0, 2.0, 3.0), v(1.0, 2.0, 3.0));
    let a = v(1.0, 2.0, 3.0);
    assert_eq!(f(a.x), 1.0);
    assert_eq!(f(a.y), 2.0);
    assert_eq!(f(a.z), 3.0);
}

#[test]
fn test_neg() {
    assert_eq!(v(1.0, -2.0, 3.0).neg(), v(-1.0, 2.0, -3.0));
}

#[test]
fn components_are_read_by_axis() {
    let a = v(1.0, 2.0, 3.0);
    assert_eq!(f(a.get(0)), 1.0);
    assert_eq!(f(a.get(1)), 2.0);
    assert_eq!(f(a.get(2)), 3.0);
    assert_eq!(f(a.get(3)), 3.0);
    assert_eq!(f(a.get(77)), 3.0);
}

#[test]
fn zero_and_ones() {
    assert_eq!(Vec3::zero(), v(0.0, 0.0, 0.0));
    assert_eq!(Vec3::_ones(), v(1.0, 1.0, 1.0));
}

#[test]
fn nan_components_become_zero() {
    let a = Vec3::new(s(f64::NAN), s(2.0), s(-f64::NAN)).nan_to_zero();
    assert_eq!(a, v(0.0, 2.0, 0.0));
    assert_eq!(v(1.0, -2.0, f64::INFINITY).nan_to_zero(), v(1.0, -2.0, f64::INFINITY));
}

#[test]
fn lesser_and_greater_of_two() {
    assert_eq!(f(AABB::min(s(1.0), s(2.0))), 1.0);
    assert_eq!(f(AABB::min(s(2.0), s(1.0))), 1.0);
    assert_eq!(f(AABB::max(s(1.0), s(2.0))), 2.0);
    assert_eq!(f(AABB::max(s(2.0), s(1.0))), 2.0);
    assert_eq!(f(AABB::min(s(-4.0), s(-4.0))), -4.0);
    // as with `<` on floats, the second argument is what is left when the
    // comparison fails
    assert_eq!(f(AABB::min(s(f64::NAN), s(3.0))), 3.0);
    assert!(f(AABB::min(s(3.0), s(f64::NAN))).is_nan());
    assert_eq!(f(AABB::max(s(f64::NAN), s(3.0))), 3.0);
    assert!(f(AABB::max(s(3.0), s(f64::NAN))).is_nan());
}

#[test]
fn a_new_box_has_the_given_corners() {
    let b = AABB::new(v(1.0, 2.0, 3.0), v(4.0, 5.0, 6.0));
    assert_eq!(b.min, v(1.0, 2.0, 3.0));
    assert_eq!(b.max, v(4.0, 5.0, 6.0));
}

#[test]
fn validity_is_min_at_most_max() {
    assert!(AABB::new(v(0.0, 0.0, 0.0), v(1.0, 1.0, 1.0)).is_valid());
    assert!(AABB::new(v(1.0, 1.0, 1.0), v(1.0, 1.0, 1.0)).is_valid());
    assert!(!AABB::new(v(0.0, 2.0, 0.0), v(1.0, 1.0, 1.0)).is_valid());
    assert!(!AABB::new(v(0.0, 0.0, 0.0), v(1.0, f64::NAN, 1.0)).is_valid());
    assert!(!AABB::new(v(1e15, 1e15, 1e15), v(-1e15, -1e15, -1e15)).is_valid());
}

#[test]
fn surrounding_box_takes_the_extremes() {
    let a = AABB::new(v(0.0, -1.0, 2.0), v(1.0, 1.0, 3.0));
    let b = AABB::new(v(-2.0, 0.0, 2.5), v(0.5, 4.0, 2.75));
    let u = AABB::surrounding_box(a, b);
    assert_eq!(u, AABB::new(v(-2.0, -1.0, 2.0), v(1.0, 4.0, 3.0)));
    assert_eq!(AABB::surrounding_box(b, a), u);
    assert_eq!(AABB::surrounding_box(a, a), a);
    assert_eq!(AABB::surrounding_box(u, a), u);
}

#[test]
fn surrounding_box_is_associative_on_samples() {
    let boxes = [
        AABB::new(v(0.0, 0.0, 0.0), v(1.0, 1.0, 1.0)),
        AABB::new(v(-3.0, 2.0, 0.5), v(-1.0, 2.5, 4.0)),
        AABB::new(v(0.25, -8.0, -1.0), v(0.5, -7.0, 9.0)),
    ];
    for a in boxes {
        for b in boxes {
            for c in boxes {
                assert_eq!(
                    AABB::surrounding_box(AABB::surrounding_box(a, b), c),
                    AABB::surrounding_box(a, AABB::surrounding_box(b, c))
                );
            }
        }
    }
}

#[test]
fn compare_looks_at_where_the_boxes_begin() {
    let a = Some(AABB::new(v(0.0, 5.0, 2.0), v(1.0, 6.0, 3.0)));
    let b = Some(AABB::new(v(1.0, 4.0, 2.0), v(9.0, 9.0, 9.0)));
    assert!(AABB::compare(a, b, 0));
    assert!(!AABB::compare(b, a, 0));
    assert!(!AABB::compare(a, b, 1));
    assert!(AABB::compare(b, a, 1));
    assert!(!AABB::compare(a, b, 2));
    assert!(!AABB::compare(b, a, 2));
    assert!(AABB::compare_x(a, b));
    assert!(!AABB::compare_y(a, b));
    assert!(AABB::compare_y(b, a));
    assert!(!AABB::compare_z(a, b));
    assert!(!AABB::compare(None, b, 0));
    assert!(!AABB::compare(a, None, 0));
    assert!(!AABB::compare(None, None, 0));
    assert!(!AABB::compare_x(None, b));
    assert!(!AABB::compare_y(a, None));
    assert!(!AABB::compare_z(None, None));
}

#[test]
fn enclosing_is_the_box_of_the_extremes() {
    assert_eq!(AABB::enclosing(&vec![]), None);
    let one = vec![v(1.0, 2.0, 3.0)];
    assert_eq!(AABB::enclosing(&one), Some(AABB::new(v(1.0, 2.0, 3.0), v(1.0, 2.0, 3.0))));
    let points = vec![v(1.0, 2.0, 3.0), v(-1.0, 5.0, 3.0), v(0.0, 0.0, 10.0), v(0.5, 1.0, -2.0)];
    assert_eq!(AABB::enclosing(&points), Some(AABB::new(v(-1.0, 0.0, -2.0), v(1.0, 5.0, 10.0))));
}

#[test]
fn corners_are_the_eight_of_the_box() {
    let b = AABB::new(v(0.0, 1.0, 2.0), v(10.0, 11.0, 12.0));
    let c = b.corners();
    assert_eq!(c.len(), 8);
    assert_eq!(c[0], v(0.0, 1.0, 2.0));
    assert_eq!(c[1], v(0.0, 1.0, 12.0));
    assert_eq!(c[2], v(0.0, 11.0, 2.0));
    assert_eq!(c[3], v(0.0, 11.0, 12.0));
    assert_eq!(c[4], v(10.0, 1.0, 2.0));
    assert_eq!(c[5], v(10.0, 1.0, 12.0));
    assert_eq!(c[6], v(10.0, 11.0, 2.0));
    assert_eq!(c[7], v(10.0, 11.0, 12.0));
    assert_eq!(AABB::enclosing(&c), Some(b));
}
