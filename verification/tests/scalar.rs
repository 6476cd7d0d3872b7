use pathtracer::scalar::{Scalar, INFINITY, ONE, SIGN};

fn s(x: f64) -> Scalar {
    Scalar::from_bits(x.to_bits())
}

fn f(x: Scalar) -> f64 {
    f64::from_bits(x.to_bits())
}

fn samples() -> Vec<f64> {
    vec![
        f64::NEG_INFINITY,
        f64::MIN,
        -1.0e300,
        -2.5,
        -1.0,
        -0.999,
        -f64::MIN_POSITIVE,
        -5.0e-324,
        -0.0,
        0.0,
        5.0e-324,
        f64::MIN_POSITIVE,
        0.001,
        0.999,
        1.0,
        4.5,
        1.0e300,
        f64::MAX,
        f64::INFINITY,
        f64::NAN,
        -f64::NAN,
    ]
}

#[test]
fn order_follows_the_numbers() {
    for a in samples() {
        for b in samples() {
            assert_eq!(s(a).lt(s(b)), a < b, "{} < {}", a, b);
            assert_eq!(s(a).le(s(b)), a <= b, "{} <= {}", a, b);
            assert_eq!(s(a).same(s(b)), a == b, "{} == {}", a, b);
        }
    }
}

#[test]
fn exactly_one_of_less_equal_greater() {
    for a in samples() {
        for b in samples() {
            if a.is_nan() || b.is_nan() {
                continue;
            }
            let held = [s(a).lt(s(b)), s(a).same(s(b)), s(b).lt(s(a))];
            assert_eq!(held.iter().filter(|h| **h).count(), 1);
        }
    }
}

#[test]
fn nan_and_sign_are_read_off_the_encoding() {
    for a in samples() {
        assert_eq!(s(a).is_nan(), a.is_nan());
        assert_eq!(s(a).is_sign_negative(), a.is_sign_negative());
    }
    assert!(s(-0.0).is_sign_negative());
    assert!(!s(0.0).is_sign_negative());
    assert!(s(f64::NEG_INFINITY).is_sign_negative());
    assert!(!s(f64::INFINITY).is_nan());
    assert!(Scalar::from_bits(INFINITY + 1).is_nan());
    assert!(Scalar::from_bits(SIGN + INFINITY + 1).is_nan());
    assert!(!Scalar::from_bits(SIGN + INFINITY).is_nan());
}

#[test]
fn negation_flips_the_sign_only() {
    for a in samples() {
        assert_eq!(s(a).negated().to_bits(), (-a).to_bits());
        assert_eq!(s(a).negated().negated(), s(a));
    }
    assert_eq!(f(s(4.5).negated()), -4.5);
    assert_eq!(s(0.0).negated(), s(-0.0));
}

#[test]
fn negation_turns_the_order_round() {
    for a in samples() {
        for b in samples() {
            assert_eq!(s(a).lt(s(b)), s(b).negated().lt(s(a).negated()));
        }
    }
}

#[test]
fn abs_clears_the_sign() {
    for a in samples() {
        assert_eq!(s(a).abs().to_bits(), a.abs().to_bits());
    }
    assert_eq!(f(s(-3.25).abs()), 3.25);
}

#[test]
fn max_and_min_pick_one_of_the_two() {
    for a in samples() {
        for b in samples() {
            let hi = f(s(a).max(s(b)));
            let lo = f(s(a).min(s(b)));
            if a.is_nan() && b.is_nan() {
                assert!(hi.is_nan() && lo.is_nan());
            } else {
                assert!(hi == a.max(b), "max({}, {}) = {}", a, b, hi);
                assert!(lo == a.min(b), "min({}, {}) = {}", a, b, lo);
            }
        }
    }
    assert_eq!(s(2.0).max(s(3.0)), s(3.0));
    assert_eq!(s(2.0).min(s(3.0)), s(2.0));
    assert_eq!(s(f64::NAN).max(s(3.0)), s(3.0));
    assert_eq!(s(2.0).min(s(f64::NAN)), s(2.0));
    // Of two equal numbers the first is returned.
    assert_eq!(s(0.0).max(s(-0.0)), s(0.0));
    assert_eq!(s(-0.0).min(s(0.0)), s(-0.0));
}

#[test]
fn clamp_moves_into_the_interval() {
    assert_eq!(s(-0.5).clamp(s(0.0), s(0.999)), s(0.0));
    assert_eq!(s(1.5).clamp(s(0.0), s(0.999)), s(0.999));
    assert_eq!(s(0.25).clamp(s(0.0), s(0.999)), s(0.25));
    assert_eq!(s(0.0).clamp(s(0.0), s(0.999)), s(0.0));
    assert_eq!(s(0.999).clamp(s(0.0), s(0.999)), s(0.999));
    assert!(f(s(f64::NAN).clamp(s(0.0), s(0.999))).is_nan());
    for a in samples() {
        let expected = if a < 0.0 {
            0.0
        } else if a > 0.999 {
            0.999
        } else {
            a
        };
        assert_eq!(s(a).clamp(s(0.0), s(0.999)).to_bits(), expected.to_bits());
    }
}

#[test]
fn constants_are_the_encodings() {
    assert_eq!(f(Scalar::zero()), 0.0);
    assert!(!Scalar::zero().is_sign_negative());
    assert_eq!(f(Scalar::one()), 1.0);
    assert_eq!(f(Scalar::infinity()), f64::INFINITY);
    assert_eq!(ONE, 1.0f64.to_bits());
    assert_eq!(INFINITY, f64::INFINITY.to_bits());
    assert_eq!(SIGN, (-0.0f64).to_bits());
    assert_eq!(Scalar::from_bits(7).to_bits(), 7);
}
