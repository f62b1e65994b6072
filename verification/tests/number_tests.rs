use rlox::number::{equals, greater, greater_equal, is_nan, less, less_equal, negate};

fn samples() -> Vec<f64> {
    vec![
        0.0,
        -0.0,
        1.0,
        -1.0,
        1.5,
        -1.5,
        2.0,
        15.28,
        0.1 + 0.2,
        0.3,
        1e-310,
        -1e-310,
        f64::MIN_POSITIVE,
        -f64::MIN_POSITIVE,
        f64::EPSILON,
        f64::MAX,
        f64::MIN,
        f64::INFINITY,
        f64::NEG_INFINITY,
        f64::NAN,
        -f64::NAN,
        f64::from_bits(0x7ff0_0000_0000_0001),
        f64::from_bits(0xfff8_0000_0000_0001),
        f64::from_bits(1),
        f64::from_bits(0x8000_0000_0000_0001),
        9007199254740993.0,
        1e300,
        -1e300,
    ]
}

#[test]
fn comparisons_agree_with_the_doubles() {
    for a in samples() {
        for b in samples() {
            let (x, y) = (a.to_bits(), b.to_bits());
            assert_eq!(equals(x, y), a == b, "{} == {}", a, b);
            assert_eq!(less(x, y), a < b, "{} < {}", a, b);
            assert_eq!(less_equal(x, y), a <= b, "{} <= {}", a, b);
            assert_eq!(greater(x, y), a > b, "{} > {}", a, b);
            assert_eq!(greater_equal(x, y), a >= b, "{} >= {}", a, b);
        }
    }
}

#[test]
fn negation_agrees_with_the_doubles() {
    for a in samples() {
        assert_eq!(negate(a.to_bits()), (-a).to_bits(), "-{}", a);
        assert_eq!(negate(negate(a.to_bits())), a.to_bits());
    }
}

#[test]
fn nan_is_recognised() {
    for a in samples() {
        assert_eq!(is_nan(a.to_bits()), a.is_nan(), "{}", a);
    }
}

#[test]
fn zeros_are_equal_and_nan_equals_nothing() {
    assert!(equals(0.0f64.to_bits(), (-0.0f64).to_bits()));
    assert!(!less((-0.0f64).to_bits(), 0.0f64.to_bits()));
    assert!(less_equal((-0.0f64).to_bits(), 0.0f64.to_bits()));
    assert!(!equals(f64::NAN.to_bits(), f64::NAN.to_bits()));
    assert!(!less_equal(f64::NAN.to_bits(), 1.0f64.to_bits()));
    assert!(!greater_equal(f64::NAN.to_bits(), 1.0f64.to_bits()));
    assert_eq!(negate(0), 0x8000_0000_0000_0000);
    assert_eq!(negate(1.0f64.to_bits()), 0xbff0_0000_0000_0000);
}
