use lox::number::{negate, number_is_nan, number_less, number_less_equal, INFINITY_BITS, SIGN_BIT};

fn samples() -> Vec<f64> {
    vec![
        0.0,
        -0.0,
        1.0,
        -1.0,
        0.5,
        -0.5,
        2.0,
        3.0,
        1e300,
        -1e300,
        f64::MIN_POSITIVE,
        -f64::MIN_POSITIVE,
        5e-324,
        -5e-324,
        f64::MAX,
        f64::MIN,
        f64::INFINITY,
        f64::NEG_INFINITY,
        f64::NAN,
        -f64::NAN,
        f64::from_bits(0x7FF0_0000_0000_0001),
        f64::from_bits(0xFFFF_FFFF_FFFF_FFFF),
        0.1 + 0.2,
        0.3,
    ]
}

#[test]
fn constants_are_the_bit_patterns() {
    assert_eq!(SIGN_BIT, (-0.0f64).to_bits());
    assert_eq!(INFINITY_BITS, f64::INFINITY.to_bits());
}

#[test]
fn nan_is_recognised() {
    for value in samples() {
        assert_eq!(number_is_nan(value.to_bits()), value.is_nan(), "{}", value);
    }
}

#[test]
fn negate_flips_the_sign() {
    for value in samples() {
        assert_eq!(negate(value.to_bits()), (-value).to_bits(), "{}", value);
        assert_eq!(negate(negate(value.to_bits())), value.to_bits());
    }
    assert_eq!(negate(1.5f64.to_bits()), (-1.5f64).to_bits());
    assert_eq!(negate(0), SIGN_BIT);
}

#[test]
fn less_is_the_order_of_the_values() {
    for left in samples() {
        for right in samples() {
            assert_eq!(number_less(left.to_bits(), right.to_bits()), left < right,
                "{} < {}", left, right);
        }
    }
    assert!(number_less(1.0f64.to_bits(), 2.0f64.to_bits()));
    assert!(!number_less(2.0f64.to_bits(), 1.0f64.to_bits()));
    assert!(!number_less((-0.0f64).to_bits(), 0.0f64.to_bits()));
}

#[test]
fn less_equal_is_the_order_of_the_values() {
    for left in samples() {
        for right in samples() {
            assert_eq!(number_less_equal(left.to_bits(), right.to_bits()), left <= right,
                "{} <= {}", left, right);
        }
    }
    assert!(number_less_equal(0.0f64.to_bits(), (-0.0f64).to_bits()));
    assert!(!number_less_equal(f64::NAN.to_bits(), f64::NAN.to_bits()));
}
