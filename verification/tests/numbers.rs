use num_ext::ieee::{is_finite, is_less, is_positive, NAN, ONE};

const NUMBERS: [f64; 13] = [
    f64::NEG_INFINITY,
    f64::MIN,
    -1.5,
    -f64::MIN_POSITIVE,
    -5e-324,
    -0.0,
    0.0,
    5e-324,
    f64::MIN_POSITIVE,
    1.0,
    1.5,
    f64::MAX,
    f64::INFINITY,
];

#[test]
fn bits_are_ordered_as_the_numbers_are() {
    for a in NUMBERS {
        for b in NUMBERS {
            assert_eq!(is_less(a.to_bits(), b.to_bits()), a < b);
        }
        assert!(!is_less(a.to_bits(), f64::NAN.to_bits()));
        assert!(!is_less(f64::NAN.to_bits(), a.to_bits()));
    }
}

#[test]
fn bits_tell_nan_and_infinity() {
    for a in NUMBERS {
        assert_eq!(is_finite(a.to_bits()), a.is_finite());
        assert_eq!(is_positive(a.to_bits()), a > 0.0);
    }
    assert!(f64::from_bits(NAN).is_nan());
    assert!(!is_less(0, 0x7ff0_0000_0000_0001));
    assert!(!is_less((-f64::NAN).to_bits(), 0));
    assert!(!is_finite(f64::NAN.to_bits()));
    assert!(!is_positive(f64::NAN.to_bits()));
    assert_eq!(ONE, 1.0f64.to_bits());
}

#[test]
fn order_is_transitive() {
    for a in NUMBERS {
        for b in NUMBERS {
            for c in NUMBERS {
                let (a, b, c) = (a.to_bits(), b.to_bits(), c.to_bits());
                assert!(!(is_less(a, b) && is_less(b, c)) || is_less(a, c));
            }
        }
    }
}
