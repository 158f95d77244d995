use live_sim::scalar::{Scalar, INFINITY_BITS};

fn scalar(v: f32) -> Scalar {
    Scalar::from_bits(v.to_bits())
}

fn samples() -> Vec<f32> {
    vec![
        0.0,
        -0.0,
        1.0,
        -1.0,
        0.5,
        -0.5,
        5.0,
        -5.0,
        30.0,
        3200.0,
        3205.0,
        1800.0,
        -1795.25,
        1.0e-40,
        -1.0e-40,
        f32::MIN_POSITIVE,
        f32::MAX,
        f32::MIN,
        f32::INFINITY,
        f32::NEG_INFINITY,
        f32::NAN,
        -f32::NAN,
        f32::EPSILON,
        16777216.0,
        -16777217.0,
    ]
}

#[test]
fn every_i16_has_the_encoding_of_its_number() {
    for n in i16::MIN..=i16::MAX {
        assert_eq!(Scalar::from_i16(n).to_bits(), (n as f32).to_bits(), "{}", n);
    }
}

#[test]
fn every_u16_has_the_encoding_of_its_number() {
    for n in u16::MIN..=u16::MAX {
        assert_eq!(Scalar::from_u16(n).to_bits(), (n as f32).to_bits(), "{}", n);
    }
}

#[test]
fn encodings_of_the_arena_bounds() {
    assert_eq!(Scalar::from_i16(0).to_bits(), 0);
    assert_eq!(Scalar::from_i16(1).to_bits(), 0x3f80_0000);
    assert_eq!(Scalar::from_i16(5).to_bits(), 0x40a0_0000);
    assert_eq!(Scalar::from_i16(-5).to_bits(), 0xc0a0_0000);
    assert_eq!(Scalar::from_i16(3200).to_bits(), 0x4548_0000);
    assert_eq!(Scalar::from_i16(1800).to_bits(), 0x44e1_0000);
    assert_eq!(Scalar::from_u16(65535).to_bits(), 0x477f_ff00);
}

#[test]
fn less_than_agrees_with_the_numbers() {
    for a in samples() {
        for b in samples() {
            assert_eq!(scalar(a).lt(scalar(b)), a < b, "{} < {}", a, b);
        }
    }
}

#[test]
fn less_or_equal_agrees_with_the_numbers() {
    for a in samples() {
        for b in samples() {
            assert_eq!(scalar(a).le(scalar(b)), a <= b, "{} <= {}", a, b);
        }
    }
}

#[test]
fn greater_than_agrees_with_the_numbers() {
    for a in samples() {
        for b in samples() {
            assert_eq!(scalar(a).gt(scalar(b)), a > b, "{} > {}", a, b);
        }
    }
}

#[test]
fn not_a_number_is_recognised() {
    for a in samples() {
        assert_eq!(scalar(a).is_nan(), a.is_nan(), "{}", a);
    }
    assert!(!Scalar::from_bits(INFINITY_BITS).is_nan());
    assert!(Scalar::from_bits(INFINITY_BITS + 1).is_nan());
    assert!(Scalar::from_bits(0xffff_ffff).is_nan());
}

#[test]
fn zero_of_either_sign_compares_equal_but_differs_in_encoding() {
    let plus = scalar(0.0);
    let minus = scalar(-0.0);
    assert!(plus.le(minus) && minus.le(plus));
    assert!(!plus.lt(minus) && !minus.lt(plus));
    assert_ne!(plus, minus);
}

#[test]
fn bits_round_trip() {
    assert_eq!(Scalar::from_bits(0x1234_5678).to_bits(), 0x1234_5678);
    assert_eq!(Scalar::from_bits(0x1234_5678).bits, 0x1234_5678);
}
