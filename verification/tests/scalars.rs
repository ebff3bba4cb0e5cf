//! Doubles as bit patterns, against the real ones.
use alice_wm::gesture::{COMMIT_THRESHOLD, DEAD_ZONE, GESTURE_DISTANCE};
use alice_wm::animation::ONE_HALF;
use alice_wm::scalar::{Scalar, INFINITE, MANTISSA, ONE, SIGN, ZERO};
use alice_wm::world_actions::{RATIO_CEILING, RATIO_FLOOR};

fn scalar(v: f64) -> Scalar {
    Scalar { bits: v.to_bits() }
}

fn samples() -> Vec<f64> {
    vec![
        0.0,
        -0.0,
        1.0,
        -1.0,
        0.5,
        -0.5,
        12.0,
        220.0,
        1.0e-310,
        -1.0e-310,
        f64::MIN_POSITIVE,
        f64::MAX,
        f64::MIN,
        f64::INFINITY,
        f64::NEG_INFINITY,
        f64::NAN,
        -f64::NAN,
    ]
}

#[test]
fn constants_are_the_doubles_they_stand_for() {
    assert_eq!(ZERO, 0.0_f64.to_bits());
    assert_eq!(ONE, 1.0_f64.to_bits());
    assert_eq!(SIGN, (-0.0_f64).to_bits());
    assert_eq!(INFINITE, f64::INFINITY.to_bits());
    assert_eq!(MANTISSA, 1u64 << 52);
    assert_eq!(ONE_HALF, 0.5_f64.to_bits());
    assert_eq!(DEAD_ZONE, 12.0_f64.to_bits());
    assert_eq!(GESTURE_DISTANCE, 220.0_f64.to_bits());
    assert_eq!(COMMIT_THRESHOLD, 0.5_f64.to_bits());
    assert_eq!(RATIO_CEILING, 0.95_f64.to_bits());
    assert_eq!(RATIO_FLOOR, 0.05_f64.to_bits());
}

#[test]
fn comparisons_agree_with_doubles() {
    for a in samples() {
        assert_eq!(scalar(a).is_nan(), a.is_nan());
        for b in samples() {
            assert_eq!(scalar(a).lt(&scalar(b)), a < b, "{} < {}", a, b);
            assert_eq!(scalar(a).le(&scalar(b)), a <= b, "{} <= {}", a, b);
            assert_eq!(scalar(a).same(&scalar(b)), a == b, "{} == {}", a, b);
        }
    }
}

#[test]
fn absolute_values_agree_with_doubles() {
    for a in samples() {
        assert_eq!(scalar(a).abs().bits, a.abs().to_bits());
    }
}

#[test]
fn integers_become_their_doubles() {
    let mut v: i64 = i32::MIN as i64;
    while v <= i32::MAX as i64 {
        assert_eq!(Scalar::from_int(v as i32).bits, (v as f64).to_bits());
        v += 99_991;
    }
    for v in [-3, -2, -1, 0, 1, 2, 3, 4, 7, 8, 1920, -1920, i32::MAX, i32::MIN] {
        assert_eq!(Scalar::from_int(v).bits, (v as f64).to_bits());
    }
}

#[test]
fn doubles_of_integers_keep_their_order() {
    let values = [i32::MIN, -1920, -2, -1, 0, 1, 2, 3, 1919, 1920, i32::MAX];
    for a in values {
        for b in values {
            assert_eq!(Scalar::from_int(a).lt(&Scalar::from_int(b)), a < b);
            assert_eq!(Scalar::from_int(a).same(&Scalar::from_int(b)), a == b);
        }
    }
}

#[test]
fn clamping_agrees_with_doubles() {
    for a in samples() {
        if a.is_nan() {
            assert_eq!(scalar(a).clamp_unit().bits, a.to_bits());
        } else {
            assert_eq!(scalar(a).clamp_unit().bits, a.clamp(0.0, 1.0).to_bits());
            assert_eq!(
                scalar(a).clamp(&scalar(-1.0), &scalar(219.0)).bits,
                a.clamp(-1.0, 219.0).to_bits(),
            );
        }
    }
}
