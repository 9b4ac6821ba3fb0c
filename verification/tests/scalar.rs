use spacer::math::Scalar;

fn s(x: f32) -> Scalar {
    Scalar::from_bits(x.to_bits())
}

fn samples() -> Vec<f32> {
    let mut values = vec![
        0.0,
        -0.0,
        1.0,
        -1.0,
        0.5,
        -0.5,
        1e-6,
        -1e-6,
        0.001,
        1.5,
        2.0,
        3.25,
        -7.0,
        1e-40,
        -1e-40,
        f32::MIN_POSITIVE,
        f32::MAX,
        f32::MIN,
        f32::EPSILON,
        f32::INFINITY,
        f32::NEG_INFINITY,
        f32::NAN,
        -f32::NAN,
        f32::from_bits(0x7fc0_0001),
        f32::from_bits(0xff80_0001),
    ];
    let mut state: u32 = 0x1234_5678;
    for _ in 0..200 {
        state = state.wrapping_mul(1_664_525).wrapping_add(1_013_904_223);
        values.push(f32::from_bits(state));
    }
    values
}

#[test]
fn comparisons_are_those_of_the_numbers() {
    for &a in &samples() {
        for &b in &samples() {
            assert_eq!(s(a).lt(s(b)), a < b, "{a:?} < {b:?}");
            assert_eq!(s(a).le(s(b)), a <= b, "{a:?} <= {b:?}");
            assert_eq!(s(a).gt(s(b)), a > b, "{a:?} > {b:?}");
            assert_eq!(s(a).ge(s(b)), a >= b, "{a:?} >= {b:?}");
            assert_eq!(s(a) == s(b), a == b, "{a:?} == {b:?}");
        }
    }
}

#[test]
fn total_key_orders_as_total_cmp() {
    for &a in &samples() {
        for &b in &samples() {
            assert_eq!(
                s(a).total_key().cmp(&s(b).total_key()),
                a.total_cmp(&b),
                "{a:?} against {b:?}"
            );
        }
    }
}

#[test]
fn total_key_of_the_zeros_and_infinities() {
    assert_eq!(s(0.0).total_key(), 0);
    assert_eq!(s(-0.0).total_key(), -1);
    assert_eq!(s(f32::INFINITY).total_key(), 0x7f80_0000);
    assert_eq!(s(f32::NEG_INFINITY).total_key(), -1 - 0x7f80_0000);
    assert_eq!(s(1.0).rank_key(), 0x3f80_0000);
    assert_eq!(s(-1.0).rank_key(), -0x3f80_0000);
    assert_eq!(s(-0.0).rank_key(), 0);
}

#[test]
fn max_and_min_are_those_of_the_numbers() {
    for &a in &samples() {
        for &b in &samples() {
            let max = f32::from_bits(s(a).max(s(b)).to_bits());
            let min = f32::from_bits(s(a).min(s(b)).to_bits());
            if a.is_nan() && b.is_nan() {
                assert!(max.is_nan() && min.is_nan());
            } else {
                // The two zeros are equal as numbers: either may come back.
                assert!(max == a.max(b), "max of {a:?} and {b:?}");
                assert!(min == a.min(b), "min of {a:?} and {b:?}");
            }
        }
    }
}

#[test]
fn max_and_min_pick_one_of_the_two() {
    for &a in &samples() {
        for &b in &samples() {
            let max = s(a).max(s(b)).to_bits();
            let min = s(a).min(s(b)).to_bits();
            assert!(max == a.to_bits() || max == b.to_bits());
            assert!(min == a.to_bits() || min == b.to_bits());
            assert_eq!(max, s(b).max(s(a)).to_bits());
            assert_eq!(min, s(b).min(s(a)).to_bits());
        }
    }
}

#[test]
fn max_and_min_of_the_zeros_follow_the_total_order() {
    assert_eq!(s(-0.0).max(s(0.0)).to_bits(), 0.0f32.to_bits());
    assert_eq!(s(0.0).max(s(-0.0)).to_bits(), 0.0f32.to_bits());
    assert_eq!(s(-0.0).min(s(0.0)).to_bits(), (-0.0f32).to_bits());
    assert_eq!(s(0.0).min(s(-0.0)).to_bits(), (-0.0f32).to_bits());
}

#[test]
fn a_nan_loses_against_a_number() {
    assert_eq!(s(f32::NAN).max(s(2.0)).to_bits(), 2.0f32.to_bits());
    assert_eq!(s(2.0).max(s(f32::NAN)).to_bits(), 2.0f32.to_bits());
    assert_eq!(s(f32::NAN).min(s(2.0)).to_bits(), 2.0f32.to_bits());
    assert_eq!(s(2.0).min(s(-f32::NAN)).to_bits(), 2.0f32.to_bits());
    assert!(s(f32::NAN).is_nan());
    assert!(!s(f32::INFINITY).is_nan());
}

#[test]
fn neg_and_abs_are_exact() {
    for &a in &samples() {
        assert_eq!(s(a).neg().to_bits(), (-a).to_bits());
        assert_eq!(s(a).abs().to_bits(), a.abs().to_bits());
    }
}

#[test]
fn named_scalars() {
    assert_eq!(Scalar::zero().to_bits(), 0.0f32.to_bits());
    assert_eq!(Scalar::one().to_bits(), 1.0f32.to_bits());
    assert_eq!(Scalar::infinity().to_bits(), f32::INFINITY.to_bits());
    assert_eq!(Scalar::neg_infinity().to_bits(), f32::NEG_INFINITY.to_bits());
}
