//! Single-precision arithmetic against the hardware's.

use backdrop_blur::single::Single;

fn single(x: f32) -> Single {
    Single::from_bits(x.to_bits())
}

/// Equal as numbers, down to the sign of a zero; any NaN is as good as another.
fn agrees(got: Single, expected: f32) -> bool {
    if expected.is_nan() {
        got.nan()
    } else {
        got.to_bits() == expected.to_bits()
    }
}

/// Bit patterns that cover every exponent, the edges of fractions, and a scatter in between.
fn patterns() -> Vec<u32> {
    let mut list = Vec::new();
    for exponent in 0..=255u32 {
        for fraction in [0, 1, 2, 0x3F_FFFF, 0x40_0000, 0x40_0001, 0x7F_FFFE, 0x7F_FFFF] {
            list.push(exponent << 23 | fraction);
        }
    }
    let mut state = 0x1234_5678u32;
    for _ in 0..200 {
        state = state.wrapping_mul(1_664_525).wrapping_add(1_013_904_223);
        list.push(state & 0x7FFF_FFFF);
    }
    list
}

#[test]
fn products_agree_with_hardware() {
    let list = patterns();
    for (i, &a) in list.iter().enumerate() {
        for &b in list.iter().skip(i % 7).step_by(7) {
            let (x, y) = (f32::from_bits(a), f32::from_bits(b));
            assert!(agrees(single(x).times(single(y)), x * y), "{a:08x} {b:08x}");
            assert!(agrees(single(-x).times(single(y)), -x * y), "{a:08x} {b:08x}");
        }
    }
}

#[test]
fn quotients_agree_with_hardware() {
    let list = patterns();
    for (i, &a) in list.iter().enumerate() {
        for &b in list.iter().skip(i % 7).step_by(7) {
            let (x, y) = (f32::from_bits(a), f32::from_bits(b));
            assert!(agrees(single(x).over(single(y)), x / y), "{a:08x} {b:08x}");
            assert!(agrees(single(x).over(single(-y)), x / -y), "{a:08x} {b:08x}");
        }
    }
}

#[test]
fn sums_and_differences_agree_with_hardware() {
    let list = patterns();
    for (i, &a) in list.iter().enumerate() {
        for &b in list.iter().skip(i % 7).step_by(7) {
            let (x, y) = (f32::from_bits(a), f32::from_bits(b));
            assert!(agrees(single(x).plus(single(y)), x + y), "{a:08x} {b:08x}");
            assert!(agrees(single(x).minus(single(y)), x - y), "{a:08x} {b:08x}");
            assert!(agrees(single(-x).minus(single(y)), -x - y), "{a:08x} {b:08x}");
        }
    }
}

#[test]
fn zeros_keep_their_signs() {
    assert_eq!(single(-0.0).plus(single(-0.0)).to_bits(), (-0.0f32).to_bits());
    assert_eq!(single(-0.0).plus(single(0.0)).to_bits(), 0);
    assert_eq!(single(1.5).minus(single(1.5)).to_bits(), 0);
    assert_eq!(single(-0.0).times(single(2.0)).to_bits(), (-0.0f32).to_bits());
}

#[test]
fn undefined_operations_give_no_number() {
    assert!(single(0.0).times(single(f32::INFINITY)).nan());
    assert!(single(0.0).over(single(0.0)).nan());
    assert!(single(f32::INFINITY).over(single(f32::INFINITY)).nan());
    assert!(single(f32::INFINITY).minus(single(f32::INFINITY)).nan());
}

#[test]
fn rounding_agrees_with_hardware() {
    let mut values: Vec<f32> = patterns().into_iter().map(f32::from_bits).collect();
    values.extend([0.5, 1.5, 2.5, 0.499_999_97, 8_388_607.5, 8_388_608.0, 4_294_967_040.0, 4_294_967_296.0]);
    for x in values {
        assert_eq!(single(x).round_to_u32(), x.round().max(0.0) as u32, "{x}");
        assert_eq!(single(-x).round_to_u32(), (-x).round().max(0.0) as u32, "{x}");
    }
}

#[test]
fn whole_numbers_agree_with_hardware() {
    let mut n = 1u32;
    let mut list = vec![0, 1, 2, 3, u32::MAX, u32::MAX - 127, u32::MAX - 128];
    for _ in 0..32 {
        list.extend([n, n.wrapping_sub(1), n | 1, n.wrapping_add(n >> 24), n.wrapping_add(3 * (n >> 25))]);
        n = n.wrapping_mul(2);
    }
    for n in list {
        assert_eq!(Single::from_u32(n).to_bits(), (n as f32).to_bits(), "{n}");
        assert_eq!(Single::half_of_u32(n).to_bits(), (n as f32 / 2.0).to_bits(), "{n}");
    }
}

#[test]
fn order_agrees_with_hardware() {
    let list = patterns();
    for (i, &a) in list.iter().enumerate() {
        for &b in list.iter().skip(i % 11).step_by(11) {
            for (x, y) in [
                (f32::from_bits(a), f32::from_bits(b)),
                (-f32::from_bits(a), f32::from_bits(b)),
                (-f32::from_bits(a), -f32::from_bits(b)),
            ] {
                assert_eq!(single(x).less_than(single(y)), x < y);
                assert_eq!(single(x) == single(y), x == y);
                assert!(agrees(single(x).larger(single(y)), x.max(y)) || x == y);
                assert!(agrees(single(x).smaller(single(y)), x.min(y)) || x == y);
            }
        }
    }
    assert!(single(0.0) == single(-0.0));
}

#[test]
fn clamping_agrees_with_hardware() {
    for x in [-1.0f32, 0.0, 0.25, 1.0, 7.0, f32::INFINITY, f32::NEG_INFINITY, f32::NAN] {
        assert!(agrees(
            single(x).clamp(single(0.0), single(1.0)),
            x.clamp(0.0, 1.0)
        ));
    }
}

#[test]
fn finiteness_agrees_with_hardware() {
    for bits in patterns() {
        let x = f32::from_bits(bits);
        assert_eq!(single(x).finite(), x.is_finite());
        assert_eq!(single(x).nan(), x.is_nan());
    }
}
