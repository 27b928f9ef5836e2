//! The material: clamping constructors, scaling, and sRGB decoding.

use backdrop_blur::geometry::Scale;
use backdrop_blur::material::{
    srgb_segment, BlurStrength, CornerRadius, LinearRgba, Opacity, SrgbSegment, Tint,
};
use backdrop_blur::single::Single;

fn single(x: f32) -> Single {
    Single::from_bits(x.to_bits())
}

fn float(x: Single) -> f32 {
    f32::from_bits(x.to_bits())
}

fn close(a: f32, b: f32) -> bool {
    (a - b).abs() < 1e-4
}

fn power(base: Single) -> Single {
    single(float(base).powf(2.4))
}

#[test]
fn blur_strength_new_clamps_negative_to_zero() {
    assert_eq!(float(BlurStrength::new(single(-3.0)).points()), 0.0);
    assert_eq!(float(BlurStrength::new(single(8.0)).points()), 8.0);
}

#[test]
fn to_physical_radius_multiplies_by_scale() {
    let r = float(BlurStrength::new(single(8.0)).to_physical_radius(Scale::new(single(2.0))));
    assert!(close(r, 16.0));
}

#[test]
fn to_physical_radius_of_zero_strength_is_zero() {
    let r = float(BlurStrength::new(single(0.0)).to_physical_radius(Scale::new(single(3.0))));
    assert!(close(r, 0.0));
}

#[test]
fn corner_radius_new_clamps_negative_to_zero() {
    assert_eq!(float(CornerRadius::new(single(-1.0)).points()), 0.0);
    assert_eq!(float(CornerRadius::new(single(12.0)).points()), 12.0);
}

#[test]
fn from_srgb_unmultiplied_maps_endpoints_exactly() {
    let black = LinearRgba::from_srgb_unmultiplied([0, 0, 0, 255], power);
    assert!(
        close(float(black.r), 0.0) && close(float(black.g), 0.0) && close(float(black.b), 0.0)
    );
    assert!(close(float(black.a), 1.0));

    let white = LinearRgba::from_srgb_unmultiplied([255, 255, 255, 255], power);
    assert!(
        close(float(white.r), 1.0) && close(float(white.g), 1.0) && close(float(white.b), 1.0)
    );
}

#[test]
fn from_srgb_unmultiplied_decodes_midtone_through_eotf() {
    // sRGB 188/255 is about 0.737 in gamma and about 0.502 in linear light.
    let mid = LinearRgba::from_srgb_unmultiplied([188, 188, 188, 128], power);
    assert!(close(float(mid.r), 0.502_886_5));
    // Alpha is linear, not gamma-decoded.
    assert!(close(float(mid.a), 128.0 / 255.0));
}

#[test]
fn from_srgb_unmultiplied_uses_linear_segment_near_black() {
    // Below the 0.04045 knee the transfer is the linear c/12.92 segment.
    let dark = LinearRgba::from_srgb_unmultiplied([2, 2, 2, 255], power);
    let expected = (2.0 / 255.0) / 12.92;
    assert!(close(float(dark.r), expected));
}

#[test]
fn tint_from_srgb_decodes_its_wrapped_color() {
    let tint = Tint::from_srgb_unmultiplied([255, 255, 255, 64], power);
    assert!(close(float(tint.color().r), 1.0));
    assert!(close(float(tint.color().a), 64.0 / 255.0));
}

#[test]
fn srgb_decoding_agrees_with_hardware_for_every_byte() {
    for byte in 0..=255u8 {
        let c = f32::from(byte) / 255.0;
        let expected = if c <= 0.040_45 {
            c / 12.92
        } else {
            ((c + 0.055) / 1.055).powf(2.4)
        };
        let got = LinearRgba::from_srgb_unmultiplied([byte, 0, 0, byte], power);
        assert_eq!(got.r.to_bits(), expected.to_bits(), "byte {byte}");
        assert_eq!(got.a.to_bits(), c.to_bits(), "byte {byte}");
    }
}

#[test]
fn srgb_segment_splits_at_the_knee() {
    assert!(matches!(srgb_segment(single(0.040_45)), SrgbSegment::Linear(_)));
    let above = f32::from_bits(0.040_45f32.to_bits() + 1);
    assert!(matches!(srgb_segment(single(above)), SrgbSegment::Power(_)));
    assert!(matches!(srgb_segment(single(f32::NAN)), SrgbSegment::Power(_)));
}

#[test]
fn nan_strength_becomes_zero_and_infinity_stays() {
    assert_eq!(float(BlurStrength::new(single(f32::NAN)).points()), 0.0);
    assert_eq!(float(BlurStrength::new(single(f32::INFINITY)).points()), f32::INFINITY);
    assert_eq!(float(CornerRadius::new(single(f32::NAN)).points()), 0.0);
}

#[test]
fn nothing_scaled_by_infinity_is_no_radius() {
    let infinite = Scale::new(single(f32::INFINITY));
    assert!(BlurStrength::new(single(0.0)).to_physical_radius(infinite).nan());
    assert_eq!(
        float(BlurStrength::new(single(1.0)).to_physical_radius(infinite)),
        f32::INFINITY
    );
}

#[test]
fn opacity_clamps_and_is_full_for_what_is_not_finite() {
    assert_eq!(float(Opacity::new(single(-1.0)).value()), 0.0);
    assert_eq!(float(Opacity::new(single(2.0)).value()), 1.0);
    assert_eq!(float(Opacity::new(single(0.3)).value()), 0.3);
    assert_eq!(float(Opacity::new(single(f32::NAN)).value()), 1.0);
    assert_eq!(float(Opacity::new(single(f32::INFINITY)).value()), 1.0);
    assert_eq!(float(Opacity::new(single(f32::NEG_INFINITY)).value()), 1.0);
    assert_eq!(float(Opacity::default().value()), 1.0);
    assert_eq!(float(Opacity::full().value()), 1.0);
}

#[test]
fn tint_keeps_its_color() {
    let color = LinearRgba::new(single(0.1), single(0.2), single(0.3), single(0.4));
    assert_eq!(Tint::new(color).color(), color);
}

#[test]
fn srgb_decoding_grows_within_the_unit_below_the_line() {
    let gray = |byte: u8| LinearRgba::from_srgb_unmultiplied([byte, byte, byte, byte], power);
    assert_eq!(float(gray(0).r), 0.0);
    assert_eq!(float(gray(255).r), 1.0);
    assert_eq!(float(gray(0).a), 0.0);
    assert_eq!(float(gray(255).a), 1.0);
    for byte in 0..=255u8 {
        let c = gray(byte);
        assert_eq!(c.r, c.g);
        assert_eq!(c.g, c.b);
        assert_eq!(float(c.a), f32::from(byte) / 255.0);
        assert!((0.0..=1.0).contains(&float(c.r)));
        if byte > 0 {
            assert!(float(gray(byte - 1).r) < float(c.r));
            assert!(float(gray(byte - 1).a) < float(c.a));
        }
        if byte > 0 && byte < 255 {
            assert!(float(c.r) < float(c.a));
        }
    }
}

#[test]
fn the_power_of_the_machine_is_one_that_the_curve_admits() {
    let base = |c: f32| (c + 0.055) / 1.055;
    let knee = 0.040_45_f32;
    assert!(base(knee).powf(2.4) > knee / 12.92);
    assert_eq!(base(1.0), 1.0);
    assert_eq!(1.0_f32.powf(2.4), 1.0);
    for byte in 11..=255u8 {
        let x = base(f32::from(byte) / 255.0);
        assert!(x >= base(knee) && x <= 1.0);
        assert!(f64::from(x.powf(2.4)) <= f64::from(x) * f64::from(x));
        if byte < 255 {
            assert!(x.powf(2.4) < base(f32::from(byte + 1) / 255.0).powf(2.4));
        }
    }
}
