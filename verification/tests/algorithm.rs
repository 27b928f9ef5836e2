//! Kernels, pyramids, keys, formats and the registration of a clipped backdrop.

use backdrop_blur::algorithm::{
    backdrop_uv_remap, kawase_halfpixel, kawase_level_size, resolve_gaussian, use_dual_kawase, PingPongKey,
    MAX_GAUSSIAN_RADIUS,
};
use backdrop_blur::format::{composite_encode_srgb, is_supported_target, CompositeFormat, TextureFormat};
use backdrop_blur::geometry::{Region, Scale};
use backdrop_blur::single::Single;

fn single(x: f32) -> Single {
    Single::from_bits(x.to_bits())
}

fn float(x: Single) -> f32 {
    f32::from_bits(x.to_bits())
}

fn close(a: f32, b: f32) -> bool {
    (a - b).abs() < 1e-4
}

fn region(origin: [u32; 2], size: [u32; 2]) -> Region {
    Region {
        origin,
        size,
        scale: Scale::new(single(1.0)),
    }
}

#[test]
fn resolve_gaussian_zero_radius_is_single_tap_passthrough() {
    let k = resolve_gaussian(single(0.0));
    assert_eq!(k.tap_radius, 0);
    assert!(
        float(k.sigma) > 0.0,
        "sigma must stay positive so i/sigma is finite"
    );
}

#[test]
fn resolve_gaussian_sets_sigma_to_a_third_of_radius() {
    let k = resolve_gaussian(single(15.0));
    assert_eq!(k.tap_radius, 15);
    assert!(close(float(k.sigma), 5.0));
}

#[test]
fn resolve_gaussian_clamps_tap_radius_to_max() {
    let k = resolve_gaussian(single(1000.0));
    assert_eq!(k.tap_radius, MAX_GAUSSIAN_RADIUS);
}

#[test]
fn resolve_gaussian_agrees_with_hardware_floats() {
    for &r in &[
        0.0f32, 0.49, 0.5, 1.0, 1.5, 2.4999, 7.77, 14.999, 63.5, 64.49, 1e9, -3.0, f32::NAN, f32::INFINITY,
    ] {
        let k = resolve_gaussian(single(r));
        assert_eq!(k.tap_radius, (r.round() as i32).clamp(0, 64), "{r}");
        assert_eq!(k.sigma.to_bits(), (r / 3.0).max(0.5).to_bits(), "{r}");
    }
}

#[test]
fn composite_encode_srgb_allowlist() {
    // Hardware-encoding sRGB targets.
    assert_eq!(
        composite_encode_srgb(&TextureFormat::Rgba8UnormSrgb),
        Some(false)
    );
    assert_eq!(
        composite_encode_srgb(&TextureFormat::Bgra8UnormSrgb),
        Some(false)
    );
    // Gamma targets need the manual encode.
    assert_eq!(composite_encode_srgb(&TextureFormat::Rgba8Unorm), Some(true));
    assert_eq!(composite_encode_srgb(&TextureFormat::Bgra8Unorm), Some(true));
    // Linear float target.
    assert_eq!(
        composite_encode_srgb(&TextureFormat::Rgba16Float),
        Some(false)
    );
    // Unsupported.
    assert_eq!(
        composite_encode_srgb(&TextureFormat::Other {
            name: "R8Unorm".to_owned()
        }),
        None
    );
}

#[test]
fn supported_formats_are_those_with_an_encoding() {
    assert_eq!(
        TextureFormat::Bgra8Unorm.composite_format(),
        Some(CompositeFormat::Bgra8Unorm)
    );
    let other = TextureFormat::Other {
        name: "R8Unorm".to_owned(),
    };
    assert_eq!(other.composite_format(), None);
    assert_eq!(other.name(), "R8Unorm");
    assert_eq!(TextureFormat::Rgba16Float.name(), "Rgba16Float");
    assert!(is_supported_target(&TextureFormat::Rgba8Unorm));
    assert!(!is_supported_target(&TextureFormat::Rgba16Float));
    assert!(!is_supported_target(&other));
}

#[test]
fn backdrop_uv_remap_is_identity_when_unclipped() {
    let r = region([50, 50], [100, 100]);
    let remap = backdrop_uv_remap(&r, &r);
    let (offset, scale) = (remap.offset, remap.scale);
    assert!(close(float(offset[0]), 0.0) && close(float(offset[1]), 0.0));
    assert!(close(float(scale[0]), 1.0) && close(float(scale[1]), 1.0));
    // Exactly, not only closely.
    assert_eq!(offset[0].to_bits(), 0);
    assert_eq!(scale[0].to_bits(), 1.0f32.to_bits());
}

#[test]
fn backdrop_uv_remap_insets_a_right_clipped_region() {
    // The source runs 40px off the right edge; clipping keeps the origin and shrinks the width
    // from 100 to 60.
    let source = region([100, 50], [100, 80]);
    let clipped = region([100, 50], [60, 80]);
    let remap = backdrop_uv_remap(&source, &clipped);
    let (offset, scale) = (remap.offset, remap.scale);
    // The origin is preserved, so the offset is zero; only the scale compensates.
    assert!(close(float(offset[0]), 0.0) && close(float(offset[1]), 0.0));
    assert!(close(float(scale[0]), 100.0 / 60.0) && close(float(scale[1]), 1.0));
    assert_eq!(scale[0].to_bits(), (100.0f32 / 60.0).to_bits());
}

#[test]
fn backdrop_uv_remap_of_moved_origins() {
    let remap = backdrop_uv_remap(&region([10, 50], [100, 80]), &region([40, 20], [50, 40]));
    assert_eq!(float(remap.offset[0]), -30.0 / 50.0);
    assert_eq!(float(remap.offset[1]), 30.0 / 40.0);
    assert_eq!(float(remap.scale[0]), 2.0);
    assert_eq!(float(remap.scale[1]), 2.0);
}

#[test]
fn ping_pong_key_distinguishes_size_and_levels() {
    let a = PingPongKey {
        size: [100, 80],
        levels: 1,
    };
    let b = PingPongKey {
        size: [100, 80],
        levels: 2,
    };
    let c = PingPongKey {
        size: [80, 100],
        levels: 1,
    };
    assert_ne!(a, b);
    assert_ne!(a, c);
    assert_eq!(
        a,
        PingPongKey {
            size: [100, 80],
            levels: 1
        }
    );
    assert!(a.same(&a) && !a.same(&b) && !a.same(&c));
}

#[test]
fn dual_kawase_takes_over_at_sixteen_pixels() {
    assert!(!use_dual_kawase(single(15.999)));
    assert!(use_dual_kawase(single(16.0)));
    assert!(use_dual_kawase(single(f32::INFINITY)));
    assert!(!use_dual_kawase(single(f32::NAN)));
}

#[test]
fn mip_sizes_halve_down_to_one() {
    assert_eq!(kawase_level_size([100, 7], 0), [100, 7]);
    assert_eq!(kawase_level_size([100, 7], 1), [50, 3]);
    assert_eq!(kawase_level_size([100, 7], 3), [12, 1]);
    assert_eq!(kawase_level_size([100, 0], 2), [25, 1]);
    assert_eq!(kawase_level_size([u32::MAX, 1], 31), [1, 1]);
    assert_eq!(kawase_level_size([u32::MAX, 1], 4_000_000_000), [1, 1]);
}

#[test]
fn half_a_texel_is_half_over_the_size() {
    let hp = kawase_halfpixel([50, 3]);
    assert_eq!(hp[0].to_bits(), (0.5f32 / 50.0).to_bits());
    assert_eq!(hp[1].to_bits(), (0.5f32 / 3.0).to_bits());
}

#[test]
fn the_kernel_grows_with_the_radius() {
    let radii = [
        f32::NEG_INFINITY,
        -3.0,
        -0.0,
        0.0,
        1.0e-40,
        0.4,
        0.5,
        1.5,
        1.6,
        15.0,
        63.4,
        64.5,
        1.0e9,
        f32::INFINITY,
    ];
    for pair in radii.windows(2) {
        let smaller = resolve_gaussian(single(pair[0]));
        let larger = resolve_gaussian(single(pair[1]));
        assert!(float(smaller.sigma) <= float(larger.sigma));
        assert!(smaller.tap_radius <= larger.tap_radius);
    }
}
