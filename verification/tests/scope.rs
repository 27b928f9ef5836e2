//! Error scopes, uniform buffers and blending.

use backdrop_blur::blend::{build_pipeline, over_blend, BlendFactor, Shader};
use backdrop_blur::error::BlurError;
use backdrop_blur::format::CompositeFormat;
use backdrop_blur::material::LinearRgba;
use backdrop_blur::plan::{
    CompositeParams, GaussianParams, KawaseParams, OomOutcome, Pair, PassPipeline, UniformValue,
};
use backdrop_blur::scope::{poll_once, scoped_oom, uniform_buffer_size};
use backdrop_blur::single::Single;
use backdrop_blur::uniforms::uniform_buffer;

fn single(x: f32) -> Single {
    Single::from_bits(x.to_bits())
}

fn pair(x: f32, y: f32) -> Pair {
    Pair {
        x: single(x),
        y: single(y),
    }
}

#[test]
fn poll_once_yields_a_ready_future() {
    // A scope that is resolved already: one poll returns its value.
    assert_eq!(poll_once(std::future::ready(7u32)), Some(7));
}

#[test]
fn poll_once_reports_pending_as_none() {
    // A scope that resolves later: a never-ready future polls to nothing.
    assert_eq!(poll_once(std::future::pending::<u32>()), None);
}

#[test]
fn a_resolved_scope_hands_on_the_resource_or_reports_the_fault() {
    assert_eq!(scoped_oom(OomOutcome::Recoverable, 7, None), Ok(7));
    assert_eq!(scoped_oom(OomOutcome::DeviceLost, 8, None), Ok(8));
    assert_eq!(
        scoped_oom(OomOutcome::Recoverable, 7, Some("oom".to_owned())),
        Err(BlurError::DeviceOutOfMemory {
            source: "oom".to_owned()
        })
    );
    assert_eq!(
        scoped_oom(OomOutcome::DeviceLost, 7, Some("oom".to_owned())),
        Err(BlurError::DeviceLost {
            source: "oom".to_owned()
        })
    );
}

#[test]
fn uniform_buffer_sizes_are_padded_to_the_alignment() {
    assert_eq!(uniform_buffer_size(0), 4);
    assert_eq!(uniform_buffer_size(1), 4);
    assert_eq!(uniform_buffer_size(4), 4);
    assert_eq!(uniform_buffer_size(5), 8);
    assert_eq!(uniform_buffer_size(64), 64);
    for n in 0..100 {
        let mask = wgpu::COPY_BUFFER_ALIGNMENT - 1;
        assert_eq!(
            uniform_buffer_size(n),
            ((n + mask) & !mask).max(wgpu::COPY_BUFFER_ALIGNMENT)
        );
    }
}

fn composite() -> UniformValue {
    UniformValue::Composite(CompositeParams {
        rect_origin_px: pair(1.0, 2.0),
        rect_size_px: pair(3.0, 4.0),
        tint: LinearRgba::new(single(5.0), single(6.0), single(7.0), single(8.0)),
        backdrop_uv_offset: pair(9.0, 10.0),
        backdrop_uv_scale: pair(11.0, 12.0),
        corner_radius_px: single(13.0),
        encode_srgb: true,
        opacity: single(15.0),
    })
}

#[test]
fn the_composite_uniform_is_laid_out_as_its_shader_reads_it() {
    let buffer = uniform_buffer(&composite());
    assert_eq!(buffer.size, 64);
    let word = |i: usize| {
        let mut bytes = [0u8; 4];
        bytes.copy_from_slice(&buffer.contents[4 * i..4 * i + 4]);
        u32::from_ne_bytes(bytes)
    };
    for i in 0..13 {
        assert_eq!(word(i), (i as f32 + 1.0).to_bits());
    }
    assert_eq!(word(13), 1);
    // The fade stands at byte 56, the padding at byte 60.
    assert_eq!(word(14), 15.0f32.to_bits());
    assert_eq!(word(15), 0);
}

#[test]
fn the_blur_uniforms_are_padded_to_sixteen_bytes() {
    let gaussian = UniformValue::Gaussian(GaussianParams {
        uv_offset: pair(0.0, 0.0),
        uv_scale: pair(1.0, 1.0),
        texel: pair(0.5, 0.25),
        direction: pair(0.0, 1.0),
        sigma: single(2.5),
        tap_radius: -2,
        decode_srgb: false,
    });
    assert_eq!(
        gaussian.words(),
        vec![
            0,
            0,
            1.0f32.to_bits(),
            1.0f32.to_bits(),
            0.5f32.to_bits(),
            0.25f32.to_bits(),
            0,
            1.0f32.to_bits(),
            2.5f32.to_bits(),
            0xFFFF_FFFE,
            0,
            0,
        ]
    );
    assert_eq!(uniform_buffer(&gaussian).size, 48);
    let kawase = UniformValue::Kawase(KawaseParams {
        halfpixel: pair(0.25, 0.125),
    });
    let buffer = uniform_buffer(&kawase);
    assert_eq!(buffer.size, 16);
    assert_eq!(buffer.contents[0..4], 0.25f32.to_ne_bytes());
    assert_eq!(buffer.contents[4..8], 0.125f32.to_ne_bytes());
    assert_eq!(buffer.contents[8..16], [0; 8]);
}

#[test]
fn only_the_composite_pipeline_blends() {
    for (pipeline, shader) in [
        (PassPipeline::Gaussian, Shader::Gaussian),
        (PassPipeline::Downsample, Shader::Downsample),
        (PassPipeline::Upsample, Shader::Upsample),
    ] {
        let built = build_pipeline(pipeline);
        assert_eq!(built.shader, shader);
        assert_eq!(built.format, CompositeFormat::Rgba16Float);
        assert_eq!(built.blend, None);
    }
    let built = build_pipeline(PassPipeline::Composite(CompositeFormat::Bgra8Unorm));
    assert_eq!(built.shader, Shader::Composite);
    assert_eq!(built.format, CompositeFormat::Bgra8Unorm);
    assert_eq!(built.blend, Some(over_blend()));
}

fn factor(f: BlendFactor, alpha: f32) -> f32 {
    match f {
        BlendFactor::One => 1.0,
        BlendFactor::SrcAlpha => alpha,
        BlendFactor::OneMinusSrcAlpha => 1.0 - alpha,
    }
}

#[test]
fn fading_mixes_the_surface_with_its_destination() {
    let over = over_blend();
    let blend = |src: f32, dst: f32, alpha: f32| {
        src * factor(over.color.src_factor, alpha) + dst * factor(over.color.dst_factor, alpha)
    };
    let (src, dst) = (0.75f32, 0.25f32);
    assert_eq!(blend(src, dst, 0.0), dst);
    assert_eq!(blend(src, dst, 1.0), src);
    // Half the fade is half the way from the destination to the full blend.
    let full = blend(src, dst, 0.5);
    assert_eq!(blend(src, dst, 0.25), (full + dst) / 2.0);
    assert_eq!(over.alpha.src_factor, BlendFactor::One);
    assert_eq!(over.alpha.dst_factor, BlendFactor::OneMinusSrcAlpha);
}
