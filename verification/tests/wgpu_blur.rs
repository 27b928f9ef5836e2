//! The blur backend: creation order, caching, eviction, faults, passes.

use backdrop_blur::algorithm::PingPongKey;
use backdrop_blur::blend::Shader;
use backdrop_blur::cache::{evict_decision, ChainStamp};
use backdrop_blur::construct::{Construction, ConstructionStep, FixedResource};
use backdrop_blur::error::{BlurError, BlurStage};
use backdrop_blur::format::{CompositeFormat, TextureFormat};
use backdrop_blur::geometry::{BlurRequest, Region, Scale};
use backdrop_blur::material::{BlurStrength, CornerRadius, LinearRgba, Opacity, Tint};
use backdrop_blur::plan::{
    BindSlot, Creation, LoadOp, OomOutcome, PassPipeline, PreparedBlur, RenderPass, SourceColorSpace,
    SourceView, TextureRef, UniformSlot, UniformValue,
};
use backdrop_blur::single::Single;
use backdrop_blur::wgpu_blur::{PrepareStep, WgpuBlur, WgpuPrepared};

fn single(x: f32) -> Single {
    Single::from_bits(x.to_bits())
}

fn float(x: Single) -> f32 {
    f32::from_bits(x.to_bits())
}

fn region(origin: [u32; 2], size: [u32; 2]) -> Region {
    Region {
        origin,
        size,
        scale: Scale::default(),
    }
}

fn request(source: Region, target: Region, strength: f32) -> BlurRequest {
    BlurRequest {
        source_region: source,
        target_rect: target,
        strength: BlurStrength::new(single(strength)),
        tint: Tint::new(LinearRgba::new(
            single(0.1),
            single(0.2),
            single(0.3),
            single(0.4),
        )),
        corner_radius: CornerRadius::new(single(24.0)),
        opacity: Opacity::new(single(0.5)),
    }
}

fn panel(size: [u32; 2], strength: f32) -> BlurRequest {
    request(region([50, 50], size), region([50, 50], size), strength)
}

fn source() -> SourceView {
    SourceView {
        size: [200, 200],
        color_space: SourceColorSpace::GammaSrgb,
    }
}

/// Prepares with every creation succeeding; the creations, and the handle.
fn drive(
    blur: &mut WgpuBlur,
    format: &TextureFormat,
    request: &BlurRequest,
    levels: u32,
) -> (Vec<Creation>, WgpuPrepared) {
    let mut created = Vec::new();
    let mut step = blur.prepare(&source(), format, request, levels);
    loop {
        match step {
            PrepareStep::Create(c) => {
                created.push(c);
                step = blur.resume_scoped(std::future::ready(None));
            }
            PrepareStep::Ready(prepared) => return (created, prepared),
            other => panic!("{other:?}"),
        }
    }
}

fn names(created: &[Creation]) -> Vec<String> {
    created
        .iter()
        .map(|c| match c {
            Creation::CompositePipeline(f) => format!("pipeline {f:?}"),
            Creation::Uniform(slot, _) => format!("uniform {slot:?}"),
            Creation::Scratch(i, w, h) => format!("scratch {i} {w}x{h}"),
            Creation::Mip(i, w, h) => format!("mip {i} {w}x{h}"),
            Creation::Bind(slot, t, u) => format!("bind {slot:?} {t:?} {u:?}"),
        })
        .collect()
}

#[test]
fn a_small_radius_prepares_a_gaussian() {
    let mut blur = WgpuBlur::new(2);
    let (created, prepared) = drive(&mut blur, &TextureFormat::Rgba8Unorm, &panel([100, 80], 10.0), 3);
    assert_eq!(
        names(&created),
        vec![
            "pipeline Rgba8Unorm",
            "uniform Composite",
            "scratch 0 100x80",
            "scratch 1 100x80",
            "uniform Horizontal",
            "uniform Vertical",
            "bind Horizontal Source Horizontal",
            "bind Vertical Scratch(0) Vertical",
            "bind Composite Scratch(1) Composite",
        ]
    );
    assert_eq!(prepared.generation, 1);
    assert_eq!(prepared.target_format, CompositeFormat::Rgba8Unorm);
    assert_eq!(
        prepared.blur,
        PreparedBlur::Gaussian {
            key: PingPongKey {
                size: [100, 80],
                levels: 1
            }
        }
    );
    assert_eq!(blur.cached_chain_count(), 1);
}

#[test]
fn a_large_radius_prepares_a_pyramid() {
    let mut blur = WgpuBlur::new(2);
    let (created, prepared) = drive(&mut blur, &TextureFormat::Rgba8Unorm, &panel([100, 80], 30.0), 2);
    assert_eq!(
        names(&created),
        vec![
            "pipeline Rgba8Unorm",
            "uniform Composite",
            "mip 0 100x80",
            "mip 1 50x40",
            "mip 2 25x20",
            "uniform Prefilter",
            "uniform Down(0)",
            "uniform Down(1)",
            "uniform Up(0)",
            "uniform Up(1)",
            "bind Prefilter Source Prefilter",
            "bind Down(0) Mip(0) Down(0)",
            "bind Down(1) Mip(1) Down(1)",
            "bind Up(0) Mip(2) Up(0)",
            "bind Up(1) Mip(1) Up(1)",
            "bind Composite Mip(0) Composite",
        ]
    );
    assert_eq!(
        prepared.blur,
        PreparedBlur::DualKawase {
            key: PingPongKey {
                size: [100, 80],
                levels: 2
            }
        }
    );
    // Each pass offsets by half a texel of the mip it samples.
    let halfpixel = |slot: UniformSlot| {
        created
            .iter()
            .find_map(|c| match c {
                Creation::Uniform(s, UniformValue::Kawase(p)) if *s == slot => Some(float(p.halfpixel.x)),
                _ => None,
            })
            .unwrap()
    };
    assert_eq!(halfpixel(UniformSlot::Down(0)), 0.5 / 100.0);
    assert_eq!(halfpixel(UniformSlot::Down(1)), 0.5 / 50.0);
    assert_eq!(halfpixel(UniformSlot::Up(0)), 0.5 / 25.0);
    assert_eq!(halfpixel(UniformSlot::Up(1)), 0.5 / 50.0);
}

#[test]
fn cached_resources_are_not_created_again() {
    let mut blur = WgpuBlur::new(2);
    drive(&mut blur, &TextureFormat::Rgba8Unorm, &panel([100, 80], 10.0), 3);
    let (created, prepared) = drive(&mut blur, &TextureFormat::Rgba8Unorm, &panel([100, 80], 12.0), 3);
    assert_eq!(
        names(&created),
        vec![
            "uniform Composite",
            "uniform Horizontal",
            "uniform Vertical",
            "bind Horizontal Source Horizontal",
            "bind Vertical Scratch(0) Vertical",
            "bind Composite Scratch(1) Composite",
        ]
    );
    assert_eq!(prepared.generation, 2);
    // Another target format needs another pipeline, but not another chain.
    let (created, _) = drive(&mut blur, &TextureFormat::Bgra8Unorm, &panel([100, 80], 12.0), 3);
    assert_eq!(names(&created)[0], "pipeline Bgra8Unorm");
    assert_eq!(created.len(), 7);
}

#[test]
fn the_uniforms_hold_the_resolved_request() {
    let mut blur = WgpuBlur::new(2);
    let clipped = request(region([150, 50], [100, 80]), region([10, 20], [40, 100]), 6.0);
    let (created, _) = drive(&mut blur, &TextureFormat::Rgba8Unorm, &clipped, 3);
    for c in created {
        match c {
            Creation::Scratch(_, w, h) => assert_eq!([w, h], [50, 80]),
            Creation::Uniform(UniformSlot::Composite, UniformValue::Composite(p)) => {
                assert_eq!(float(p.rect_origin_px.x), 10.0);
                assert_eq!(float(p.rect_origin_px.y), 20.0);
                assert_eq!(float(p.rect_size_px.x), 40.0);
                assert_eq!(float(p.rect_size_px.y), 100.0);
                assert_eq!(float(p.tint.a), 0.4);
                assert_eq!(float(p.backdrop_uv_offset.x), 0.0);
                assert_eq!(float(p.backdrop_uv_scale.x), 2.0);
                assert_eq!(float(p.backdrop_uv_scale.y), 1.0);
                assert_eq!(float(p.corner_radius_px), 20.0);
                assert!(p.encode_srgb);
                assert_eq!(float(p.opacity), 0.5);
            }
            Creation::Uniform(UniformSlot::Horizontal, UniformValue::Gaussian(p)) => {
                assert_eq!(float(p.uv_offset.x), 150.0 / 200.0);
                assert_eq!(float(p.uv_offset.y), 50.0 / 200.0);
                assert_eq!(float(p.uv_scale.x), 50.0 / 200.0);
                assert_eq!(float(p.uv_scale.y), 80.0 / 200.0);
                assert_eq!(float(p.texel.x), 1.0 / 200.0);
                assert_eq!([float(p.direction.x), float(p.direction.y)], [1.0, 0.0]);
                assert_eq!(float(p.sigma), 2.0);
                assert_eq!(p.tap_radius, 6);
                assert!(p.decode_srgb);
            }
            Creation::Uniform(UniformSlot::Vertical, UniformValue::Gaussian(p)) => {
                assert_eq!([float(p.uv_offset.x), float(p.uv_scale.x)], [0.0, 1.0]);
                assert_eq!(float(p.texel.x), 1.0 / 50.0);
                assert_eq!(float(p.texel.y), 1.0 / 80.0);
                assert_eq!([float(p.direction.x), float(p.direction.y)], [0.0, 1.0]);
                assert!(!p.decode_srgb);
            }
            _ => {}
        }
    }
}

#[test]
fn nothing_to_blur_or_to_fill_is_a_no_op() {
    let mut blur = WgpuBlur::new(0);
    drive(&mut blur, &TextureFormat::Rgba8Unorm, &panel([100, 80], 10.0), 3);
    for _ in 0..5 {
        let off = request(region([200, 0], [10, 10]), region([0, 0], [10, 10]), 10.0);
        assert_eq!(
            blur.prepare(&source(), &TextureFormat::Rgba8Unorm, &off, 3),
            PrepareStep::NoOp
        );
        let flat = request(region([0, 0], [10, 10]), region([0, 0], [10, 0]), 10.0);
        assert_eq!(
            blur.prepare(&source(), &TextureFormat::Rgba8Unorm, &flat, 3),
            PrepareStep::NoOp
        );
    }
    // A no-op does not age a chain: the next use still finds it after one frame at most.
    assert_eq!(blur.cached_chain_count(), 1);
    // Nor does it look at the target format.
    let off = request(region([200, 0], [10, 10]), region([0, 0], [10, 10]), 10.0);
    let other = TextureFormat::Other {
        name: "R8Unorm".to_owned(),
    };
    assert_eq!(blur.prepare(&source(), &other, &off, 3), PrepareStep::NoOp);
}

#[test]
fn an_unsupported_target_is_an_error() {
    let mut blur = WgpuBlur::new(2);
    let other = TextureFormat::Other {
        name: "R8Unorm".to_owned(),
    };
    assert_eq!(
        blur.prepare(&source(), &other, &panel([100, 80], 10.0), 3),
        PrepareStep::Failed(BlurError::UnsupportedTarget {
            format: "R8Unorm".to_owned()
        })
    );
}

#[test]
fn a_rejected_creation_is_reported_by_what_it_does_to_the_device() {
    let plan = {
        let mut blur = WgpuBlur::new(2);
        drive(&mut blur, &TextureFormat::Rgba8Unorm, &panel([100, 80], 30.0), 2).0
    };
    for (at, creation) in plan.iter().enumerate() {
        let mut blur = WgpuBlur::new(2);
        let mut step = blur.prepare(&source(), &TextureFormat::Rgba8Unorm, &panel([100, 80], 30.0), 2);
        for c in &plan[..at] {
            assert_eq!(step, PrepareStep::Create(*c));
            step = blur.resume(Some(None));
        }
        assert_eq!(step, PrepareStep::Create(*creation));
        let source_text = "oom".to_owned();
        let expected = match creation.outcome() {
            OomOutcome::Recoverable => BlurError::DeviceOutOfMemory { source: source_text },
            OomOutcome::DeviceLost => BlurError::DeviceLost { source: source_text },
        };
        let fatal = matches!(
            creation,
            Creation::CompositePipeline(_) | Creation::Bind(_, _, _)
        );
        assert_eq!(matches!(expected, BlurError::DeviceLost { .. }), fatal);
        assert_eq!(
            blur.resume_scoped(std::future::ready(Some("oom".to_owned()))),
            PrepareStep::Failed(expected)
        );
        // A chain is cached only once its last texture exists.
        assert_eq!(blur.cached_chain_count(), usize::from(at > 4));
    }
}

#[test]
fn a_scope_that_does_not_resolve_ends_the_preparation() {
    let mut blur = WgpuBlur::new(2);
    blur.prepare(&source(), &TextureFormat::Rgba8Unorm, &panel([100, 80], 10.0), 3);
    assert_eq!(
        blur.resume_scoped(std::future::pending::<Option<String>>()),
        PrepareStep::Unresolved
    );
}

#[test]
fn recording_a_gaussian_goes_through_both_scratch_textures() {
    let mut blur = WgpuBlur::new(2);
    let (_, prepared) = drive(&mut blur, &TextureFormat::Rgba8Unorm, &panel([100, 80], 10.0), 3);
    let pass = |pipeline, bind, attachment, load| RenderPass {
        pipeline,
        bind,
        attachment,
        load,
    };
    assert_eq!(
        blur.record(prepared).unwrap(),
        vec![
            pass(
                PassPipeline::Gaussian,
                BindSlot::Horizontal,
                TextureRef::Scratch(0),
                LoadOp::Clear
            ),
            pass(
                PassPipeline::Gaussian,
                BindSlot::Vertical,
                TextureRef::Scratch(1),
                LoadOp::Clear
            ),
            pass(
                PassPipeline::Composite(CompositeFormat::Rgba8Unorm),
                BindSlot::Composite,
                TextureRef::Target,
                LoadOp::Load
            ),
        ]
    );
}

#[test]
fn every_pass_samples_what_the_one_before_it_wrote() {
    for (strength, levels) in [(10.0, 1), (30.0, 0), (30.0, 1), (30.0, 4)] {
        let mut blur = WgpuBlur::new(2);
        let (created, prepared) = drive(
            &mut blur,
            &TextureFormat::Rgba8Unorm,
            &panel([100, 80], strength),
            levels,
        );
        let sampled = |slot: BindSlot| {
            created
                .iter()
                .find_map(|c| match c {
                    Creation::Bind(s, t, _) if *s == slot => Some(*t),
                    _ => None,
                })
                .unwrap()
        };
        let passes = blur.record(prepared).unwrap();
        let mut written = TextureRef::Source;
        for pass in &passes {
            assert_eq!(sampled(pass.bind), written);
            assert_ne!(sampled(pass.bind), pass.attachment);
            written = pass.attachment;
        }
        assert_eq!(written, TextureRef::Target);
        assert_eq!(
            passes.iter().filter(|p| p.attachment == TextureRef::Target).count(),
            1
        );
    }
}

#[test]
fn recording_what_is_not_cached_is_an_error() {
    let mut blur = WgpuBlur::new(2);
    let (_, prepared) = drive(&mut blur, &TextureFormat::Rgba8Unorm, &panel([100, 80], 10.0), 3);
    let fresh = WgpuBlur::new(2);
    let stale = WgpuPrepared {
        generation: 0,
        ..prepared
    };
    match fresh.record(stale) {
        Err(BlurError::ResourceCreation { stage, source }) => {
            assert_eq!(stage, BlurStage::CompositePipeline);
            assert_eq!(source, "composite pipeline missing at record");
        }
        other => panic!("{other:?}"),
    }
    let foreign = WgpuPrepared {
        blur: PreparedBlur::Gaussian {
            key: PingPongKey {
                size: [1, 1],
                levels: 1,
            },
        },
        ..prepared
    };
    match blur.record(foreign) {
        Err(BlurError::ResourceCreation { stage, source }) => {
            assert_eq!(stage, BlurStage::PingPongTexture);
            assert_eq!(
                source,
                "scratch missing at record (prepare not called, or evicted)"
            );
        }
        other => panic!("{other:?}"),
    }
}

#[test]
fn dragging_a_surface_does_not_grow_the_caches() {
    let retention = 3;
    let mut blur = WgpuBlur::new(retention);
    for i in 0..50u32 {
        let strength = if i % 2 == 0 { 10.0 } else { 30.0 };
        let (_, prepared) = drive(
            &mut blur,
            &TextureFormat::Rgba8Unorm,
            &panel([20 + i, 20], strength),
            2,
        );
        assert!(blur.record(prepared).is_ok());
        assert!(blur.cached_chain_count() as u64 <= retention + 1);
    }
    assert_eq!(blur.cached_chain_count() as u64, retention + 1);
}

#[test]
fn a_chain_goes_once_it_has_been_unused_for_too_long() {
    let mut blur = WgpuBlur::new(2);
    let a = panel([100, 80], 10.0);
    let b = panel([90, 80], 10.0);
    drive(&mut blur, &TextureFormat::Rgba8Unorm, &a, 3);
    drive(&mut blur, &TextureFormat::Rgba8Unorm, &b, 3);
    assert_eq!(blur.cached_chain_count(), 2);
    // Last used two frames ago: still there, and reused.
    let (created, _) = drive(&mut blur, &TextureFormat::Rgba8Unorm, &a, 3);
    assert!(!names(&created).iter().any(|n| n.starts_with("scratch")));
    drive(&mut blur, &TextureFormat::Rgba8Unorm, &a, 3);
    assert_eq!(blur.cached_chain_count(), 2);
    // The other one was last used three frames ago once the next begins.
    drive(&mut blur, &TextureFormat::Rgba8Unorm, &a, 3);
    assert_eq!(blur.cached_chain_count(), 1);
    let (created, _) = drive(&mut blur, &TextureFormat::Rgba8Unorm, &b, 3);
    assert!(names(&created).iter().any(|n| n.starts_with("scratch")));
}

#[test]
fn eviction_picks_the_stale_and_survives_a_wrapped_counter() {
    let stamp = |width, last_used_frame| ChainStamp {
        key: PingPongKey {
            size: [width, 1],
            levels: 1,
        },
        last_used_frame,
    };
    let stamps = vec![stamp(1, 10), stamp(2, 7), stamp(3, 6), stamp(4, 2)];
    let stale = evict_decision(&stamps, 10, 3);
    let widths: Vec<u32> = stale.iter().map(|k| k.size[0]).collect();
    assert_eq!(widths, vec![3, 4]);
    // Frame 1 follows frame u64::MAX by two.
    let wrapped = vec![stamp(1, u64::MAX), stamp(2, u64::MAX - 3)];
    let stale = evict_decision(&wrapped, 1, 3);
    let widths: Vec<u32> = stale.iter().map(|k| k.size[0]).collect();
    assert_eq!(widths, vec![2]);
}

#[test]
fn construction_creates_the_fixed_machinery_in_order() {
    let mut construction = Construction::begin(5);
    let mut created = Vec::new();
    let blur = loop {
        created.push(construction.next());
        match construction.resume_scoped(std::future::ready(None)) {
            ConstructionStep::More(more) => construction = more,
            ConstructionStep::Done(blur) => break blur,
            other => panic!("{other:?}"),
        }
    };
    assert_eq!(
        created,
        vec![
            FixedResource::BindGroupLayout,
            FixedResource::PipelineLayout,
            FixedResource::Sampler,
            FixedResource::ShaderModule(Shader::Gaussian),
            FixedResource::ShaderModule(Shader::Downsample),
            FixedResource::ShaderModule(Shader::Upsample),
            FixedResource::ShaderModule(Shader::Composite),
            FixedResource::Pipeline(PassPipeline::Gaussian),
            FixedResource::Pipeline(PassPipeline::Downsample),
            FixedResource::Pipeline(PassPipeline::Upsample),
        ]
    );
    assert_eq!(blur.cached_chain_count(), 0);
}

#[test]
fn a_rejected_fixed_resource_loses_the_device_unless_it_is_the_sampler() {
    for at in 0..10 {
        let mut construction = Construction::begin(5);
        for _ in 0..at {
            match construction.resume(Some(None)) {
                ConstructionStep::More(more) => construction = more,
                other => panic!("{other:?}"),
            }
        }
        let sampler = construction.next() == FixedResource::Sampler;
        match construction.resume(Some(Some("oom".to_owned()))) {
            ConstructionStep::Failed(BlurError::DeviceOutOfMemory { source }) => {
                assert!(sampler);
                assert_eq!(source, "oom");
            }
            ConstructionStep::Failed(BlurError::DeviceLost { source }) => {
                assert!(!sampler);
                assert_eq!(source, "oom");
            }
            other => panic!("{other:?}"),
        }
    }
}

#[test]
fn a_construction_scope_that_does_not_resolve_gives_up() {
    let construction = Construction::begin(5);
    assert!(matches!(
        construction.resume_scoped(std::future::pending::<Option<String>>()),
        ConstructionStep::Unresolved
    ));
}

#[test]
fn a_chain_in_use_outlives_every_frame() {
    let mut blur = WgpuBlur::new(1);
    let key = PingPongKey {
        size: [100, 80],
        levels: 1,
    };
    for _ in 0..5 {
        drive(&mut blur, &TextureFormat::Rgba8Unorm, &panel([100, 80], 10.0), 3);
        assert!(blur.scratch_cached(&key));
        assert!(!blur.pyramid_cached(&key));
    }
    assert_eq!(blur.generation(), 5);
}

#[test]
fn a_rejection_leaves_the_caches_for_another_try() {
    let mut blur = WgpuBlur::new(3);
    let format = TextureFormat::Rgba8Unorm;
    let request = panel([100, 80], 20.0);
    let key = PingPongKey {
        size: [100, 80],
        levels: 2,
    };
    drive(&mut blur, &format, &panel([60, 40], 10.0), 2);
    let before = blur.cached_chain_count();
    blur.prepare(&source(), &format, &request, 2);
    assert_eq!(blur.pending_blur(), Some(PreparedBlur::DualKawase { key }));
    let step = blur.resume(Some(Some("no memory".to_owned())));
    assert!(matches!(step, PrepareStep::Failed(BlurError::DeviceOutOfMemory { .. })));
    assert_eq!(blur.pending_blur(), None);
    assert_eq!(blur.cached_chain_count(), before);
    assert!(!blur.pyramid_cached(&key));
    let (_, prepared) = drive(&mut blur, &format, &request, 2);
    assert_eq!(prepared.blur, PreparedBlur::DualKawase { key });
    assert!(blur.pyramid_cached(&key));
}
