//! Errors and their messages.

use backdrop_blur::error::{describe, BlurError, BlurStage};
use backdrop_blur::geometry::{Region, Scale};
use backdrop_blur::text::{contains_text, decimal, ends_with_text, same_text};

#[test]
fn resource_creation_display_names_the_stage() {
    let err = BlurError::ResourceCreation {
        stage: BlurStage::CompositePipeline,
        source: "device lost".to_owned(),
    };
    assert_eq!(
        err.to_string(),
        "failed to create the composite pipeline while preparing the blur"
    );
}

#[test]
fn unsupported_target_display_includes_the_format() {
    let err = BlurError::UnsupportedTarget {
        format: "Rgba8Snorm".to_owned(),
    };
    assert!(err.to_string().contains("Rgba8Snorm"));
}

#[test]
fn error_source_chains_to_the_backend_error() {
    let err = BlurError::ResourceCreation {
        stage: BlurStage::PingPongTexture,
        source: "out of memory".to_owned(),
    };
    let source = err.source().expect("a backend source is attached");
    assert_eq!(source.to_string(), "out of memory");
}

#[test]
fn grab_failed_display_includes_the_region() {
    let err = BlurError::GrabFailed {
        region: Region {
            origin: [0, 0],
            size: [10, 10],
            scale: Scale::default(),
        },
        source: "no framebuffer".to_owned(),
    };
    assert!(err.to_string().contains("region"));
}

#[test]
fn stage_display_covers_every_variant() {
    for stage in [
        BlurStage::PingPongTexture,
        BlurStage::DownsamplePipeline,
        BlurStage::UpsamplePipeline,
        BlurStage::CompositePipeline,
        BlurStage::UniformBuffer,
        BlurStage::BindGroup,
    ] {
        assert!(!stage.to_string().is_empty());
    }
}

#[test]
fn every_stage_has_its_label() {
    assert_eq!(BlurStage::PingPongTexture.label(), "ping-pong scratch texture");
    assert_eq!(BlurStage::DownsamplePipeline.label(), "downsample pipeline");
    assert_eq!(BlurStage::UpsamplePipeline.label(), "upsample pipeline");
    assert_eq!(BlurStage::CompositePipeline.label(), "composite pipeline");
    assert_eq!(BlurStage::UniformBuffer.label(), "uniform buffer");
    assert_eq!(BlurStage::BindGroup.label(), "bind group");
}

#[test]
fn messages_of_every_variant() {
    let target = BlurError::UnsupportedTarget {
        format: "R8Unorm".to_owned(),
    };
    assert_eq!(
        target.to_string(),
        "target format R8Unorm is not a supported render target for the blur composite"
    );
    assert!(target.source().is_none());

    let grab = BlurError::GrabFailed {
        region: Region {
            origin: [7, 4294967295],
            size: [1920, 0],
            scale: Scale::default(),
        },
        source: "no framebuffer".to_owned(),
    };
    assert_eq!(
        grab.to_string(),
        "the grab source could not be produced from the framebuffer for region \
         1920x0 at (7, 4294967295)"
    );
    assert_eq!(grab.source().unwrap(), "no framebuffer");

    let context = BlurError::UnsupportedContext {
        detail: "GL 2.1".to_owned(),
    };
    assert_eq!(
        context.to_string(),
        "the GL context does not support the blur backend: GL 2.1"
    );
    assert!(context.source().is_none());

    let memory = BlurError::DeviceOutOfMemory {
        source: "buffer".to_owned(),
    };
    assert_eq!(
        memory.to_string(),
        "the device ran out of memory while preparing the blur"
    );
    assert_eq!(memory.source().unwrap(), "buffer");

    let lost = BlurError::DeviceLost {
        source: "pipeline".to_owned(),
    };
    assert_eq!(lost.to_string(), "the device was lost while preparing the blur");
    assert_eq!(lost.source().unwrap(), "pipeline");
}

#[test]
fn describe_joins_a_chain_of_causes() {
    let chain = vec![
        "Out of Memory".to_owned(),
        "In Device::create_buffer".to_owned(),
        "label = 'backdrop-blur composite'".to_owned(),
    ];
    assert_eq!(
        describe(&chain),
        "Out of Memory: In Device::create_buffer: label = 'backdrop-blur composite'"
    );
    assert_eq!(describe(&vec!["alone".to_owned()]), "alone");
    assert_eq!(describe(&vec![]), "");
}

#[test]
fn decimal_agrees_with_formatting() {
    for n in [0, 1, 9, 10, 99, 100, 4095, 65536, 999_999_999, u32::MAX] {
        assert_eq!(decimal(n), format!("{n}"));
    }
}

#[test]
fn text_search_agrees_with_std() {
    let texts = ["", "a", "aab", "OpenGL ES 3.0", "OpenGL E", "xOpenGL ES", "größe"];
    for text in texts {
        for needle in texts {
            assert_eq!(contains_text(text, needle), text.contains(needle));
            assert_eq!(same_text(text, needle), text == needle);
        }
    }
}

#[test]
fn text_endings_agree_with_std() {
    for text in ["", "m", "Unorm", "R8Unorm", "R8UnormSrgb", "unorm", "\u{e9}Unorm", "Unor\u{e9}"] {
        for tail in ["", "m", "Unorm", "Srgb", "\u{e9}"] {
            assert_eq!(ends_with_text(text, tail), text.ends_with(tail));
        }
    }
}
