//! Classifying GL contexts.

use backdrop_blur::profile::{classify, RenderableFloat, ShaderClass};

#[test]
fn desktop_gl_is_not_embedded_and_renders_rgba16f() {
    let p = classify("4.6.0 NVIDIA 535.288.01", &[], 0);
    assert_eq!(p.shader_class, ShaderClass::GlDesktop);
    assert!(!p.embedded);
    // Desktop GL renders RGBA16F with no extension needed.
    assert_eq!(p.renderable_float, RenderableFloat::Rgba16F);
}

#[test]
fn gles3_without_the_float_extension_falls_back_to_srgb8() {
    let p = classify("OpenGL ES 3.0 Mesa", &[], 0);
    assert_eq!(p.shader_class, ShaderClass::Es300);
    assert!(p.embedded);
    assert_eq!(p.renderable_float, RenderableFloat::Srgb8Rgba8);
}

#[test]
fn gles3_with_the_float_extension_renders_rgba16f() {
    let p = classify("OpenGL ES 3.2 NVIDIA", &["EXT_color_buffer_float"], 0);
    assert_eq!(p.renderable_float, RenderableFloat::Rgba16F);
    let prefixed = classify("OpenGL ES 3.2 NVIDIA", &["GL_EXT_color_buffer_float"], 0);
    assert_eq!(prefixed.renderable_float, RenderableFloat::Rgba16F);
}

#[test]
fn webgl2_version_string_is_classified_embedded() {
    let p = classify(
        "WebGL 2.0 (OpenGL ES 3.0 Chromium)",
        &["EXT_color_buffer_float"],
        0,
    );
    assert_eq!(p.shader_class, ShaderClass::Es300);
    assert!(p.embedded);
    assert_eq!(p.renderable_float, RenderableFloat::Rgba16F);
}

#[test]
fn the_srgb8_fallback_is_never_paired_with_a_desktop_profile() {
    for ext in [vec![], vec!["EXT_color_buffer_float"]] {
        let p = classify("4.6.0 NVIDIA 535.288.01", &ext, 0);
        assert!(!p.embedded);
        assert_eq!(p.renderable_float, RenderableFloat::Rgba16F);
    }
}

#[test]
fn samples_pass_through_clamped_non_negative() {
    assert_eq!(classify("4.6.0", &[], 4).samples, 4);
    // A driver returning -1 clamps to 0.
    assert_eq!(classify("4.6.0", &[], -1).samples, 0);
}

#[test]
fn an_extension_must_match_whole() {
    let p = classify(
        "OpenGL ES 3.0",
        &["EXT_color_buffer_float_blend", "EXT_color_buffer_half_float"],
        0,
    );
    assert_eq!(p.renderable_float, RenderableFloat::Srgb8Rgba8);
    let last = classify("OpenGL ES 3.0", &["A", "B", "EXT_color_buffer_float"], 0);
    assert_eq!(last.renderable_float, RenderableFloat::Rgba16F);
}

#[test]
fn the_version_string_must_say_opengl_es() {
    assert!(!classify("OpenGL 3.3", &[], 0).embedded);
    assert!(!classify("", &[], 0).embedded);
    assert!(classify("OpenGL ES", &[], 0).embedded);
}
