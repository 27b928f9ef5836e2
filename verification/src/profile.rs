//! What a GL context can do, told from its driver strings.

use vstd::prelude::*;

use crate::text::{contains_text, same_text};

verus! {

/// The shading-language dialect that shaders compile under.
#[derive(Clone, Copy, Debug, PartialEq, Eq, Structural)]
pub enum ShaderClass {
    /// Desktop OpenGL.
    GlDesktop,
    /// OpenGL ES 3.0 and WebGL 2.
    Es300,
}

/// The color-renderable format of the linear scratch.
#[derive(Clone, Copy, Debug, PartialEq, Eq, Structural)]
pub enum RenderableFloat {
    /// Half-float, linear.
    Rgba16F,
    /// Eight-bit sRGB, where half-float cannot be rendered to. Its round trip is linear only
    /// where writes are always encoded, which is on embedded contexts.
    Srgb8Rgba8,
}

/// The capabilities of a GL context.
#[derive(Clone, Copy, Debug, PartialEq, Eq, Structural)]
pub struct GlProfile {
    /// The dialect.
    pub shader_class: ShaderClass,
    /// Whether the context is an embedded one.
    pub embedded: bool,
    /// The scratch format it can render to.
    pub renderable_float: RenderableFloat,
    /// The sample count of the default framebuffer; above 0, a grab must resolve.
    pub samples: i32,
}

/// Whether an extension list names float rendering, with or without the prefix that some
/// drivers give.
pub open spec fn names_float_rendering(extensions: Seq<&str>) -> bool {
    exists|i: int|
        0 <= i < extensions.len() && ((#[trigger] extensions[i])@ == "EXT_color_buffer_float"@ || extensions[i]@
            == "GL_EXT_color_buffer_float"@)
}

/// Classifies a context from its version string, its extensions and its sample count. A context
/// is embedded if its version string says OpenGL ES, which that of WebGL 2 does too. Desktop
/// contexts can always render to half-float; embedded ones need an extension.
pub fn classify(version: &str, extensions: &[&str], samples: i32) -> (r: GlProfile)
    ensures
        r.embedded == crate::text::occurs("OpenGL ES"@, version@),
        r.shader_class == if r.embedded {
            ShaderClass::Es300
        } else {
            ShaderClass::GlDesktop
        },
        r.renderable_float == if !r.embedded || names_float_rendering(extensions@) {
            RenderableFloat::Rgba16F
        } else {
            RenderableFloat::Srgb8Rgba8
        },
        r.samples == if samples > 0 {
            samples
        } else {
            0
        },
        r.renderable_float == RenderableFloat::Srgb8Rgba8 ==> r.embedded,
{
    let embedded: bool = contains_text(version, "OpenGL ES");
    let shader_class = if embedded {
        ShaderClass::Es300
    } else {
        ShaderClass::GlDesktop
    };
    let mut has_float_render: bool = false;
    let mut i: usize = 0;
    while i < extensions.len()
        invariant
            i <= extensions@.len(),
            has_float_render <==> names_float_rendering(extensions@.take(i as int)),
        decreases extensions@.len() - i,
    {
        let named: bool = same_text(extensions[i], "EXT_color_buffer_float") || same_text(
            extensions[i],
            "GL_EXT_color_buffer_float",
        );
        proof {
            let before = extensions@.take(i as int);
            let after = extensions@.take(i + 1);
            assert(after[i as int] == extensions@[i as int]);
            if names_float_rendering(before) {
                let j = choose|j: int|
                    0 <= j < before.len() && ((#[trigger] before[j])@ == "EXT_color_buffer_float"@ || before[j]@
                        == "GL_EXT_color_buffer_float"@);
                assert(after[j] == before[j]);
            }
            if names_float_rendering(after) {
                let j = choose|j: int|
                    0 <= j < after.len() && ((#[trigger] after[j])@ == "EXT_color_buffer_float"@ || after[j]@
                        == "GL_EXT_color_buffer_float"@);
                if j < i {
                    assert(before[j] == after[j]);
                }
            }
        }
        if named {
            has_float_render = true;
        }
        i = i + 1;
    }
    assert(extensions@.take(i as int) =~= extensions@);
    let renderable_float = if !embedded || has_float_render {
        RenderableFloat::Rgba16F
    } else {
        RenderableFloat::Srgb8Rgba8
    };
    GlProfile {
        shader_class,
        embedded,
        renderable_float,
        samples: if samples > 0 { samples } else { 0 },
    }
}

} // verus!
