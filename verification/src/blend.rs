//! How render pipelines write: which shader, into what format, blended how.

use vstd::prelude::*;

use crate::format::CompositeFormat;
use crate::plan::{PassPipeline, PreparedBlur, TextureRef};

verus! {

/// What a source or a destination value is multiplied by.
#[derive(Clone, Copy, Debug, PartialEq, Eq, Structural)]
pub enum BlendFactor {
    /// One.
    One,
    /// The alpha of the source.
    SrcAlpha,
    /// One minus the alpha of the source.
    OneMinusSrcAlpha,
}

/// How one component of a color is blended: both sides multiplied, then added.
#[derive(Clone, Copy, Debug, PartialEq, Eq, Structural)]
pub struct BlendComponent {
    /// The factor of the source.
    pub src_factor: BlendFactor,
    /// The factor of the destination.
    pub dst_factor: BlendFactor,
}

/// How a pipeline blends color and alpha.
#[derive(Clone, Copy, Debug, PartialEq, Eq, Structural)]
pub struct BlendState {
    /// For the color channels.
    pub color: BlendComponent,
    /// For alpha.
    pub alpha: BlendComponent,
}

/// A shader module: a vertex and a fragment entry point.
#[derive(Clone, Copy, Debug, PartialEq, Eq, Structural)]
pub enum Shader {
    /// The separable Gaussian.
    Gaussian,
    /// The downsampling filter.
    Downsample,
    /// The upsampling filter.
    Upsample,
    /// The composite.
    Composite,
}

/// What a render pipeline is built from.
#[derive(Clone, Copy, Debug, PartialEq, Eq, Structural)]
pub struct PipelineSpec {
    /// The shader.
    pub shader: Shader,
    /// The format of the attachment.
    pub format: CompositeFormat,
    /// The blending; none replaces.
    pub blend: Option<BlendState>,
}

/// The straight-alpha "over" blend.
pub open spec fn over() -> BlendState {
    BlendState {
        color: BlendComponent { src_factor: BlendFactor::SrcAlpha, dst_factor: BlendFactor::OneMinusSrcAlpha },
        alpha: BlendComponent { src_factor: BlendFactor::One, dst_factor: BlendFactor::OneMinusSrcAlpha },
    }
}

/// The premultiplied "over" blend, for color and alpha alike.
pub open spec fn premultiplied_over() -> BlendComponent {
    BlendComponent { src_factor: BlendFactor::One, dst_factor: BlendFactor::OneMinusSrcAlpha }
}

/// The straight-alpha "over" blend of the composite.
pub fn over_blend() -> (r: BlendState)
    ensures
        r == over(),
{
    BlendState {
        color: BlendComponent { src_factor: BlendFactor::SrcAlpha, dst_factor: BlendFactor::OneMinusSrcAlpha },
        alpha: BlendComponent { src_factor: BlendFactor::One, dst_factor: BlendFactor::OneMinusSrcAlpha },
    }
}

/// What the pipeline of a pass is built from: every blur pass replaces into the scratch format;
/// only the composite has the caller's format, and blends.
pub open spec fn spec_of(pipeline: PassPipeline) -> PipelineSpec {
    match pipeline {
        PassPipeline::Gaussian => PipelineSpec {
            shader: Shader::Gaussian,
            format: CompositeFormat::Rgba16Float,
            blend: None,
        },
        PassPipeline::Downsample => PipelineSpec {
            shader: Shader::Downsample,
            format: CompositeFormat::Rgba16Float,
            blend: None,
        },
        PassPipeline::Upsample => PipelineSpec {
            shader: Shader::Upsample,
            format: CompositeFormat::Rgba16Float,
            blend: None,
        },
        PassPipeline::Composite(format) => PipelineSpec { shader: Shader::Composite, format, blend: Some(over()) },
    }
}

/// What the pipeline of a pass is built from.
pub fn build_pipeline(pipeline: PassPipeline) -> (r: PipelineSpec)
    ensures
        r == spec_of(pipeline),
{
    match pipeline {
        PassPipeline::Gaussian => PipelineSpec {
            shader: Shader::Gaussian,
            format: CompositeFormat::Rgba16Float,
            blend: None,
        },
        PassPipeline::Downsample => PipelineSpec {
            shader: Shader::Downsample,
            format: CompositeFormat::Rgba16Float,
            blend: None,
        },
        PassPipeline::Upsample => PipelineSpec {
            shader: Shader::Upsample,
            format: CompositeFormat::Rgba16Float,
            blend: None,
        },
        PassPipeline::Composite(format) => PipelineSpec {
            shader: Shader::Composite,
            format,
            blend: Some(over_blend()),
        },
    }
}

/// A blend factor, as a number of parts of which `one` make a whole.
pub open spec fn factor(f: BlendFactor, alpha: int, one: int) -> int {
    match f {
        BlendFactor::One => one,
        BlendFactor::SrcAlpha => alpha,
        BlendFactor::OneMinusSrcAlpha => one - alpha,
    }
}

/// A blended value times `one`: the source and the destination, each times its factor.
pub open spec fn blended(c: BlendComponent, src: int, dst: int, alpha: int, one: int) -> int {
    src * factor(c.src_factor, alpha, one) + dst * factor(c.dst_factor, alpha, one)
}

/// A surface that has faded out leaves its destination untouched, in color and in alpha; one
/// that is wholly there replaces it.
pub proof fn lemma_fade_ends(src: int, dst: int, one: int)
    ensures
        blended(over().color, src, dst, 0, one) == dst * one,
        blended(over().alpha, 0, dst, 0, one) == dst * one,
        blended(premultiplied_over(), 0, dst, 0, one) == dst * one,
        blended(over().color, src, dst, one, one) == src * one,
{
    assert(src * 0 + dst * (one - 0) == dst * one) by (nonlinear_arith);
    assert(0 * one + dst * (one - 0) == dst * one) by (nonlinear_arith);
    assert(src * one + dst * (one - one) == src * one) by (nonlinear_arith);
}

/// Straight alpha and premultiplied alpha give the same color: where the premultiplied source
/// `p` is the color times its alpha, both blends come to the same.
pub proof fn lemma_backends_blend_alike(color: int, p: int, dst: int, alpha: int, one: int)
    requires
        p * one == color * alpha,
    ensures
        blended(premultiplied_over(), p, dst, alpha, one) == blended(over().color, color, dst, alpha, one),
{
}

/// Fading is a straight mix of the full blend with the destination, with no halo at an edge:
/// where the alpha is scaled by a fade of `f` parts in `one`, so is the whole difference that
/// the surface makes.
pub proof fn lemma_fade_is_a_mix(color: int, dst: int, alpha: int, faded_alpha: int, f: int, one: int)
    requires
        faded_alpha * one == alpha * f,
    ensures
        one * blended(over().color, color, dst, faded_alpha, one) == f * blended(
            over().color,
            color,
            dst,
            alpha,
            one,
        ) + (one - f) * (dst * one),
{
    let full = color * alpha + dst * (one - alpha);
    let faded = color * faded_alpha + dst * (one - faded_alpha);
    let gap = color - dst;
    assert(full == dst * one + gap * alpha) by (nonlinear_arith)
        requires
            full == color * alpha + dst * (one - alpha),
            gap == color - dst,
    ;
    assert(faded == dst * one + gap * faded_alpha) by (nonlinear_arith)
        requires
            faded == color * faded_alpha + dst * (one - faded_alpha),
            gap == color - dst,
    ;
    assert(one * (gap * faded_alpha) == f * (gap * alpha)) by (nonlinear_arith)
        requires
            faded_alpha * one == alpha * f,
    ;
    let base = dst * one;
    assert(one * (base + gap * faded_alpha) == one * base + one * (gap * faded_alpha)) by (nonlinear_arith);
    assert(f * (base + gap * alpha) + (one - f) * base == f * (gap * alpha) + one * base) by (nonlinear_arith);
}

/// Coverage adds up: what a surface leaves uncovered keeps the coverage that was there.
pub proof fn lemma_coverage_adds_up(alpha: int, dst: int, one: int)
    ensures
        blended(over().alpha, alpha, dst, alpha, one) == alpha * one + dst * (one - alpha),
        blended(premultiplied_over(), alpha, dst, alpha, one) == blended(over().alpha, alpha, dst, alpha, one),
{
}

/// A pass that draws into the scratch replaces, in the format of the scratch; the one that draws
/// into the target blends over it, in the target's format. Each runs the shader of its filter.
pub proof fn lemma_pipelines_fit_their_attachments(blur: PreparedBlur, format: CompositeFormat, i: int)
    requires
        0 <= i < crate::plan::passes(blur, format).len(),
    ensures
        ({
            let pass = crate::plan::passes(blur, format)[i];
            let built = spec_of(pass.pipeline);
            let from = crate::plan::sampled(blur, pass.bind);
            let to = pass.attachment;
            &&& to == TextureRef::Target ==> built.format == format && built.blend == Some(over()) && built.shader
                == Shader::Composite
            &&& to != TextureRef::Target ==> built.format == CompositeFormat::Rgba16Float && built.blend is None
            &&& from == TextureRef::Source ==> built.shader == Shader::Gaussian
            &&& from is Scratch && to is Scratch ==> built.shader == Shader::Gaussian
            &&& from is Mip && to is Mip && to->Mip_0 > from->Mip_0 ==> built.shader == Shader::Downsample
            &&& from is Mip && to is Mip && to->Mip_0 < from->Mip_0 ==> built.shader == Shader::Upsample
        }),
{
    crate::plan::lemma_pipelines_follow_the_textures(blur, format);
    crate::plan::lemma_only_the_composite_touches_the_target(blur, format);
}

} // verus!
