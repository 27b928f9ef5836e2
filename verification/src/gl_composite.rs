//! The composite pass in GL: what is set, and in what order, to paint a frosted surface over a
//! framebuffer.

use vstd::prelude::*;

use crate::blend::{BlendComponent, BlendFactor};
use crate::geometry::ResolvedMask;
use crate::material::LinearRgba;
use crate::plan::Pair;
use crate::single::Single;

verus! {

/// What the composite is drawn from, in bottom-left framebuffer pixels.
#[derive(Clone, Copy, Debug, PartialEq)]
pub struct CompositeParams {
    /// Origin of the target rect.
    pub rect_origin_px: Pair,
    /// Size of the target rect.
    pub rect_size_px: Pair,
    /// The glass film.
    pub tint: LinearRgba,
    /// What to add to a scaled target coordinate to sample the blurred scratch.
    pub backdrop_uv_offset: Pair,
    /// What to scale a target coordinate by first.
    pub backdrop_uv_scale: Pair,
    /// The corner radius.
    pub corner_radius_px: Single,
    /// The size of the whole framebuffer.
    pub framebuffer_size: [u32; 2],
    /// The surface-global fade.
    pub opacity: Single,
}

impl CompositeParams {
    /// Puts the inputs together; the mask gives the corner radius.
    pub fn new(
        rect_origin_px: Pair,
        rect_size_px: Pair,
        tint: LinearRgba,
        backdrop_uv_offset: Pair,
        backdrop_uv_scale: Pair,
        mask: ResolvedMask,
        framebuffer_size: [u32; 2],
        opacity: Single,
    ) -> (r: CompositeParams)
        ensures
            r == (CompositeParams {
                rect_origin_px,
                rect_size_px,
                tint,
                backdrop_uv_offset,
                backdrop_uv_scale,
                corner_radius_px: mask.corner_radius_px,
                framebuffer_size,
                opacity,
            }),
    {
        CompositeParams {
            rect_origin_px,
            rect_size_px,
            tint,
            backdrop_uv_offset,
            backdrop_uv_scale,
            corner_radius_px: mask.corner_radius_px,
            framebuffer_size,
            opacity,
        }
    }
}

/// A uniform of the composite program.
#[derive(Clone, Copy, Debug, PartialEq, Eq, Structural)]
pub enum GlUniform {
    /// Origin of the target rect.
    RectOriginPx,
    /// Size of the target rect.
    RectSizePx,
    /// The glass film.
    Tint,
    /// Offset into the blurred scratch.
    BackdropUvOffset,
    /// Scale into the blurred scratch.
    BackdropUvScale,
    /// The corner radius.
    CornerRadiusPx,
    /// Whether to encode to sRGB.
    EncodeSrgb,
    /// The surface-global fade.
    Opacity,
    /// The texture unit of the blurred scratch.
    Blurred,
}

/// The name of a uniform in the program.
pub open spec fn uniform_name(u: GlUniform) -> Seq<char> {
    match u {
        GlUniform::RectOriginPx => "u_rect_origin_px"@,
        GlUniform::RectSizePx => "u_rect_size_px"@,
        GlUniform::Tint => "u_tint"@,
        GlUniform::BackdropUvOffset => "u_backdrop_uv_offset"@,
        GlUniform::BackdropUvScale => "u_backdrop_uv_scale"@,
        GlUniform::CornerRadiusPx => "u_corner_radius_px"@,
        GlUniform::EncodeSrgb => "u_encode_srgb"@,
        GlUniform::Opacity => "u_opacity"@,
        GlUniform::Blurred => "u_blurred"@,
    }
}

impl GlUniform {
    /// The name in the program.
    pub fn name(&self) -> (s: &'static str)
        ensures
            s@ == uniform_name(*self),
    {
        match self {
            GlUniform::RectOriginPx => "u_rect_origin_px",
            GlUniform::RectSizePx => "u_rect_size_px",
            GlUniform::Tint => "u_tint",
            GlUniform::BackdropUvOffset => "u_backdrop_uv_offset",
            GlUniform::BackdropUvScale => "u_backdrop_uv_scale",
            GlUniform::CornerRadiusPx => "u_corner_radius_px",
            GlUniform::EncodeSrgb => "u_encode_srgb",
            GlUniform::Opacity => "u_opacity",
            GlUniform::Blurred => "u_blurred",
        }
    }
}

/// A value for a uniform.
#[derive(Clone, Copy, Debug, PartialEq)]
pub enum GlValue {
    /// Two floats.
    Vec2(Pair),
    /// Four floats.
    Vec4(LinearRgba),
    /// A float.
    Float(Single),
    /// An integer.
    Int(i32),
}

/// One GL call of the composite.
#[derive(Clone, Copy, Debug, PartialEq)]
pub enum GlCommand {
    /// Sets the viewport to the lower left `width` by `height` pixels.
    Viewport(u32, u32),
    /// Turns the scissor test off.
    DisableScissor,
    /// Turns blending on.
    EnableBlend,
    /// Blends by adding.
    BlendEquationAdd,
    /// Sets the blend factors, for color and alpha alike.
    BlendFunc(BlendComponent),
    /// Uses the composite program.
    UseProgram,
    /// Sets a uniform.
    SetUniform(GlUniform, GlValue),
    /// Makes texture unit 0 the active one.
    ActiveTexture0,
    /// Binds the blurred scratch to it.
    BindBlurred,
    /// Binds the vertex array.
    BindVertexArray,
    /// Draws one triangle of three vertices.
    DrawTriangle,
}

/// The calls of the composite, in order. The shader encodes to sRGB unless the framebuffer does.
pub open spec fn draw_calls(params: CompositeParams, framebuffer_srgb: bool) -> Seq<GlCommand> {
    seq![
        GlCommand::Viewport(params.framebuffer_size[0], params.framebuffer_size[1]),
        GlCommand::DisableScissor,
        GlCommand::EnableBlend,
        GlCommand::BlendEquationAdd,
        GlCommand::BlendFunc(crate::blend::premultiplied_over()),
        GlCommand::UseProgram,
        GlCommand::SetUniform(GlUniform::RectOriginPx, GlValue::Vec2(params.rect_origin_px)),
        GlCommand::SetUniform(GlUniform::RectSizePx, GlValue::Vec2(params.rect_size_px)),
        GlCommand::SetUniform(GlUniform::Tint, GlValue::Vec4(params.tint)),
        GlCommand::SetUniform(GlUniform::BackdropUvOffset, GlValue::Vec2(params.backdrop_uv_offset)),
        GlCommand::SetUniform(GlUniform::BackdropUvScale, GlValue::Vec2(params.backdrop_uv_scale)),
        GlCommand::SetUniform(GlUniform::CornerRadiusPx, GlValue::Float(params.corner_radius_px)),
        GlCommand::SetUniform(
            GlUniform::EncodeSrgb,
            GlValue::Int(if framebuffer_srgb { 0 } else { 1 }),
        ),
        GlCommand::SetUniform(GlUniform::Opacity, GlValue::Float(params.opacity)),
        GlCommand::ActiveTexture0,
        GlCommand::BindBlurred,
        GlCommand::SetUniform(GlUniform::Blurred, GlValue::Int(0)),
        GlCommand::BindVertexArray,
        GlCommand::DrawTriangle,
    ]
}

/// The calls that draw the composite into the bound framebuffer: over the whole of it, so that
/// the outer half of an antialiased edge is drawn too, with no scissor, blending premultiplied
/// values. `framebuffer_srgb` is whether the context encodes on writing.
pub fn draw(params: &CompositeParams, framebuffer_srgb: bool) -> (r: Vec<GlCommand>)
    ensures
        r@ == draw_calls(*params, framebuffer_srgb),
{
    let mut calls: Vec<GlCommand> = Vec::new();
    calls.push(GlCommand::Viewport(params.framebuffer_size[0], params.framebuffer_size[1]));
    calls.push(GlCommand::DisableScissor);
    calls.push(GlCommand::EnableBlend);
    calls.push(GlCommand::BlendEquationAdd);
    calls.push(
        GlCommand::BlendFunc(
            BlendComponent { src_factor: BlendFactor::One, dst_factor: BlendFactor::OneMinusSrcAlpha },
        ),
    );
    calls.push(GlCommand::UseProgram);
    calls.push(GlCommand::SetUniform(GlUniform::RectOriginPx, GlValue::Vec2(params.rect_origin_px)));
    calls.push(GlCommand::SetUniform(GlUniform::RectSizePx, GlValue::Vec2(params.rect_size_px)));
    calls.push(GlCommand::SetUniform(GlUniform::Tint, GlValue::Vec4(params.tint)));
    calls.push(GlCommand::SetUniform(GlUniform::BackdropUvOffset, GlValue::Vec2(params.backdrop_uv_offset)));
    calls.push(GlCommand::SetUniform(GlUniform::BackdropUvScale, GlValue::Vec2(params.backdrop_uv_scale)));
    calls.push(GlCommand::SetUniform(GlUniform::CornerRadiusPx, GlValue::Float(params.corner_radius_px)));
    let encode: i32 = if framebuffer_srgb { 0 } else { 1 };
    calls.push(GlCommand::SetUniform(GlUniform::EncodeSrgb, GlValue::Int(encode)));
    calls.push(GlCommand::SetUniform(GlUniform::Opacity, GlValue::Float(params.opacity)));
    calls.push(GlCommand::ActiveTexture0);
    calls.push(GlCommand::BindBlurred);
    calls.push(GlCommand::SetUniform(GlUniform::Blurred, GlValue::Int(0)));
    calls.push(GlCommand::BindVertexArray);
    calls.push(GlCommand::DrawTriangle);
    assert(calls@ =~= draw_calls(*params, framebuffer_srgb));
    calls
}

/// Whether the call at position `i` sets uniform `u` to `v`, with the program in use and before
/// the one draw, which comes last.
pub open spec fn sets(calls: Seq<GlCommand>, i: int, u: GlUniform, v: GlValue) -> bool {
    0 <= i < calls.len() - 1 && calls[i] == GlCommand::SetUniform(u, v) && exists|k: int|
        0 <= k < i && #[trigger] calls[k] == GlCommand::UseProgram
}

/// Every uniform of the composite is set once, to what the parameters say of it, and the triangle
/// is drawn once, last. The shader encodes exactly where the framebuffer does not.
pub proof fn lemma_draw_sets_every_uniform(params: CompositeParams, framebuffer_srgb: bool, u: GlUniform, v: GlValue)
    ensures
        ({
            let calls = draw_calls(params, framebuffer_srgb);
            &&& (exists|i: int| sets(calls, i, u, v)) <==> match u {
                GlUniform::RectOriginPx => v == GlValue::Vec2(params.rect_origin_px),
                GlUniform::RectSizePx => v == GlValue::Vec2(params.rect_size_px),
                GlUniform::Tint => v == GlValue::Vec4(params.tint),
                GlUniform::BackdropUvOffset => v == GlValue::Vec2(params.backdrop_uv_offset),
                GlUniform::BackdropUvScale => v == GlValue::Vec2(params.backdrop_uv_scale),
                GlUniform::CornerRadiusPx => v == GlValue::Float(params.corner_radius_px),
                GlUniform::EncodeSrgb => v == GlValue::Int(if framebuffer_srgb { 0 } else { 1 }),
                GlUniform::Opacity => v == GlValue::Float(params.opacity),
                GlUniform::Blurred => v == GlValue::Int(0),
            }
            &&& forall|i: int|
                0 <= i < calls.len() ==> ((#[trigger] calls[i]) == GlCommand::DrawTriangle <==> i == calls.len() - 1)
        }),
{
    let calls = draw_calls(params, framebuffer_srgb);
    assert(calls[5] == GlCommand::UseProgram);
    let at = match u {
        GlUniform::RectOriginPx => 6int,
        GlUniform::RectSizePx => 7,
        GlUniform::Tint => 8,
        GlUniform::BackdropUvOffset => 9,
        GlUniform::BackdropUvScale => 10,
        GlUniform::CornerRadiusPx => 11,
        GlUniform::EncodeSrgb => 12,
        GlUniform::Opacity => 13,
        GlUniform::Blurred => 16,
    };
    assert(calls[at] is SetUniform);
    let set = calls[at]->SetUniform_1;
    assert(sets(calls, at, u, set));
    if exists|i: int| sets(calls, i, u, v) {
        let i = choose|i: int| sets(calls, i, u, v);
        assert(i == at);
    }
}

/// The state that the draw needs is set before it: the whole framebuffer as the viewport, no
/// scissor, premultiplied blending, the blurred scratch on unit 0 and the vertex array.
pub proof fn lemma_draw_comes_after_its_state(params: CompositeParams, framebuffer_srgb: bool)
    ensures
        ({
            let calls = draw_calls(params, framebuffer_srgb).drop_last();
            let size = params.framebuffer_size;
            &&& calls.contains(GlCommand::Viewport(size[0], size[1]))
            &&& calls.contains(GlCommand::DisableScissor)
            &&& calls.contains(GlCommand::EnableBlend)
            &&& calls.contains(GlCommand::BlendEquationAdd)
            &&& calls.contains(GlCommand::BlendFunc(crate::blend::premultiplied_over()))
            &&& calls.contains(GlCommand::BindVertexArray)
            &&& exists|i: int, j: int|
                0 <= i < j < calls.len() && #[trigger] calls[i] == GlCommand::ActiveTexture0 && #[trigger] calls[j]
                    == GlCommand::BindBlurred
        }),
{
    let calls = draw_calls(params, framebuffer_srgb).drop_last();
    assert(calls[0] == GlCommand::Viewport(params.framebuffer_size[0], params.framebuffer_size[1]));
    assert(calls[1] == GlCommand::DisableScissor);
    assert(calls[2] == GlCommand::EnableBlend);
    assert(calls[3] == GlCommand::BlendEquationAdd);
    assert(calls[4] == GlCommand::BlendFunc(crate::blend::premultiplied_over()));
    assert(calls[14] == GlCommand::ActiveTexture0);
    assert(calls[15] == GlCommand::BindBlurred);
    assert(calls[17] == GlCommand::BindVertexArray);
}

} // verus!
