//! The GL calls of the composite.

use backdrop_blur::blend::{BlendComponent, BlendFactor};
use backdrop_blur::geometry::{Region, ResolvedMask, Scale};
use backdrop_blur::gl_composite::{draw, CompositeParams, GlCommand, GlUniform, GlValue};
use backdrop_blur::material::{CornerRadius, LinearRgba};
use backdrop_blur::plan::Pair;
use backdrop_blur::single::Single;

fn single(x: f32) -> Single {
    Single::from_bits(x.to_bits())
}

fn pair(x: f32, y: f32) -> Pair {
    Pair {
        x: single(x),
        y: single(y),
    }
}

fn params() -> CompositeParams {
    let target = Region {
        origin: [10, 20],
        size: [100, 50],
        scale: Scale::default(),
    };
    let mask = ResolvedMask::from_target(&target, CornerRadius::new(single(12.0)));
    CompositeParams::new(
        pair(10.0, 20.0),
        pair(100.0, 50.0),
        LinearRgba::new(single(0.1), single(0.2), single(0.3), single(0.4)),
        pair(0.0, 0.0),
        pair(1.0, 1.0),
        mask,
        [800, 600],
        single(0.5),
    )
}

#[test]
fn the_composite_covers_the_whole_framebuffer_unscissored_and_premultiplied() {
    let calls = draw(&params(), false);
    assert_eq!(
        calls[..6],
        [
            GlCommand::Viewport(800, 600),
            GlCommand::DisableScissor,
            GlCommand::EnableBlend,
            GlCommand::BlendEquationAdd,
            GlCommand::BlendFunc(BlendComponent {
                src_factor: BlendFactor::One,
                dst_factor: BlendFactor::OneMinusSrcAlpha,
            }),
            GlCommand::UseProgram,
        ]
    );
    assert_eq!(
        calls[14..],
        [
            GlCommand::ActiveTexture0,
            GlCommand::BindBlurred,
            GlCommand::SetUniform(GlUniform::Blurred, GlValue::Int(0)),
            GlCommand::BindVertexArray,
            GlCommand::DrawTriangle,
        ]
    );
}

#[test]
fn the_composite_sets_every_uniform() {
    let calls = draw(&params(), true);
    let value = |u: GlUniform| {
        calls
            .iter()
            .find_map(|c| match c {
                GlCommand::SetUniform(s, v) if *s == u => Some(*v),
                _ => None,
            })
            .unwrap()
    };
    assert_eq!(value(GlUniform::RectOriginPx), GlValue::Vec2(pair(10.0, 20.0)));
    assert_eq!(value(GlUniform::RectSizePx), GlValue::Vec2(pair(100.0, 50.0)));
    assert_eq!(value(GlUniform::Tint), GlValue::Vec4(params().tint));
    assert_eq!(value(GlUniform::BackdropUvOffset), GlValue::Vec2(pair(0.0, 0.0)));
    assert_eq!(value(GlUniform::BackdropUvScale), GlValue::Vec2(pair(1.0, 1.0)));
    assert_eq!(value(GlUniform::CornerRadiusPx), GlValue::Float(single(12.0)));
    assert_eq!(value(GlUniform::Opacity), GlValue::Float(single(0.5)));
    // The shader encodes exactly where the framebuffer does not.
    assert_eq!(value(GlUniform::EncodeSrgb), GlValue::Int(0));
    assert!(draw(&params(), false)
        .contains(&GlCommand::SetUniform(GlUniform::EncodeSrgb, GlValue::Int(1))));
}

#[test]
fn uniforms_have_the_names_of_the_program() {
    assert_eq!(GlUniform::RectOriginPx.name(), "u_rect_origin_px");
    assert_eq!(GlUniform::RectSizePx.name(), "u_rect_size_px");
    assert_eq!(GlUniform::Tint.name(), "u_tint");
    assert_eq!(GlUniform::BackdropUvOffset.name(), "u_backdrop_uv_offset");
    assert_eq!(GlUniform::BackdropUvScale.name(), "u_backdrop_uv_scale");
    assert_eq!(GlUniform::CornerRadiusPx.name(), "u_corner_radius_px");
    assert_eq!(GlUniform::EncodeSrgb.name(), "u_encode_srgb");
    assert_eq!(GlUniform::Opacity.name(), "u_opacity");
    assert_eq!(GlUniform::Blurred.name(), "u_blurred");
}
