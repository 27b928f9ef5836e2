//! The grab-pass adapter: callback geometry, effect flag, and warnings.

use backdrop_blur::error::BlurError;
use backdrop_blur::gl_region::FramebufferSize;
use backdrop_blur::grab_pass::{callback_region, GrabPassRenderer, PaintCallbackInfo};
use backdrop_blur::liveness::{Interval, RepaintPolicy, RepaintRequest};
use backdrop_blur::material::{BlurStrength, CornerRadius, LinearRgba, Opacity, Tint};
use backdrop_blur::single::Single;
use backdrop_blur::surface::{Rect, Surface};

fn single(x: f32) -> Single {
    Single::from_bits(x.to_bits())
}

fn info(viewport: Rect, clip: Rect, screen: [u32; 2], ppp: f32) -> PaintCallbackInfo {
    PaintCallbackInfo {
        viewport,
        clip_rect: clip,
        pixels_per_point: single(ppp),
        screen_size_px: screen,
    }
}

fn rect(min: (f32, f32), size: (f32, f32)) -> Rect {
    Rect {
        min: [single(min.0), single(min.1)],
        max: [single(min.0 + size.0), single(min.1 + size.1)],
    }
}

fn surface(rect: Rect, repaint: RepaintPolicy) -> Surface {
    Surface {
        rect,
        strength: BlurStrength::new(single(8.0)),
        tint: Tint::new(LinearRgba::new(
            single(0.0),
            single(0.0),
            single(0.0),
            single(0.1),
        )),
        corner_radius: CornerRadius::new(single(12.0)),
        opacity: Opacity::new(single(0.5)),
        repaint,
    }
}

#[test]
fn callback_region_maps_egui_top_to_gl_high_y_no_flip() {
    // A 800x600 screen; a panel flush with the top (y 0..50). In GL bottom-left, the top of the
    // screen is high y: from_bottom = 600 - 50 - 0 = 550.
    let panel = rect((0.0, 0.0), (100.0, 50.0));
    let (region, fb) = callback_region(&info(panel, panel, [800, 600], 1.0)).expect("non-empty");
    assert_eq!(region.origin_bl(), [0, 550]);
    assert_eq!(region.size(), [100, 50]);
    assert_eq!(fb, FramebufferSize([800, 600]));
}

#[test]
fn callback_region_maps_egui_bottom_to_gl_low_y() {
    // A panel flush with the bottom (y 550..600): from_bottom = 600 - 50 - 550 = 0.
    let panel = rect((0.0, 550.0), (100.0, 50.0));
    let (region, _) = callback_region(&info(panel, panel, [800, 600], 1.0)).expect("non-empty");
    assert_eq!(region.origin_bl(), [0, 0]);
    assert_eq!(region.size(), [100, 50]);
}

#[test]
fn callback_region_scales_by_pixels_per_point() {
    // A 100x50-point panel at (10, 10) at scale 2: 200x100 px at left 20.
    let panel = rect((10.0, 10.0), (100.0, 50.0));
    let (region, fb) = callback_region(&info(panel, panel, [1600, 1200], 2.0)).expect("non-empty");
    assert_eq!(region.size(), [200, 100]);
    assert_eq!(region.origin_bl(), [20, 1200 - 100 - 20]);
    assert_eq!(fb, FramebufferSize([1600, 1200]));
}

#[test]
fn callback_region_is_none_when_clip_is_disjoint() {
    // The clip rect shares no area with the viewport, so the panel paints nothing.
    let viewport = rect((0.0, 0.0), (100.0, 100.0));
    let clip = rect((400.0, 400.0), (50.0, 50.0));
    assert!(callback_region(&info(viewport, clip, [800, 600], 1.0)).is_none());
}

#[test]
fn callback_region_agrees_with_egui_on_the_viewport() {
    let edges = [-30.25f32, -0.5, -0.4, 0.0, 0.49, 0.5, 1.5, 17.3, 99.9, 640.0, 5000.0];
    for &ppp in &[0.5f32, 1.0, 1.25, 1.3333334, 2.0] {
        for &x in &edges {
            for &y in &edges {
                for &size in &[-5.0f32, 0.3, 0.5, 10.0, 33.7] {
                    let points = egui::Rect {
                        min: egui::pos2(x, y),
                        max: egui::pos2(x + size, y + size),
                    };
                    let expected = egui::PaintCallbackInfo {
                        viewport: points,
                        clip_rect: points,
                        pixels_per_point: ppp,
                        screen_size_px: [640, 480],
                    }
                    .viewport_in_pixels();
                    let ours = rect((x, y), (size, size));
                    let got = callback_region(&info(ours, ours, [640, 480], ppp));
                    if expected.width_px == 0 || expected.height_px == 0 {
                        assert!(got.is_none());
                    } else {
                        let (region, _) = got.unwrap();
                        assert_eq!(
                            region.origin_bl(),
                            [expected.left_px as u32, expected.from_bottom_px as u32]
                        );
                        assert_eq!(
                            region.size(),
                            [expected.width_px as u32, expected.height_px as u32]
                        );
                        // The contract's own arithmetic: scale, round, hold to the screen.
                        let edge = |p: f32, limit: f32| (ppp * p).round().max(0.0).min(limit) as u32;
                        assert_eq!(region.origin_bl()[0], edge(x, 640.0));
                        let top = edge(y, 480.0);
                        let bottom = edge(y + size, 480.0).max(top);
                        assert_eq!(region.origin_bl()[1], 480 - bottom);
                    }
                }
            }
        }
    }
}

#[test]
fn a_scrolled_panel_stays_inside_its_clip() {
    let viewport = rect((0.0, 0.0), (100.0, 100.0));
    let clip = rect((0.0, 60.0), (100.0, 100.0));
    let (region, _) = callback_region(&info(viewport, clip, [200, 200], 1.0)).unwrap();
    assert_eq!(region.origin_bl(), [0, 100]);
    assert_eq!(region.size(), [100, 40]);
}

#[test]
fn took_effect_reads_and_resets() {
    let mut adapter = GrabPassRenderer::new();
    assert!(!adapter.took_effect());
    let panel = rect((0.0, 0.0), (100.0, 50.0));
    let s = surface(panel, RepaintPolicy::Static);
    assert!(adapter.on_callback(&info(panel, panel, [800, 600], 1.0), &s).is_some());
    assert!(adapter.took_effect());
    assert!(!adapter.took_effect());
}

#[test]
fn a_callback_that_clips_to_nothing_still_ran() {
    let mut adapter = GrabPassRenderer::new();
    let panel = rect((0.0, 0.0), (100.0, 50.0));
    let away = rect((400.0, 400.0), (10.0, 10.0));
    let s = surface(panel, RepaintPolicy::Static);
    assert!(adapter.on_callback(&info(panel, away, [800, 600], 1.0), &s).is_none());
    assert!(adapter.took_effect());
}

#[test]
fn the_plan_of_a_callback_carries_the_glass() {
    let mut adapter = GrabPassRenderer::new();
    let panel = rect((10.0, 10.0), (100.0, 50.0));
    let s = surface(panel, RepaintPolicy::Live);
    let plan = adapter
        .on_callback(&info(panel, panel, [1600, 1200], 2.0), &s)
        .unwrap();
    assert_eq!(plan.request.source_region.origin, [20, 1080]);
    assert_eq!(plan.request.source_region.size, [200, 100]);
    assert_eq!(plan.request.target_rect, plan.request.source_region);
    assert_eq!(plan.request.strength, s.strength);
    assert_eq!(plan.request.tint, s.tint);
    assert_eq!(plan.request.corner_radius, s.corner_radius);
    assert_eq!(plan.request.opacity, s.opacity);
    assert_eq!(plan.request.source_region.scale.factor(), single(2.0));
}

#[test]
fn a_failure_is_warned_of_once_per_episode() {
    let mut adapter = GrabPassRenderer::new();
    let fail = || {
        Err(BlurError::UnsupportedContext {
            detail: "too old".to_owned(),
        })
    };
    assert_eq!(
        adapter.frosted(&fail()).unwrap(),
        "backdrop-blur grab-pass frost failed: \
         the GL context does not support the blur backend: too old"
    );
    assert!(adapter.frosted(&fail()).is_none());
    assert!(adapter.frosted(&fail()).is_none());
    assert!(adapter.frosted(&Ok(())).is_none());
    assert!(adapter.frosted(&fail()).is_some());
    assert!(adapter.frosted(&fail()).is_none());
}

#[test]
fn frost_asks_for_what_the_policy_says() {
    let adapter = GrabPassRenderer::new();
    let panel = rect((0.0, 0.0), (1.0, 1.0));
    assert_eq!(
        adapter.frost(&surface(panel, RepaintPolicy::Static)),
        RepaintRequest::Nothing
    );
    assert_eq!(
        adapter.frost(&surface(panel, RepaintPolicy::Live)),
        RepaintRequest::Now
    );
    let after = Interval::from_millis(250);
    assert_eq!(
        adapter.frost(&surface(panel, RepaintPolicy::Bounded(after))),
        RepaintRequest::After(after)
    );
}
