//! The own-loop adapter: surfaces through the seam, repaint obligations, frame order.

use std::cell::RefCell;

use backdrop_blur::error::BlurError;
use backdrop_blur::format::TextureFormat;
use backdrop_blur::geometry::BlurRequest;
use backdrop_blur::liveness::{Interval, RepaintPolicy};
use backdrop_blur::material::{BlurStrength, CornerRadius, LinearRgba, Opacity, Tint};
use backdrop_blur::own_loop::{FrameStep, OwnLoopRenderer};
use backdrop_blur::plan::SourceColorSpace;
use backdrop_blur::seam::{composite_surfaces, BackdropBlur, SeamContext};
use backdrop_blur::single::Single;
use backdrop_blur::surface::{strongest_repaint, Rect, Surface};

fn single(x: f32) -> Single {
    Single::from_bits(x.to_bits())
}

/// A recording fake backend: it returns `Ok(None)` for a zero-area region, so that the tests can
/// tell "prepare always, record only when the region is non-empty".
#[derive(Default)]
struct RecordingBlur {
    events: RefCell<Vec<&'static str>>,
    fail_prepare_at: Option<usize>,
    fail_record_at: Option<usize>,
}

impl RecordingBlur {
    fn count(&self, what: &str) -> usize {
        self.events.borrow().iter().filter(|e| **e == what).count()
    }
}

impl BackdropBlur for RecordingBlur {
    type Device = ();
    type Queue = ();
    type Encoder = ();
    type SourceTexture = ();
    type Target = ();
    type TargetFormat = ();
    type Prepared = ();

    fn prepare(
        &mut self,
        _device: &(),
        _queue: &(),
        _source: &(),
        _target_format: (),
        request: &BlurRequest,
    ) -> Result<Option<()>, BlurError> {
        self.events.borrow_mut().push("prepare");
        if self.fail_prepare_at == Some(self.count("prepare")) {
            return Err(BlurError::DeviceOutOfMemory {
                source: "prepare".to_owned(),
            });
        }
        if request.source_region.size[0] == 0 || request.source_region.size[1] == 0 {
            Ok(None)
        } else {
            Ok(Some(()))
        }
    }

    fn record(&self, _encoder: &mut (), _target: &(), _prepared: &()) -> Result<(), BlurError> {
        self.events.borrow_mut().push("record");
        if self.fail_record_at == Some(self.count("record")) {
            return Err(BlurError::DeviceLost {
                source: "record".to_owned(),
            });
        }
        Ok(())
    }
}

fn rect(min: (f32, f32), size: (f32, f32)) -> Rect {
    Rect {
        min: [single(min.0), single(min.1)],
        max: [single(min.0 + size.0), single(min.1 + size.1)],
    }
}

fn surface(rect: Rect) -> Surface {
    Surface {
        rect,
        strength: BlurStrength::new(single(8.0)),
        tint: Tint::new(LinearRgba::new(
            single(0.0),
            single(0.0),
            single(0.0),
            single(0.1),
        )),
        corner_radius: CornerRadius::new(single(12.0)),
        opacity: Opacity::default(),
        repaint: RepaintPolicy::Static,
    }
}

fn run(blur: &mut RecordingBlur, surfaces: &[Surface]) -> Result<usize, BlurError> {
    composite_surfaces(
        blur,
        SeamContext {
            device: &(),
            queue: &(),
            encoder: &mut (),
            source: &(),
            target: &(),
            target_format: (),
        },
        surfaces,
        single(1.0),
    )
}

fn three() -> [Surface; 3] {
    [
        surface(rect((10.0, 10.0), (100.0, 60.0))),
        surface(rect((0.0, 0.0), (0.0, 0.0))),
        surface(rect((50.0, 50.0), (80.0, 40.0))),
    ]
}

#[test]
fn composite_surfaces_prepares_each_and_records_only_non_empty() {
    let mut blur = RecordingBlur::default();
    let recorded = run(&mut blur, &three()).expect("the fake backend never errors");

    assert_eq!(recorded, 2);
    assert_eq!(blur.count("prepare"), 3, "prepare runs for every surface");
    assert_eq!(blur.count("record"), 2, "record skips the empty surface");
    // The empty surface prepares but does not record between the two real ones.
    assert_eq!(
        blur.events.into_inner(),
        vec!["prepare", "record", "prepare", "prepare", "record"]
    );
}

#[test]
fn composite_surfaces_stops_at_the_first_error() {
    let mut blur = RecordingBlur {
        fail_prepare_at: Some(3),
        ..RecordingBlur::default()
    };
    assert_eq!(
        run(&mut blur, &three()),
        Err(BlurError::DeviceOutOfMemory {
            source: "prepare".to_owned()
        })
    );
    assert_eq!(
        blur.events.into_inner(),
        vec!["prepare", "record", "prepare", "prepare"]
    );

    let mut blur = RecordingBlur {
        fail_record_at: Some(1),
        ..RecordingBlur::default()
    };
    assert_eq!(
        run(&mut blur, &three()),
        Err(BlurError::DeviceLost {
            source: "record".to_owned()
        })
    );
    assert_eq!(blur.events.into_inner(), vec!["prepare", "record"]);
}

#[test]
fn composite_surfaces_of_nothing_records_nothing() {
    let mut blur = RecordingBlur::default();
    assert_eq!(run(&mut blur, &[]), Ok(0));
    assert!(blur.events.into_inner().is_empty());
}

#[test]
fn strongest_repaint_prefers_live_then_shortest_bounded() {
    let zero = rect((0.0, 0.0), (0.0, 0.0));
    let mut live = surface(zero);
    live.repaint = RepaintPolicy::Live;

    let mut bounded_long = surface(zero);
    bounded_long.repaint = RepaintPolicy::Bounded(Interval::from_millis(500));
    let mut bounded_short = surface(zero);
    bounded_short.repaint = RepaintPolicy::Bounded(Interval::from_millis(100));

    assert_eq!(strongest_repaint(&[]), RepaintPolicy::Static);
    assert_eq!(
        strongest_repaint(&[bounded_long, bounded_short]),
        RepaintPolicy::Bounded(Interval::from_millis(100))
    );
    assert_eq!(strongest_repaint(&[bounded_long, live]), RepaintPolicy::Live);
}

#[test]
fn strongest_repaint_does_not_depend_on_order() {
    let zero = rect((0.0, 0.0), (0.0, 0.0));
    let with = |repaint| {
        let mut s = surface(zero);
        s.repaint = repaint;
        s
    };
    let policies = [
        RepaintPolicy::Static,
        RepaintPolicy::Live,
        RepaintPolicy::Bounded(Interval::from_millis(5)),
        RepaintPolicy::Bounded(Interval::from_millis(7)),
    ];
    for a in policies {
        for b in policies {
            assert_eq!(
                strongest_repaint(&[with(a), with(b)]),
                strongest_repaint(&[with(b), with(a)])
            );
        }
    }
    assert_eq!(
        strongest_repaint(&[with(RepaintPolicy::Static), with(policies[2])]),
        policies[2]
    );
}

#[test]
fn request_rounds_to_whole_pixels_and_drops_what_is_negative() {
    let s = surface(rect((-3.0, 10.4), (100.25, 60.5)));
    let request = s.request(single(2.0));
    assert_eq!(request.source_region.origin, [0, 21]);
    assert_eq!(request.source_region.size, [201, 121]);
    assert_eq!(request.target_rect, request.source_region);
    assert_eq!(request.source_region.scale.factor(), single(2.0));
    assert_eq!(request.opacity, s.opacity);
}

#[test]
fn request_agrees_with_hardware_floats() {
    for &ppp in &[0.5f32, 1.0, 1.1, 1.25, 1.7, 2.0, 3.3333333] {
        for &x in &[-1.5f32, 0.0, 0.1, 0.25, 10.4999, 333.3] {
            for &w in &[0.0f32, 0.3, 0.5, 99.95, 1280.125] {
                let min = x;
                let max = x + w;
                let expected_origin = (min * ppp).round().max(0.0) as u32;
                let expected_size = ((max - min) * ppp).round().max(0.0) as u32;
                let s = surface(Rect {
                    min: [single(min), single(min)],
                    max: [single(max), single(max)],
                });
                let request = s.request(single(ppp));
                assert_eq!(request.source_region.origin, [expected_origin; 2]);
                assert_eq!(request.source_region.size, [expected_size; 2]);
            }
        }
    }
}

#[test]
fn only_plainly_stored_targets_are_accepted() {
    let other = |name: &str| TextureFormat::Other {
        name: name.to_owned(),
    };
    assert!(OwnLoopRenderer::new(TextureFormat::Rgba8Unorm).is_ok());
    assert!(OwnLoopRenderer::new(TextureFormat::Bgra8Unorm).is_ok());
    for name in ["R8Unorm", "Rgb10a2Unorm", "Rgba16Unorm"] {
        assert!(OwnLoopRenderer::new(other(name)).is_ok(), "{name} was rejected");
    }
    for (format, name) in [
        (TextureFormat::Rgba8UnormSrgb, "Rgba8UnormSrgb"),
        (TextureFormat::Bgra8UnormSrgb, "Bgra8UnormSrgb"),
        (TextureFormat::Rgba16Float, "Rgba16Float"),
        (other("Rgba32Float"), "Rgba32Float"),
        (other("Bc1RgbaUnormSrgb"), "Bc1RgbaUnormSrgb"),
        (other("Rgba8Snorm"), "Rgba8Snorm"),
        (other("norm"), "norm"),
        (other(""), ""),
    ] {
        match OwnLoopRenderer::new(format) {
            Err(BlurError::UnsupportedTarget { format }) => assert_eq!(format, name),
            _ => panic!("{name} was accepted"),
        }
    }
}

#[test]
fn a_frame_runs_in_the_order_that_does_not_panic() {
    let mut adapter = OwnLoopRenderer::new(TextureFormat::Bgra8Unorm).unwrap();
    assert!(adapter.source().is_none());
    assert_eq!(
        adapter.begin_frame([640, 0], 2),
        vec![
            FrameStep::UpdateTexture(0),
            FrameStep::UpdateTexture(1),
            FrameStep::CreateEncoder,
            FrameStep::UpdateBuffers,
            FrameStep::CreateIntermediate(640, 1),
            FrameStep::RenderIntermediate,
            FrameStep::RenderTarget,
            FrameStep::Composite,
        ]
    );
    let source = adapter.source().unwrap();
    assert_eq!(source.size, [640, 0]);
    assert_eq!(source.color_space, SourceColorSpace::GammaSrgb);
    // The same size reuses the intermediate; another makes a new one.
    assert_eq!(
        adapter.begin_frame([640, 0], 0),
        vec![
            FrameStep::CreateEncoder,
            FrameStep::UpdateBuffers,
            FrameStep::RenderIntermediate,
            FrameStep::RenderTarget,
            FrameStep::Composite,
        ]
    );
    assert!(adapter
        .begin_frame([640, 480], 0)
        .contains(&FrameStep::CreateIntermediate(640, 480)));
}

#[test]
fn a_frame_ends_with_one_submit_then_the_frees() {
    let adapter = OwnLoopRenderer::new(TextureFormat::Rgba8Unorm).unwrap();
    let mut live = surface(rect((0.0, 0.0), (1.0, 1.0)));
    live.repaint = RepaintPolicy::Live;
    let (steps, repaint) = adapter.end_frame(Ok(1), 2, &[live]).unwrap();
    assert_eq!(
        steps,
        vec![
            FrameStep::Submit,
            FrameStep::FreeTexture(0),
            FrameStep::FreeTexture(1)
        ]
    );
    assert_eq!(repaint, RepaintPolicy::Live);
}

#[test]
fn a_failed_composite_submits_nothing() {
    let adapter = OwnLoopRenderer::new(TextureFormat::Rgba8Unorm).unwrap();
    let error = || BlurError::DeviceLost {
        source: "gone".to_owned(),
    };
    assert_eq!(adapter.end_frame(Err(error()), 2, &[]), Err(error()));
}
