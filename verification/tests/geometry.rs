//! Regions, clipping, masks and requests.

use backdrop_blur::geometry::{BlurRequest, Region, ResolvedMask, Scale};
use backdrop_blur::gl_region::GlRegion;
use backdrop_blur::material::{BlurStrength, CornerRadius, LinearRgba, Opacity, Tint};
use backdrop_blur::single::Single;

fn single(x: f32) -> Single {
    Single::from_bits(x.to_bits())
}

fn float(x: Single) -> f32 {
    f32::from_bits(x.to_bits())
}

fn close(a: f32, b: f32) -> bool {
    (a - b).abs() < 1e-4
}

#[test]
fn scale_new_floors_nonpositive_to_positive() {
    assert!(float(Scale::new(single(0.0)).factor()) > 0.0);
    assert!(float(Scale::new(single(-2.0)).factor()) > 0.0);
    assert!(close(float(Scale::new(single(2.5)).factor()), 2.5));
}

#[test]
fn scale_default_is_one() {
    assert!(close(float(Scale::default().factor()), 1.0));
}

#[test]
fn scale_floor_is_the_smallest_positive_normal() {
    assert_eq!(float(Scale::new(single(0.0)).factor()), f32::MIN_POSITIVE);
    assert_eq!(float(Scale::new(single(f32::NAN)).factor()), f32::MIN_POSITIVE);
}

#[test]
fn is_empty_or_offscreen_true_for_zero_area() {
    let region = Region {
        origin: [0, 0],
        size: [0, 10],
        scale: Scale::default(),
    };
    assert!(region.is_empty_or_offscreen([100, 100]));
}

#[test]
fn is_empty_or_offscreen_true_when_origin_past_extent() {
    let region = Region {
        origin: [100, 0],
        size: [10, 10],
        scale: Scale::default(),
    };
    assert!(region.is_empty_or_offscreen([100, 100]));
}

#[test]
fn is_empty_or_offscreen_false_for_in_bounds_region() {
    let region = Region {
        origin: [10, 10],
        size: [20, 20],
        scale: Scale::default(),
    };
    assert!(!region.is_empty_or_offscreen([100, 100]));
}

#[test]
fn resolved_mask_half_extents_are_half_the_size() {
    let target = Region {
        origin: [0, 0],
        size: [80, 40],
        scale: Scale::new(single(1.0)),
    };
    let mask = ResolvedMask::from_target(&target, CornerRadius::new(single(8.0)));
    assert!(close(float(mask.half_extents[0]), 40.0));
    assert!(close(float(mask.half_extents[1]), 20.0));
    assert!(close(float(mask.corner_radius_px), 8.0));
}

#[test]
fn resolved_mask_scales_corner_radius_to_physical() {
    let target = Region {
        origin: [0, 0],
        size: [200, 200],
        scale: Scale::new(single(2.0)),
    };
    // 8 logical points times 2.0 is 16 physical px, well under the 100px half-extent.
    let mask = ResolvedMask::from_target(&target, CornerRadius::new(single(8.0)));
    assert!(close(float(mask.corner_radius_px), 16.0));
}

#[test]
fn resolved_mask_clamps_radius_to_min_half_extent() {
    let target = Region {
        origin: [0, 0],
        size: [40, 100],
        scale: Scale::new(single(1.0)),
    };
    // A 999pt radius cannot exceed min(half) = min(20, 50) = 20.
    let mask = ResolvedMask::from_target(&target, CornerRadius::new(single(999.0)));
    assert!(close(float(mask.corner_radius_px), 20.0));
}

#[test]
fn blur_request_constructs_by_named_fields() {
    let region = Region {
        origin: [0, 0],
        size: [100, 60],
        scale: Scale::default(),
    };
    let request = BlurRequest {
        source_region: region,
        target_rect: region,
        strength: BlurStrength::new(single(12.0)),
        tint: Tint::new(LinearRgba::new(
            single(0.1),
            single(0.1),
            single(0.12),
            single(0.7),
        )),
        corner_radius: CornerRadius::new(single(10.0)),
        opacity: Opacity::default(),
    };
    assert_eq!(float(request.strength.points()), 12.0);
    assert!(close(float(request.tint.color().a), 0.7));
    assert_eq!(float(request.physical_blur_radius()), 12.0);
}

#[test]
fn an_odd_size_has_a_half_of_a_half_pixel() {
    let target = Region {
        origin: [3, 4],
        size: [7, 0],
        scale: Scale::default(),
    };
    let mask = ResolvedMask::from_target(&target, CornerRadius::new(single(2.0)));
    assert_eq!(float(mask.half_extents[0]), 3.5);
    assert_eq!(float(mask.half_extents[1]), 0.0);
    assert_eq!(float(mask.corner_radius_px), 0.0);
}

#[test]
fn clip_to_keeps_the_origin_and_shrinks_the_size() {
    let region = Region {
        origin: [100, 50],
        size: [100, 80],
        scale: Scale::new(single(2.0)),
    };
    let clipped = region.clip_to([160, 200]).unwrap();
    assert_eq!(clipped.origin, [100, 50]);
    assert_eq!(clipped.size, [60, 80]);
    assert_eq!(clipped.scale, region.scale);
}

#[test]
fn clip_to_holds_exactly_the_shared_pixels() {
    let region = Region {
        origin: [2, 1],
        size: [5, 3],
        scale: Scale::default(),
    };
    let has = |r: &Region, x: u32, y: u32| {
        r.origin[0] <= x && x < r.origin[0] + r.size[0] && r.origin[1] <= y && y < r.origin[1] + r.size[1]
    };
    for extent in [[4, 3], [10, 10], [7, 2], [3, 9]] {
        let clipped = region.clip_to(extent).unwrap();
        for x in 0..12 {
            for y in 0..12 {
                let inside = x < extent[0] && y < extent[1];
                assert_eq!(has(&clipped, x, y), has(&region, x, y) && inside);
            }
        }
    }
}

#[test]
fn clip_to_is_none_for_a_miss() {
    let region = Region {
        origin: [u32::MAX, 0],
        size: [u32::MAX, 4],
        scale: Scale::default(),
    };
    assert!(region.clip_to([10, 10]).is_none());
    let empty = Region {
        origin: [0, 0],
        size: [4, 0],
        scale: Scale::default(),
    };
    assert!(empty.clip_to([10, 10]).is_none());
    assert!(empty.is_empty());
}

#[test]
fn gl_regions_intersect_in_what_they_share() {
    let a = GlRegion::from_bottom_px([10, 20], [30, 40], Scale::new(single(2.0)));
    let b = GlRegion::from_bottom_px([25, 0], [100, 30], Scale::default());
    let shared = a.intersect(&b).unwrap();
    assert_eq!(shared.origin_bl(), [25, 20]);
    assert_eq!(shared.size(), [15, 10]);
    assert_eq!(shared.into_region().scale, Scale::new(single(2.0)));
}

#[test]
fn gl_regions_that_touch_share_nothing() {
    let a = GlRegion::from_bottom_px([0, 0], [10, 10], Scale::default());
    let b = GlRegion::from_bottom_px([10, 0], [10, 10], Scale::default());
    assert!(a.intersect(&b).is_none());
    let empty = GlRegion::from_bottom_px([5, 5], [0, 3], Scale::default());
    assert!(a.intersect(&empty).is_none());
}

#[test]
fn gl_intersection_saturates_at_the_last_coordinate() {
    let a = GlRegion::from_bottom_px([u32::MAX - 1, 0], [10, 10], Scale::default());
    let shared = a.intersect(&a).unwrap();
    assert_eq!(shared.origin_bl(), [u32::MAX - 1, 0]);
    assert_eq!(shared.size(), [1, 10]);
}

#[test]
fn gl_clip_keeps_the_corner() {
    let a = GlRegion::from_bottom_px([10, 20], [30, 40], Scale::default());
    let clipped = a.clip_to([20, 100]).unwrap();
    assert_eq!(clipped.origin_bl(), [10, 20]);
    assert_eq!(clipped.size(), [10, 40]);
    assert!(a.clip_to([10, 100]).is_none());
    assert_eq!(a.into_region().origin, [10, 20]);
}
