//! A frosted surface as an adapter sees it: a rectangle in logical points with its glass.

use vstd::prelude::*;

use crate::geometry::{BlurRequest, Region, Scale};
use crate::liveness::RepaintPolicy;
use crate::material::{BlurStrength, CornerRadius, Opacity, Tint};
use crate::single::Single;

verus! {

/// A rectangle in logical points, from its top-left to its bottom-right corner.
#[derive(Clone, Copy, Debug, PartialEq)]
pub struct Rect {
    /// Top-left corner.
    pub min: [Single; 2],
    /// Bottom-right corner.
    pub max: [Single; 2],
}

impl Rect {
    /// The width.
    pub fn width(&self) -> (r: Single)
        ensures
            r == self.max[0].difference(self.min[0]),
    {
        self.max[0].minus(self.min[0])
    }

    /// The height.
    pub fn height(&self) -> (r: Single)
        ensures
            r == self.max[1].difference(self.min[1]),
    {
        self.max[1].minus(self.min[1])
    }
}

/// A frosted surface to composite this frame. The backdrop directly behind it is what is
/// blurred.
#[derive(Clone, Copy, Debug)]
pub struct Surface {
    /// Where the surface sits, in logical points.
    pub rect: Rect,
    /// How much blur.
    pub strength: BlurStrength,
    /// The glass film.
    pub tint: Tint,
    /// How round the corners are.
    pub corner_radius: CornerRadius,
    /// The surface-global fade.
    pub opacity: Opacity,
    /// How often the backdrop must be refreshed.
    pub repaint: RepaintPolicy,
}

/// A rectangle of points in physical pixels: origin and size scaled, then rounded to the nearest
/// pixel, what is negative becoming 0.
#[verifier::opaque]
pub open spec fn physical_region(rect: Rect, pixels_per_point: Single) -> Region {
    Region {
        origin: [
            rect.min[0].product(pixels_per_point).nearest_u32() as u32,
            rect.min[1].product(pixels_per_point).nearest_u32() as u32,
        ],
        size: [
            rect.max[0].difference(rect.min[0]).product(pixels_per_point).nearest_u32() as u32,
            rect.max[1].difference(rect.min[1]).product(pixels_per_point).nearest_u32() as u32,
        ],
        scale: Scale::of(pixels_per_point),
    }
}

/// The request of a surface: source and target are the same pixels.
pub open spec fn request_of(surface: Surface, pixels_per_point: Single) -> BlurRequest {
    let region = physical_region(surface.rect, pixels_per_point);
    BlurRequest {
        source_region: region,
        target_rect: region,
        strength: surface.strength,
        tint: surface.tint,
        corner_radius: surface.corner_radius,
        opacity: surface.opacity,
    }
}

impl Surface {
    /// Resolves the surface to physical pixels.
    pub fn request(&self, pixels_per_point: Single) -> (r: BlurRequest)
        ensures
            r == request_of(*self, pixels_per_point),
    {
        reveal(physical_region);
        let origin: [u32; 2] = [
            self.rect.min[0].times(pixels_per_point).round_to_u32(),
            self.rect.min[1].times(pixels_per_point).round_to_u32(),
        ];
        let size: [u32; 2] = [
            self.rect.width().times(pixels_per_point).round_to_u32(),
            self.rect.height().times(pixels_per_point).round_to_u32(),
        ];
        proof {
            let region = physical_region(self.rect, pixels_per_point);
            assert(origin =~= region.origin);
            assert(size =~= region.size);
        }
        let region = Region { origin, size, scale: Scale::new(pixels_per_point) };
        BlurRequest {
            source_region: region,
            target_rect: region,
            strength: self.strength,
            tint: self.tint,
            corner_radius: self.corner_radius,
            opacity: self.opacity,
        }
    }
}

/// The strongest repaint obligation among surfaces: live wins, then the shortest interval, else
/// static.
pub fn strongest_repaint(surfaces: &[Surface]) -> (r: RepaintPolicy)
    ensures
        forall|i: int| 0 <= i < surfaces@.len() ==> r.covers((#[trigger] surfaces@[i]).repaint),
        r == RepaintPolicy::Static || exists|i: int|
            0 <= i < surfaces@.len() && r == (#[trigger] surfaces@[i]).repaint,
{
    let mut strongest = RepaintPolicy::Static;
    let mut i: usize = 0;
    while i < surfaces.len()
        invariant
            i <= surfaces@.len(),
            forall|j: int| 0 <= j < i ==> strongest.covers((#[trigger] surfaces@[j]).repaint),
            strongest == RepaintPolicy::Static || exists|j: int|
                0 <= j < surfaces@.len() && strongest == (#[trigger] surfaces@[j]).repaint,
        decreases surfaces@.len() - i,
    {
        strongest = strongest.stronger(surfaces[i].repaint);
        i = i + 1;
    }
    strongest
}

/// A request carries the glass of its surface, and blurs what is directly behind it.
pub proof fn lemma_request_carries_the_glass(surface: Surface, pixels_per_point: Single)
    ensures
        ({
            let r = request_of(surface, pixels_per_point);
            &&& r.source_region == r.target_rect
            &&& r.strength == surface.strength
            &&& r.tint == surface.tint
            &&& r.corner_radius == surface.corner_radius
            &&& r.opacity == surface.opacity
            &&& r.target_rect.scale == Scale::of(pixels_per_point)
        }),
{
    reveal(physical_region);
}

/// Whether `pixels` is the whole number nearest to `exact` steps.
pub open spec fn nearest_pixel(pixels: u32, exact: int) -> bool {
    let one = crate::single::one_steps();
    2 * (pixels * one - exact) <= one && 2 * (exact - pixels * one) <= one
}

/// A surface on the screen is requested to the nearest pixel: origin and size are those of its
/// rectangle in pixels, rounded, each along its own axis.
pub proof fn lemma_request_is_the_rect_in_pixels(surface: Surface, pixels_per_point: Single, axis: int)
    requires
        0 <= axis < 2,
    ensures
        ({
            let region = request_of(surface, pixels_per_point).target_rect;
            let start = surface.rect.min[axis].product(pixels_per_point);
            let length = surface.rect.max[axis].difference(surface.rect.min[axis]).product(pixels_per_point);
            let top = 0xFFFF_FFFE * crate::single::one_steps();
            &&& !start.is_nan() && 0 <= start.steps() <= top ==> nearest_pixel(region.origin[axis], start.steps())
            &&& !length.is_nan() && 0 <= length.steps() <= top ==> nearest_pixel(region.size[axis], length.steps())
            &&& start.is_nan() || start.steps() <= 0 ==> region.origin[axis] == 0
            &&& length.is_nan() || length.steps() <= 0 ==> region.size[axis] == 0
        }),
{
    reveal(physical_region);
    lemma_nearest_pixel(surface.rect.min[axis].product(pixels_per_point));
    lemma_nearest_pixel(surface.rect.max[axis].difference(surface.rect.min[axis]).product(pixels_per_point));
}

/// Rounding to whole pixels.
proof fn lemma_nearest_pixel(p: Single)
    ensures
        0 <= p.nearest_u32() <= u32::MAX,
        !p.is_nan() && 0 <= p.steps() <= 0xFFFF_FFFE * crate::single::one_steps() ==> nearest_pixel(
            p.nearest_u32() as u32,
            p.steps(),
        ),
        p.is_nan() || p.steps() <= 0 ==> p.nearest_u32() == 0,
{
    let one = crate::single::one_steps();
    vstd::arithmetic::power2::lemma_pow2_pos(149);
    if !p.is_nan() && p.steps() >= 0 {
        let n = 2 * p.steps() + one;
        let w = n / (2 * one);
        vstd::arithmetic::div_mod::lemma_fundamental_div_mod(n, 2 * one);
        vstd::arithmetic::div_mod::lemma_div_pos_is_pos(n, 2 * one);
        assert((2 * one) * w == 2 * (w * one)) by (nonlinear_arith);
        if p.steps() <= 0xFFFF_FFFE * one {
            assert(w <= 0xFFFF_FFFF) by (nonlinear_arith)
                requires
                    n == (2 * one) * w + n % (2 * one),
                    n % (2 * one) >= 0,
                    n <= 0x1_FFFF_FFFD * one,
                    one > 0,
            ;
        }
        if p.steps() == 0 {
            assert(w == 0) by (nonlinear_arith)
                requires
                    n == (2 * one) * w + n % (2 * one),
                    n % (2 * one) >= 0,
                    n == one,
                    w >= 0,
                    one > 0,
            ;
        }
    }
}

} // verus!
