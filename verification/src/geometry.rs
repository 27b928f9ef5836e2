//! Geometry in physical pixels, and the request that crosses the seam to a backend.

use vstd::prelude::*;

use crate::material::{BlurStrength, CornerRadius, Opacity, Tint};
use crate::single::{Single, MIN_POSITIVE_BITS, ONE_BITS};

verus! {

/// A logical-to-physical scale factor, always positive.
#[derive(Clone, Copy, Debug, PartialEq)]
pub struct Scale {
    ratio: Single,
}

impl Scale {
    #[verifier::type_invariant]
    spec fn positive(self) -> bool {
        !self.ratio.is_nan() && self.ratio.steps() > 0
    }

    /// The factor.
    pub closed spec fn value(self) -> Single {
        self.ratio
    }

    /// The scale of a factor.
    pub closed spec fn of(factor: Single) -> Scale {
        Scale { ratio: factor.larger_of(Single { bits: MIN_POSITIVE_BITS }) }
    }

    /// A scale from a factor, held above the smallest positive normal number.
    pub fn new(factor: Single) -> (r: Scale)
        ensures
            r == Scale::of(factor),
            r.value() == factor.larger_of(Single { bits: MIN_POSITIVE_BITS }),
    {
        proof {
            crate::single::lemma_magnitude_order(0, MIN_POSITIVE_BITS as int);
        }
        Scale { ratio: factor.larger(Single { bits: MIN_POSITIVE_BITS }) }
    }

    /// The factor, always above zero.
    pub fn factor(self) -> (r: Single)
        ensures
            r == self.value(),
            !r.is_nan(),
            r.steps() > 0,
    {
        proof {
            use_type_invariant(&self);
        }
        self.ratio
    }
}

/// The value of the scale of a factor: the factor, held above the smallest positive normal
/// number.
pub proof fn lemma_scale_of(factor: Single)
    ensures
        Scale::of(factor).value() == factor.larger_of(Single { bits: MIN_POSITIVE_BITS }),
{
}

impl Default for Scale {
    /// One physical pixel per logical point.
    fn default() -> (r: Scale)
        ensures
            r.value() == (Single { bits: ONE_BITS }),
    {
        proof {
            crate::single::lemma_magnitude_order(0, ONE_BITS as int);
        }
        Scale { ratio: Single { bits: ONE_BITS } }
    }
}

/// A physical-pixel rectangle with its own scale.
#[derive(Clone, Copy, Debug, PartialEq)]
pub struct Region {
    /// Top-left corner.
    pub origin: [u32; 2],
    /// Width and height.
    pub size: [u32; 2],
    /// This region's logical-to-physical scale.
    pub scale: Scale,
}

/// Whether pixel `(x, y)` lies in the rectangle at `origin` of the given `size`.
pub open spec fn covers(origin: [u32; 2], size: [u32; 2], x: int, y: int) -> bool {
    origin[0] <= x < origin[0] + size[0] && origin[1] <= y < origin[1] + size[1]
}

/// The overlap of `origin .. origin + size` with `0 .. extent`, for an origin inside.
pub open spec fn shrunk(origin: u32, size: u32, extent: u32) -> int {
    if origin + size <= extent {
        size as int
    } else {
        extent - origin
    }
}

impl Region {
    /// Whether the region has no area or starts at or past the end of the extent.
    pub open spec fn misses(self, extent: [u32; 2]) -> bool {
        self.size[0] == 0 || self.size[1] == 0 || self.origin[0] >= extent[0] || self.origin[1] >= extent[1]
    }

    /// The part of the region inside the extent, if there is any: the origin stays, the size
    /// shrinks.
    pub open spec fn clip(self, extent: [u32; 2]) -> Option<Region> {
        if self.misses(extent) {
            None
        } else {
            Some(
                Region {
                    origin: self.origin,
                    size: [
                        shrunk(self.origin[0], self.size[0], extent[0]) as u32,
                        shrunk(self.origin[1], self.size[1], extent[1]) as u32,
                    ],
                    scale: self.scale,
                },
            )
        }
    }

    /// Whether pixel `(x, y)` lies in the region.
    pub open spec fn holds(self, x: int, y: int) -> bool {
        covers(self.origin, self.size, x, y)
    }

    /// Whether blurring the region is a no-op: it has no area, or it lies outside a texture of
    /// the given extent.
    pub fn is_empty_or_offscreen(&self, source_extent: [u32; 2]) -> (r: bool)
        ensures
            r == self.misses(source_extent),
    {
        self.size[0] == 0 || self.size[1] == 0 || self.origin[0] >= source_extent[0] || self.origin[1]
            >= source_extent[1]
    }

    /// Whether the region has no area.
    pub fn is_empty(&self) -> (r: bool)
        ensures
            r == (self.size[0] == 0 || self.size[1] == 0),
    {
        self.size[0] == 0 || self.size[1] == 0
    }

    /// The part of the region inside a texture of the given extent: the origin stays, the size
    /// shrinks. `None` where nothing is left.
    pub fn clip_to(&self, source_extent: [u32; 2]) -> (r: Option<Region>)
        ensures
            r == self.clip(source_extent),
    {
        if self.is_empty_or_offscreen(source_extent) {
            return None;
        }
        let room_x: u32 = source_extent[0] - self.origin[0];
        let room_y: u32 = source_extent[1] - self.origin[1];
        let width: u32 = if self.size[0] <= room_x { self.size[0] } else { room_x };
        let height: u32 = if self.size[1] <= room_y { self.size[1] } else { room_y };
        let size: [u32; 2] = [width, height];
        assert(size =~= self.clip(source_extent)->0.size);
        Some(Region { origin: self.origin, size, scale: self.scale })
    }
}

/// A region is a no-op exactly where it has no pixel inside the extent.
pub proof fn lemma_misses_has_no_pixel(region: Region, extent: [u32; 2])
    ensures
        region.misses(extent) <==> forall|x: int, y: int|
            !(#[trigger] region.holds(x, y) && x < extent[0] && y < extent[1]),
{
    if !region.misses(extent) {
        assert(region.holds(region.origin[0] as int, region.origin[1] as int));
    }
}

/// Clipping keeps exactly the pixels inside the extent.
pub proof fn lemma_clip_is_intersection(region: Region, extent: [u32; 2], clipped: Region)
    requires
        region.clip(extent) == Some(clipped),
    ensures
        forall|x: int, y: int| #[trigger]
            clipped.holds(x, y) <==> region.holds(x, y) && x < extent[0] && y < extent[1],
        clipped.size[0] > 0,
        clipped.size[1] > 0,
{
}

/// What a shader needs of a target rect: its half extents and the corner radius, held to the
/// smaller half extent so that the rounded rectangle is well formed.
#[derive(Clone, Copy, Debug, PartialEq)]
pub struct ResolvedMask {
    /// Half the target's width and height, in physical pixels.
    pub half_extents: [Single; 2],
    /// The corner radius, in physical pixels.
    pub corner_radius_px: Single,
}

/// The corner radius of a target's mask: scaled to physical pixels and held to the smaller half
/// extent.
pub open spec fn mask_radius(target: Region, corner_radius: CornerRadius) -> Single {
    corner_radius.radius().product(target.scale.value()).clamped(
        Single { bits: 0 },
        Single::half_of(target.size[0]).smaller_of(Single::half_of(target.size[1])),
    )
}

impl ResolvedMask {
    /// The mask of a target rect: its size halved, and the corner radius scaled to physical
    /// pixels and held to the smaller half.
    pub fn from_target(target: &Region, corner_radius: CornerRadius) -> (r: ResolvedMask)
        ensures
            2 * r.half_extents[0].steps() == crate::single::nearest_steps(
                target.size[0] * crate::single::one_steps(),
                1,
            ),
            2 * r.half_extents[1].steps() == crate::single::nearest_steps(
                target.size[1] * crate::single::one_steps(),
                1,
            ),
            r.half_extents[0] == Single::half_of(target.size[0]),
            r.half_extents[1] == Single::half_of(target.size[1]),
            r.corner_radius_px == mask_radius(*target, corner_radius),
            // The radius fits the rect, unless scaling left it undefined.
            !corner_radius.radius().product(target.scale.value()).is_nan() ==> !r.corner_radius_px.is_nan() && 0
                <= r.corner_radius_px.steps() <= r.half_extents[0].steps() && r.corner_radius_px.steps()
                <= r.half_extents[1].steps(),
    {
        let half_width = Single::half_of_u32(target.size[0]);
        let half_height = Single::half_of_u32(target.size[1]);
        proof {
            crate::single::lemma_magnitude_order(half_width.bits as int, 0);
            crate::single::lemma_magnitude_order(half_height.bits as int, 0);
        }
        let max_radius = half_width.smaller(half_height);
        let scaled = corner_radius.points().times(target.scale.factor());
        ResolvedMask {
            half_extents: [half_width, half_height],
            corner_radius_px: scaled.clamp(Single { bits: 0 }, max_radius),
        }
    }
}

/// The one bundle that crosses the seam: where the backdrop lies in the source, where the
/// frosted surface goes in the target, and what glass it is.
#[derive(Clone, Copy, Debug, PartialEq)]
pub struct BlurRequest {
    /// Where the backdrop lies in the source texture.
    pub source_region: Region,
    /// Where to composite the frosted surface in the target.
    pub target_rect: Region,
    /// How much blur.
    pub strength: BlurStrength,
    /// The glass film.
    pub tint: Tint,
    /// How round the corners are.
    pub corner_radius: CornerRadius,
    /// The surface-global fade.
    pub opacity: Opacity,
}

impl BlurRequest {
    /// The blur radius in physical pixels of the source.
    pub fn physical_blur_radius(&self) -> (r: Single)
        ensures
            r == self.strength.radius().product(self.source_region.scale.value()),
    {
        self.strength.to_physical_radius(self.source_region.scale)
    }
}

} // verus!
