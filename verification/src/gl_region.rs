//! Regions in GL's bottom-left framebuffer coordinates. The orientation is carried by the type:
//! nothing here turns a `y` upside down.

use vstd::prelude::*;

use crate::geometry::{Region, Scale};

verus! {

/// A physical-pixel rectangle whose origin is its bottom-left corner, counted from the bottom
/// of the framebuffer.
#[derive(Clone, Copy, Debug, PartialEq)]
pub struct GlRegion {
    origin_bl: [u32; 2],
    size: [u32; 2],
    scale: Scale,
}

/// The size of a framebuffer in physical pixels.
#[derive(Clone, Copy, Debug, PartialEq, Eq)]
pub struct FramebufferSize(pub [u32; 2]);

/// The end of `origin .. origin + size`, held to what a coordinate can be.
pub open spec fn end_of(origin: u32, size: u32) -> int {
    if origin + size <= u32::MAX {
        origin + size
    } else {
        u32::MAX as int
    }
}

/// The larger of two coordinates.
pub open spec fn later(a: int, b: int) -> int {
    if a >= b {
        a
    } else {
        b
    }
}

/// The smaller of two coordinates.
pub open spec fn earlier(a: int, b: int) -> int {
    if a <= b {
        a
    } else {
        b
    }
}

/// The overlap of two spans along one axis: where it starts, and how long it is.
fn overlap(a: u32, a_size: u32, b: u32, b_size: u32) -> (r: Option<(u32, u32)>)
    ensures
        r is None <==> later(a as int, b as int) >= earlier(end_of(a, a_size), end_of(b, b_size)),
        r matches Some((start, size)) ==> start == later(a as int, b as int) && start + size == earlier(
            end_of(a, a_size),
            end_of(b, b_size),
        ),
{
    let start: u32 = if a >= b { a } else { b };
    let a_end: u32 = a.saturating_add(a_size);
    let b_end: u32 = b.saturating_add(b_size);
    let end: u32 = if a_end <= b_end { a_end } else { b_end };
    if start >= end {
        None
    } else {
        Some((start, end - start))
    }
}

impl GlRegion {
    /// The bottom-left corner.
    pub closed spec fn corner(self) -> [u32; 2] {
        self.origin_bl
    }

    /// Width and height.
    pub closed spec fn extent(self) -> [u32; 2] {
        self.size
    }

    /// The logical-to-physical scale.
    pub closed spec fn ratio(self) -> Scale {
        self.scale
    }

    /// Whether pixel `(x, y)`, counted from the bottom left, lies in the region.
    pub open spec fn holds(self, x: int, y: int) -> bool {
        crate::geometry::covers(self.corner(), self.extent(), x, y)
    }

    /// A region from a corner already counted from the bottom left.
    pub fn from_bottom_px(origin_bl: [u32; 2], size: [u32; 2], scale: Scale) -> (r: GlRegion)
        ensures
            r.corner() == origin_bl,
            r.extent() == size,
            r.ratio() == scale,
    {
        GlRegion { origin_bl, size, scale }
    }

    /// The bottom-left corner.
    pub fn origin_bl(&self) -> (r: [u32; 2])
        ensures
            r == self.corner(),
    {
        self.origin_bl
    }

    /// Width and height.
    pub fn size(&self) -> (r: [u32; 2])
        ensures
            r == self.extent(),
    {
        self.size
    }

    /// The part shared with another region, at this region's scale. `None` where they share
    /// nothing.
    pub fn intersect(&self, other: &GlRegion) -> (r: Option<GlRegion>)
        ensures
            r is None <==> self.apart(*other),
            r matches Some(c) ==> c.ratio() == self.ratio() && c.is_overlap(*self, *other),
    {
        match overlap(self.origin_bl[0], self.size[0], other.origin_bl[0], other.size[0]) {
            None => None,
            Some((left, width)) => match overlap(
                self.origin_bl[1],
                self.size[1],
                other.origin_bl[1],
                other.size[1],
            ) {
                None => None,
                Some((bottom, height)) => Some(
                    GlRegion { origin_bl: [left, bottom], size: [width, height], scale: self.scale },
                ),
            },
        }
    }

    /// Whether the regions share nothing along some axis.
    pub open spec fn apart(self, other: GlRegion) -> bool {
        ||| later(self.corner()[0] as int, other.corner()[0] as int) >= earlier(
            end_of(self.corner()[0], self.extent()[0]),
            end_of(other.corner()[0], other.extent()[0]),
        )
        ||| later(self.corner()[1] as int, other.corner()[1] as int) >= earlier(
            end_of(self.corner()[1], self.extent()[1]),
            end_of(other.corner()[1], other.extent()[1]),
        )
    }

    /// Whether this is the rectangle that `a` and `b` share.
    pub open spec fn is_overlap(self, a: GlRegion, b: GlRegion) -> bool {
        &&& self.corner()[0] == later(a.corner()[0] as int, b.corner()[0] as int)
        &&& self.corner()[1] == later(a.corner()[1] as int, b.corner()[1] as int)
        &&& self.corner()[0] + self.extent()[0] == earlier(
            end_of(a.corner()[0], a.extent()[0]),
            end_of(b.corner()[0], b.extent()[0]),
        )
        &&& self.corner()[1] + self.extent()[1] == earlier(
            end_of(a.corner()[1], a.extent()[1]),
            end_of(b.corner()[1], b.extent()[1]),
        )
    }

    /// The part inside a framebuffer of the given extent: the corner stays, the size shrinks.
    /// `None` where nothing is left.
    pub fn clip_to(&self, extent: [u32; 2]) -> (r: Option<GlRegion>)
        ensures
            r is None <==> self.misses(extent),
            r matches Some(c) ==> c.corner() == self.corner() && c.ratio() == self.ratio() && c.extent()[0]
                == crate::geometry::shrunk(self.corner()[0], self.extent()[0], extent[0]) && c.extent()[1]
                == crate::geometry::shrunk(self.corner()[1], self.extent()[1], extent[1]),
    {
        match self.into_region().clip_to(extent) {
            None => None,
            Some(c) => Some(GlRegion { origin_bl: c.origin, size: c.size, scale: c.scale }),
        }
    }

    /// Whether the region has no area or starts at or past the end of the extent.
    pub open spec fn misses(self, extent: [u32; 2]) -> bool {
        self.extent()[0] == 0 || self.extent()[1] == 0 || self.corner()[0] >= extent[0] || self.corner()[1]
            >= extent[1]
    }

    /// The same numbers as a [`Region`], for a backend whose whole pipeline counts from the
    /// bottom left.
    pub fn into_region(self) -> (r: Region)
        ensures
            r.origin == self.corner(),
            r.size == self.extent(),
            r.scale == self.ratio(),
    {
        Region { origin: self.origin_bl, size: self.size, scale: self.scale }
    }
}

/// Intersecting keeps exactly the shared pixels, up to the last coordinate that can be told
/// apart from an end.
pub proof fn lemma_intersection_pixels(a: GlRegion, b: GlRegion, c: GlRegion)
    requires
        c.is_overlap(a, b),
    ensures
        forall|x: int, y: int|
            x < u32::MAX && y < u32::MAX ==> (#[trigger] c.holds(x, y) <==> a.holds(x, y) && b.holds(x, y)),
{
}

/// Regions that are apart share no pixel, up to the last coordinate that can be told apart from
/// an end, and regions that share one are not apart.
pub proof fn lemma_apart_pixels(a: GlRegion, b: GlRegion)
    ensures
        a.apart(b) <==> forall|x: int, y: int|
            x < u32::MAX && y < u32::MAX ==> !(#[trigger] a.holds(x, y) && b.holds(x, y)),
{
    if !a.apart(b) {
        let x = later(a.corner()[0] as int, b.corner()[0] as int);
        let y = later(a.corner()[1] as int, b.corner()[1] as int);
        assert(a.holds(x, y));
    }
}

} // verus!
