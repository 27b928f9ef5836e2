//! The grab-pass adapter: the host owns the GL loop, and a paint callback in the middle of a
//! frame grabs what is behind a surface, blurs it, and composites the surface back.

use vstd::prelude::*;

use crate::error::BlurError;
use crate::geometry::{BlurRequest, Scale};
use crate::gl_region::{FramebufferSize, GlRegion};
use crate::liveness::RepaintRequest;
use crate::single::Single;
use crate::surface::{Rect, Surface};

verus! {

/// What a paint callback is told: the rect of its surface and the rect it is clipped to, both in
/// logical points, the scale, and the size of the screen in physical pixels.
#[derive(Clone, Copy, Debug, PartialEq)]
pub struct PaintCallbackInfo {
    /// The rect of the surface.
    pub viewport: Rect,
    /// The rect it is clipped to.
    pub clip_rect: Rect,
    /// Physical pixels per logical point.
    pub pixels_per_point: Single,
    /// Width and height of the screen.
    pub screen_size_px: [u32; 2],
}

/// A rect in whole physical pixels, counted both from the top and from the bottom.
#[derive(Clone, Copy, Debug, PartialEq, Eq, Structural)]
pub struct ViewportInPixels {
    /// Distance from the left edge.
    pub left_px: i32,
    /// Distance from the top edge.
    pub top_px: i32,
    /// Distance from the bottom edge.
    pub from_bottom_px: i32,
    /// Width.
    pub width_px: i32,
    /// Height.
    pub height_px: i32,
}

/// An edge in whole physical pixels: scaled, rounded, and held to the screen.
pub open spec fn edge(points: Single, pixels_per_point: Single, limit: u32) -> int {
    let px = pixels_per_point.product(points).nearest_u32();
    if px <= limit {
        px
    } else {
        limit as int
    }
}

/// The far edge, which is never before the near one.
pub open spec fn far_edge(near: Single, far: Single, pixels_per_point: Single, limit: u32) -> int {
    let a = edge(near, pixels_per_point, limit);
    let b = edge(far, pixels_per_point, limit);
    if b >= a {
        b
    } else {
        a
    }
}

/// A rect of points in whole physical pixels of the screen.
pub open spec fn pixels_of(rect: Rect, pixels_per_point: Single, screen: [u32; 2]) -> ViewportInPixels {
    let left = edge(rect.min[0], pixels_per_point, screen[0]);
    let top = edge(rect.min[1], pixels_per_point, screen[1]);
    let width = far_edge(rect.min[0], rect.max[0], pixels_per_point, screen[0]) - left;
    let height = far_edge(rect.min[1], rect.max[1], pixels_per_point, screen[1]) - top;
    ViewportInPixels {
        left_px: left as i32,
        top_px: top as i32,
        from_bottom_px: (screen[1] - height - top) as i32,
        width_px: width as i32,
        height_px: height as i32,
    }
}

/// Converts a rect to physical pixels with `egui::epaint::ViewportInPixels::from_points`: each
/// edge is multiplied by the scale, rounded to the nearest whole pixel and held to the screen,
/// a far edge not before its near one; the distance from the bottom is what the top and the
/// height leave of the screen. A screen side that does not fit an `i32` makes it panic.
#[verifier::external_body]
fn viewport_in_pixels(rect: &Rect, pixels_per_point: Single, screen: [u32; 2]) -> (r: ViewportInPixels)
    requires
        screen[0] <= i32::MAX,
        screen[1] <= i32::MAX,
    ensures
        r == pixels_of(*rect, pixels_per_point, screen),
{
    let min = egui::pos2(bytemuck::cast(rect.min[0].bits), bytemuck::cast(rect.min[1].bits));
    let max = egui::pos2(bytemuck::cast(rect.max[0].bits), bytemuck::cast(rect.max[1].bits));
    let points = egui::Rect { min, max };
    let scale = bytemuck::cast(pixels_per_point.bits);
    let v = egui::epaint::ViewportInPixels::from_points(&points, scale, screen);
    ViewportInPixels {
        left_px: v.left_px,
        top_px: v.top_px,
        from_bottom_px: v.from_bottom_px,
        width_px: v.width_px,
        height_px: v.height_px,
    }
}

/// An edge is a whole number of pixels on the screen.
proof fn lemma_edge(points: Single, pixels_per_point: Single, limit: u32)
    ensures
        0 <= edge(points, pixels_per_point, limit) <= limit,
{
    let p = pixels_per_point.product(points);
    vstd::arithmetic::power2::lemma_pow2_pos(149);
    if !p.is_nan() && p.steps() >= 0 {
        vstd::arithmetic::div_mod::lemma_div_pos_is_pos(
            2 * p.steps() + crate::single::one_steps(),
            2 * crate::single::one_steps(),
        );
    }
}

/// A rect in physical pixels lies on the screen, and its distances from top and bottom agree.
pub proof fn lemma_pixels_on_screen(rect: Rect, pixels_per_point: Single, screen: [u32; 2])
    requires
        screen[0] <= i32::MAX,
        screen[1] <= i32::MAX,
    ensures
        ({
            let v = pixels_of(rect, pixels_per_point, screen);
            &&& 0 <= v.left_px
            &&& 0 <= v.top_px
            &&& 0 <= v.width_px
            &&& 0 <= v.height_px
            &&& 0 <= v.from_bottom_px
            &&& v.left_px + v.width_px <= screen[0]
            &&& v.top_px + v.height_px + v.from_bottom_px == screen[1]
        }),
{
    lemma_edge(rect.min[0], pixels_per_point, screen[0]);
    lemma_edge(rect.min[1], pixels_per_point, screen[1]);
    lemma_edge(rect.max[0], pixels_per_point, screen[0]);
    lemma_edge(rect.max[1], pixels_per_point, screen[1]);
}

/// A rect in physical pixels as a GL region: the field counted from the bottom is the origin,
/// with nothing turned.
fn to_gl(v: &ViewportInPixels, pixels_per_point: Single) -> (r: GlRegion)
    requires
        0 <= v.left_px,
        0 <= v.from_bottom_px,
        0 <= v.width_px,
        0 <= v.height_px,
    ensures
        r.corner()[0] == v.left_px,
        r.corner()[1] == v.from_bottom_px,
        r.extent()[0] == v.width_px,
        r.extent()[1] == v.height_px,
        r.ratio() == Scale::of(pixels_per_point),
{
    GlRegion::from_bottom_px(
        [v.left_px as u32, v.from_bottom_px as u32],
        [v.width_px as u32, v.height_px as u32],
        Scale::new(pixels_per_point),
    )
}

/// Whether a rect in physical pixels has pixel `(x, y)`, counted from the bottom left.
pub open spec fn has_gl_pixel(v: ViewportInPixels, x: int, y: int) -> bool {
    v.left_px <= x < v.left_px + v.width_px && v.from_bottom_px <= y < v.from_bottom_px + v.height_px
}

/// Whether a rect in physical pixels has pixel `(x, y)`, counted from the top left.
pub open spec fn has_screen_pixel(v: ViewportInPixels, x: int, y: int) -> bool {
    v.left_px <= x < v.left_px + v.width_px && v.top_px <= y < v.top_px + v.height_px
}

/// Turns the geometry of a paint callback into the GL region to grab and composite, with the
/// size of the framebuffer: what the surface, its clip and the framebuffer share. `None` where
/// they share nothing.
pub fn callback_region(info: &PaintCallbackInfo) -> (r: Option<(GlRegion, FramebufferSize)>)
    requires
        info.screen_size_px[0] <= i32::MAX,
        info.screen_size_px[1] <= i32::MAX,
    ensures
        ({
            let v = pixels_of(info.viewport, info.pixels_per_point, info.screen_size_px);
            let c = pixels_of(info.clip_rect, info.pixels_per_point, info.screen_size_px);
            &&& r is None <==> forall|x: int, y: int|
                !(#[trigger] has_gl_pixel(v, x, y) && has_gl_pixel(c, x, y))
            &&& r matches Some((region, framebuffer)) ==> {
                &&& framebuffer.0 == info.screen_size_px
                &&& region.ratio() == Scale::of(info.pixels_per_point)
                &&& region.extent()[0] > 0
                &&& region.extent()[1] > 0
                &&& forall|x: int, y: int| #[trigger]
                    region.holds(x, y) <==> has_gl_pixel(v, x, y) && has_gl_pixel(c, x, y)
            }
        }),
{
    let screen = info.screen_size_px;
    let ghost v = pixels_of(info.viewport, info.pixels_per_point, screen);
    let ghost c = pixels_of(info.clip_rect, info.pixels_per_point, screen);
    proof {
        lemma_pixels_on_screen(info.viewport, info.pixels_per_point, screen);
        lemma_pixels_on_screen(info.clip_rect, info.pixels_per_point, screen);
    }
    let viewport = to_gl(&viewport_in_pixels(&info.viewport, info.pixels_per_point, screen), info.pixels_per_point);
    let clip = to_gl(&viewport_in_pixels(&info.clip_rect, info.pixels_per_point, screen), info.pixels_per_point);
    let shared = match viewport.intersect(&clip) {
        None => {
            return None;
        },
        Some(shared) => shared,
    };
    proof {
        let x = shared.corner()[0] as int;
        let y = shared.corner()[1] as int;
        assert(has_gl_pixel(v, x, y) && has_gl_pixel(c, x, y));
    }
    match shared.clip_to(screen) {
        None => None,
        Some(region) => Some((region, FramebufferSize(screen))),
    }
}

/// The orientation of the callback's region: GL row `y` is screen row `height - 1 - y`. A
/// surface at the top of the screen has the highest rows, with no flip computed anywhere.
pub proof fn lemma_gl_rows_count_from_the_bottom(
    rect: Rect,
    pixels_per_point: Single,
    screen: [u32; 2],
    x: int,
    y: int,
)
    requires
        screen[0] <= i32::MAX,
        screen[1] <= i32::MAX,
    ensures
        ({
            let v = pixels_of(rect, pixels_per_point, screen);
            has_gl_pixel(v, x, y) <==> has_screen_pixel(v, x, screen[1] - 1 - y)
        }),
{
    lemma_pixels_on_screen(rect, pixels_per_point, screen);
}

/// What a callback has to frost.
#[derive(Clone, Copy, Debug, PartialEq)]
pub struct FrostPlan {
    /// The region to grab and composite.
    pub region: GlRegion,
    /// The size of the framebuffer.
    pub framebuffer: FramebufferSize,
    /// The request, in GL coordinates.
    pub request: BlurRequest,
}

/// The adapter's memory between callbacks: whether one has fired since the host last asked, and
/// whether the failure of this episode has been warned of.
#[derive(Debug)]
pub struct GrabPassRenderer {
    ran: bool,
    warned: bool,
}

/// Whether a failure is being warned of already, after a run of outcomes: it is if the last was
/// a failure.
pub open spec fn warned_after(failures: Seq<bool>) -> bool {
    failures.len() > 0 && failures.last()
}

impl GrabPassRenderer {
    /// Whether a callback has fired since the host last asked.
    pub closed spec fn has_run(self) -> bool {
        self.ran
    }

    /// Whether the failure of this episode has been warned of.
    pub closed spec fn has_warned(self) -> bool {
        self.warned
    }

    /// An adapter to which nothing has happened.
    pub fn new() -> (r: GrabPassRenderer)
        ensures
            !r.has_run(),
            !r.has_warned(),
    {
        GrabPassRenderer { ran: false, warned: false }
    }

    /// Whether a callback has fired since the last call; reads and resets. It tells that a
    /// callback ran, not that pixels changed.
    pub fn took_effect(&mut self) -> (r: bool)
        ensures
            r == old(self).has_run(),
            !final(self).has_run(),
            final(self).has_warned() == old(self).has_warned(),
    {
        let ran: bool = self.ran;
        self.ran = false;
        ran
    }

    /// What enqueueing a surface asks of the host's event loop.
    pub fn frost(&self, surface: &Surface) -> (r: RepaintRequest)
        ensures
            r == (match surface.repaint {
                crate::liveness::RepaintPolicy::Static => RepaintRequest::Nothing,
                crate::liveness::RepaintPolicy::Live => RepaintRequest::Now,
                crate::liveness::RepaintPolicy::Bounded(after) => RepaintRequest::After(after),
            }),
    {
        surface.repaint.request()
    }

    /// A callback fires: it is noted first, whatever comes of it. `None` where the surface
    /// clips to nothing.
    pub fn on_callback(&mut self, info: &PaintCallbackInfo, surface: &Surface) -> (r: Option<FrostPlan>)
        requires
            info.screen_size_px[0] <= i32::MAX,
            info.screen_size_px[1] <= i32::MAX,
        ensures
            final(self).has_run(),
            final(self).has_warned() == old(self).has_warned(),
            ({
                let v = pixels_of(info.viewport, info.pixels_per_point, info.screen_size_px);
                let c = pixels_of(info.clip_rect, info.pixels_per_point, info.screen_size_px);
                &&& r is None <==> forall|x: int, y: int|
                    !(#[trigger] has_gl_pixel(v, x, y) && has_gl_pixel(c, x, y))
                &&& r matches Some(plan) ==> {
                    &&& plan.framebuffer.0 == info.screen_size_px
                    &&& plan.region.ratio() == Scale::of(info.pixels_per_point)
                    &&& forall|x: int, y: int| #[trigger]
                        plan.region.holds(x, y) <==> has_gl_pixel(v, x, y) && has_gl_pixel(c, x, y)
                    &&& plan.request.source_region.origin == plan.region.corner()
                    &&& plan.request.source_region.size == plan.region.extent()
                    &&& plan.request.source_region.scale == Scale::of(info.pixels_per_point)
                    &&& plan.request.target_rect == plan.request.source_region
                    &&& plan.request.strength == surface.strength
                    &&& plan.request.tint == surface.tint
                    &&& plan.request.corner_radius == surface.corner_radius
                    &&& plan.request.opacity == surface.opacity
                }
            }),
    {
        self.ran = true;
        match callback_region(info) {
            None => None,
            Some((region, framebuffer)) => Some(
                FrostPlan {
                    region,
                    framebuffer,
                    request: BlurRequest {
                        source_region: region.into_region(),
                        target_rect: region.into_region(),
                        strength: surface.strength,
                        tint: surface.tint,
                        corner_radius: surface.corner_radius,
                        opacity: surface.opacity,
                    },
                },
            ),
        }
    }

    /// What a callback's frost came to. A failure is warned of once per episode: the warning is
    /// returned for the first failure and for no later one until a success.
    pub fn frosted(&mut self, outcome: &Result<(), BlurError>) -> (r: Option<String>)
        ensures
            final(self).has_run() == old(self).has_run(),
            final(self).has_warned() == (outcome is Err),
            r is Some <==> outcome is Err && !old(self).has_warned(),
            r matches Some(s) ==> s@ == "backdrop-blur grab-pass frost failed: "@ + crate::error::error_text(
                outcome->Err_0,
            ),
    {
        match outcome {
            Ok(()) => {
                self.warned = false;
                None
            },
            Err(error) => {
                if self.warned {
                    return None;
                }
                self.warned = true;
                let mut s = String::from_str("backdrop-blur grab-pass frost failed: ");
                s.append(error.to_string().as_str());
                Some(s)
            },
        }
    }
}

/// How many warnings a run of outcomes gives, each failure warned of unless the one before it
/// failed too.
pub open spec fn warnings(failures: Seq<bool>) -> nat
    decreases failures.len(),
{
    if failures.len() == 0 {
        0
    } else {
        let before = failures.drop_last();
        warnings(before) + if failures.last() && !warned_after(before) {
            1nat
        } else {
            0
        }
    }
}

/// A failure that lasts is warned of once, however many frames it lasts.
pub proof fn lemma_one_warning_per_episode(failures: Seq<bool>)
    requires
        forall|i: int| 0 <= i < failures.len() ==> failures[i],
    ensures
        warnings(failures) == if failures.len() > 0 {
            1nat
        } else {
            0
        },
    decreases failures.len(),
{
    if failures.len() > 0 {
        lemma_one_warning_per_episode(failures.drop_last());
    }
}

/// A success re-arms the warning: what fails after it counts as if nothing had gone before.
pub proof fn lemma_success_rearms_warning(before: Seq<bool>, after: Seq<bool>)
    ensures
        warnings(before.push(false) + after) == warnings(before) + warnings(after),
    decreases after.len(),
{
    let all = before.push(false) + after;
    if after.len() == 0 {
        assert(all =~= before.push(false));
        assert(before.push(false).drop_last() =~= before);
    } else {
        lemma_success_rearms_warning(before, after.drop_last());
        assert(all.drop_last() =~= before.push(false) + after.drop_last());
        assert(all.last() == after.last());
        if after.len() == 1 {
            assert(all.drop_last().last() == false);
        } else {
            assert(all.drop_last().last() == after.drop_last().last());
        }
    }
}

} // verus!
