//! What a resolved request means: where each pass samples, how far it reaches, and what the
//! composite is told, stated over the request, the backdrop and the target alone.

use vstd::arithmetic::power2::*;
use vstd::prelude::*;

use crate::format::CompositeFormat;
use crate::geometry::{BlurRequest, Region};
use crate::plan::{BlurPasses, CompositeParams, GaussianParams, SourceColorSpace, SourceView};
use crate::wgpu_blur::BlurState;
use crate::single::{Single, ONE_BITS};

verus! {

/// What the one pass that samples the backdrop reads.
pub open spec fn source_reader(blur: BlurPasses) -> GaussianParams {
    match blur {
        BlurPasses::Gaussian { horizontal, vertical } => horizontal,
        BlurPasses::DualKawase { prefilter } => prefilter,
    }
}

/// Whether a pass maps texture coordinate 0 to `start / extent` and coordinate 1 to
/// `(start + length) / extent` along an axis, up to rounding.
pub open spec fn maps_span(offset: Single, scale: Single, start: int, length: int, extent: int) -> bool {
    let one = crate::single::one_steps();
    let far = (offset.steps() + scale.steps()) * extent;
    let end = (start + length) * one;
    &&& crate::rounding::near_ratio(offset, start, extent)
    &&& crate::rounding::near_ratio(scale, length, extent)
    &&& 0x40_0000 * (far - end) <= end
    &&& 0x40_0000 * (end - far) <= end
}

/// A span is mapped if both of its parts are.
proof fn lemma_span(offset: Single, scale: Single, start: u32, length: u32, extent: u32)
    requires
        extent > 0,
        offset == crate::algorithm::single_of(start).quotient(crate::algorithm::single_of(extent)),
        scale == crate::algorithm::single_of(length).quotient(crate::algorithm::single_of(extent)),
    ensures
        maps_span(offset, scale, start as int, length as int, extent as int),
{
    let one = crate::single::one_steps();
    crate::rounding::lemma_quotient_near(start, extent);
    crate::rounding::lemma_quotient_near(length, extent);
    assert((offset.steps() + scale.steps()) * extent == offset.steps() * extent + scale.steps() * extent)
        by (nonlinear_arith);
    assert((start + length) * one == start * one + length * one) by (nonlinear_arith);
}

/// Whether a pass over the backdrop covers the clipped region and nothing else: coordinate 0 is
/// the region's start, coordinate 1 its end, along both axes. It steps by the backdrop's own
/// texels, along the width, and decodes exactly where the backdrop is gamma-encoded.
pub open spec fn covers_region(p: GaussianParams, source: SourceView, clipped: Region) -> bool {
    &&& maps_span(
        p.uv_offset.x,
        p.uv_scale.x,
        clipped.origin[0] as int,
        clipped.size[0] as int,
        source.size[0] as int,
    )
    &&& maps_span(
        p.uv_offset.y,
        p.uv_scale.y,
        clipped.origin[1] as int,
        clipped.size[1] as int,
        source.size[1] as int,
    )
    &&& crate::rounding::near_ratio(p.texel.x, 1, source.size[0] as int)
    &&& crate::rounding::near_ratio(p.texel.y, 1, source.size[1] as int)
    &&& p.direction.x.steps() == crate::single::one_steps()
    &&& p.direction.y.steps() == 0
    &&& p.decode_srgb <==> source.color_space == SourceColorSpace::GammaSrgb
}

/// Whichever algorithm the radius takes, the pass that samples the backdrop covers the clipped
/// region behind the surface.
pub proof fn lemma_source_pass_covers_the_clipped_region(radius: Single, source: SourceView, clipped: Region)
    requires
        source.size[0] > 0,
        source.size[1] > 0,
    ensures
        covers_region(source_reader(crate::plan::blur_of(radius, source, clipped)), source, clipped),
{
    let p = source_reader(crate::plan::blur_of(radius, source, clipped));
    lemma_span(p.uv_offset.x, p.uv_scale.x, clipped.origin[0], clipped.size[0], source.size[0]);
    lemma_span(p.uv_offset.y, p.uv_scale.y, clipped.origin[1], clipped.size[1], source.size[1]);
    crate::rounding::lemma_reciprocal_near(source.size[0]);
    crate::rounding::lemma_reciprocal_near(source.size[1]);
    lemma_one();
}

/// The number one, and zero, in steps.
proof fn lemma_one()
    ensures
        (Single { bits: ONE_BITS }).steps() == crate::single::one_steps(),
        (Single { bits: 0 }).steps() == 0,
        crate::single::one_steps() > 0,
{
    lemma_pow2_pos(149);
    lemma_pow2_adds(23, 126);
    lemma2_to64();
}

/// Whether two passes are one kernel, drawn along one axis and then along the other: both have
/// the same standard deviation and the same taps. The second covers the whole scratch, at the
/// scratch's own texels, and decodes nothing, the scratch being linear.
pub open spec fn one_kernel(horizontal: GaussianParams, vertical: GaussianParams, scratch: [u32; 2]) -> bool {
    let one = crate::single::one_steps();
    &&& horizontal.sigma == vertical.sigma
    &&& horizontal.tap_radius == vertical.tap_radius
    &&& horizontal.direction.x.steps() == one && horizontal.direction.y.steps() == 0
    &&& vertical.direction.x.steps() == 0 && vertical.direction.y.steps() == one
    &&& vertical.uv_offset.x.steps() == 0 && vertical.uv_offset.y.steps() == 0
    &&& vertical.uv_scale.x.steps() == one && vertical.uv_scale.y.steps() == one
    &&& crate::rounding::near_ratio(vertical.texel.x, 1, scratch[0] as int)
    &&& crate::rounding::near_ratio(vertical.texel.y, 1, scratch[1] as int)
    &&& !vertical.decode_srgb
}

/// A Gaussian blur is one kernel, that of the radius, drawn along one axis and then along the
/// other.
pub proof fn lemma_gaussian_passes_share_the_kernel(radius: Single, source: SourceView, clipped: Region)
    requires
        clipped.size[0] > 0,
        clipped.size[1] > 0,
    ensures
        crate::plan::blur_of(radius, source, clipped) matches BlurPasses::Gaussian { horizontal, vertical } ==> {
            &&& one_kernel(horizontal, vertical, clipped.size)
            &&& vertical.sigma == crate::algorithm::gaussian_of(radius).sigma
            &&& vertical.tap_radius == crate::algorithm::gaussian_of(radius).tap_radius
        },
{
    crate::rounding::lemma_reciprocal_near(clipped.size[0]);
    crate::rounding::lemma_reciprocal_near(clipped.size[1]);
    lemma_one();
}

/// A radius of 16 pixels or more takes the dual-Kawase filter, whose prefilter is a pass-through
/// of a single tap; every other radius takes the Gaussian.
pub proof fn lemma_algorithm_follows_the_radius(radius: Single, source: SourceView, clipped: Region)
    requires
        !radius.is_nan(),
    ensures
        crate::plan::blur_of(radius, source, clipped) is DualKawase <==> radius.steps() >= 16
            * crate::single::one_steps(),
        crate::plan::blur_of(radius, source, clipped) matches BlurPasses::DualKawase { prefilter }
            ==> prefilter.tap_radius == 0 && 2 * prefilter.sigma.steps() == crate::single::one_steps(),
{
    lemma_one();
    lemma_pow2_adds(23, 130);
    lemma_pow2_adds(4, 149);
    lemma_pow2_adds(23, 125);
    lemma2_to64();
    lemma_pow2_unfold(149);
}

/// A chain is as large as the clipped region, and two surfaces share one exactly if they have the
/// same clipped size and, for the dual-Kawase filter, the same number of halvings.
pub proof fn lemma_key_is_size_and_depth(r1: Single, c1: Region, n1: u32, r2: Single, c2: Region, n2: u32)
    requires
        crate::algorithm::takes_dual_kawase(r1) == crate::algorithm::takes_dual_kawase(r2),
    ensures
        crate::plan::key_of(r1, c1, n1).size == c1.size,
        crate::algorithm::takes_dual_kawase(r1) ==> crate::plan::key_of(r1, c1, n1).levels == n1,
        crate::plan::key_of(r1, c1, n1) == crate::plan::key_of(r2, c2, n2) <==> c1.size == c2.size && (
        crate::algorithm::takes_dual_kawase(r1) ==> n1 == n2),
{
}

/// The blur radius is the strength times the scale of the source, up to rounding, wherever the
/// target may lie and whatever its scale.
pub proof fn lemma_radius_follows_strength_and_source(request: BlurRequest)
    requires
        request.strength.radius().is_finite(),
        request.strength.radius().steps() >= 0,
        request.source_region.scale.value().is_finite(),
        request.source_region.scale.value().steps() >= 0,
        request.strength.radius().steps() * request.source_region.scale.value().steps() < pow2(200)
            * crate::single::one_steps(),
    ensures
        crate::rounding::near_product(
            crate::plan::radius_of(request),
            request.strength.radius(),
            request.source_region.scale.value(),
        ),
{
    crate::rounding::lemma_product_near(request.strength.radius(), request.source_region.scale.value());
}

/// Whether the composite is told the request: the film channel by channel, the target rect in its
/// own pixels, the fade and the encoding as they are. The source is as much longer than the
/// clipped backdrop as the remap says, and nothing is shifted.
pub open spec fn tells_request(c: CompositeParams, request: BlurRequest, clipped: Region, encode_srgb: bool) -> bool {
    let film = request.tint.linear();
    &&& c.tint.r == film.r
    &&& c.tint.g == film.g
    &&& c.tint.b == film.b
    &&& c.tint.a == film.a
    &&& crate::rounding::near_ratio(c.rect_origin_px.x, request.target_rect.origin[0] as int, 1)
    &&& crate::rounding::near_ratio(c.rect_origin_px.y, request.target_rect.origin[1] as int, 1)
    &&& crate::rounding::near_ratio(c.rect_size_px.x, request.target_rect.size[0] as int, 1)
    &&& crate::rounding::near_ratio(c.rect_size_px.y, request.target_rect.size[1] as int, 1)
    &&& c.backdrop_uv_offset.x.steps() == 0
    &&& c.backdrop_uv_offset.y.steps() == 0
    &&& crate::rounding::near_ratio(
        c.backdrop_uv_scale.x,
        request.source_region.size[0] as int,
        clipped.size[0] as int,
    )
    &&& crate::rounding::near_ratio(
        c.backdrop_uv_scale.y,
        request.source_region.size[1] as int,
        clipped.size[1] as int,
    )
    &&& c.encode_srgb == encode_srgb
    &&& c.opacity == request.opacity.fade()
}

/// The composite is told the request.
pub proof fn lemma_composite_reads_the_request(
    request: BlurRequest,
    extent: [u32; 2],
    clipped: Region,
    encode_srgb: bool,
)
    requires
        request.source_region.clip(extent) == Some(clipped),
    ensures
        tells_request(crate::plan::composite_of(request, clipped, encode_srgb), request, clipped, encode_srgb),
{
    let r = request.source_region;
    crate::plan::lemma_clipped_backdrop_stays_registered(request, extent, clipped, encode_srgb);
    crate::rounding::lemma_whole_near(request.target_rect.origin[0]);
    crate::rounding::lemma_whole_near(request.target_rect.origin[1]);
    crate::rounding::lemma_whole_near(request.target_rect.size[0]);
    crate::rounding::lemma_whole_near(request.target_rect.size[1]);
    crate::rounding::lemma_quotient_near(r.size[0], clipped.size[0]);
    crate::rounding::lemma_quotient_near(r.size[1], clipped.size[1]);
    lemma_one();
}

/// The corner radius of the composite is the request's, in pixels of the target, as long as it
/// fits; else it is half of the target's shorter side.
pub proof fn lemma_composite_corner_fits_the_target(request: BlurRequest, clipped: Region, encode_srgb: bool)
    requires
        !request.corner_radius.radius().product(request.target_rect.scale.value()).is_nan(),
        request.corner_radius.radius().product(request.target_rect.scale.value()).steps() >= 0,
    ensures
        ({
            let c = crate::plan::composite_of(request, clipped, encode_srgb).corner_radius_px;
            let scaled = request.corner_radius.radius().product(request.target_rect.scale.value());
            let width = crate::algorithm::single_of(request.target_rect.size[0]).steps();
            let height = crate::algorithm::single_of(request.target_rect.size[1]).steps();
            &&& 2 * c.steps() <= width
            &&& 2 * c.steps() <= height
            &&& 2 * scaled.steps() <= width && 2 * scaled.steps() <= height ==> c == scaled
            &&& 2 * scaled.steps() > width || 2 * scaled.steps() > height ==> 2 * c.steps() == width || 2 * c.steps()
                == height
        }),
{
    lemma_half(request.target_rect.size[0]);
    lemma_half(request.target_rect.size[1]);
    lemma_one();
}

/// The job of a request is the request: it samples the clipped region of the backdrop, blurs by
/// the kernel of the radius or by the pyramid asked for, in a chain of the clipped size, and
/// composites what the request says into the target's format. What is cached is not made again.
pub proof fn lemma_job_is_the_request(
    s: BlurState,
    source: SourceView,
    target: CompositeFormat,
    encode_srgb: bool,
    request: BlurRequest,
    clipped: Region,
    kawase_levels: u32,
)
    requires
        request.source_region.clip(source.size) == Some(clipped),
    ensures
        ({
            let job = crate::wgpu_blur::job_for(s, source, target, encode_srgb, request, clipped, kawase_levels);
            let kernel = crate::algorithm::gaussian_of(crate::plan::radius_of(request));
            &&& covers_region(source_reader(job.blur), source, clipped)
            &&& tells_request(job.composite, request, clipped, encode_srgb)
            &&& job.key.size == clipped.size
            &&& job.target == target
            &&& job.next == 0
            &&& job.has_pipeline <==> s.formats.contains(target)
            &&& job.blur matches BlurPasses::Gaussian { horizontal, vertical } ==> {
                &&& one_kernel(horizontal, vertical, clipped.size)
                &&& horizontal.sigma == kernel.sigma
                &&& horizontal.tap_radius == kernel.tap_radius
                &&& job.has_chain <==> s.scratch.contains_key(job.key)
            }
            &&& job.blur matches BlurPasses::DualKawase { prefilter } ==> {
                &&& prefilter.tap_radius == 0
                &&& job.key.levels == kawase_levels
                &&& job.has_chain <==> s.pyramids.contains_key(job.key)
            }
        }),
{
    let radius = crate::plan::radius_of(request);
    lemma_source_pass_covers_the_clipped_region(radius, source, clipped);
    lemma_gaussian_passes_share_the_kernel(radius, source, clipped);
    lemma_composite_reads_the_request(request, source.size, clipped, encode_srgb);
}

/// Half of a whole number as a single.
proof fn lemma_half(n: u32)
    ensures
        !Single::half_of(n).is_nan(),
        Single::half_of(n).steps() >= 0,
        2 * Single::half_of(n).steps() == crate::algorithm::single_of(n).steps(),
{
    crate::rounding::lemma_whole_near(n);
    let whole = crate::algorithm::single_of(n);
    let span = crate::single::FRACTION_SPAN as int;
    lemma_one();
    assert(n * crate::single::one_steps() >= 0) by (nonlinear_arith)
        requires
            n >= 0,
            crate::single::one_steps() > 0,
    ;
    crate::single::lemma_nearest_bits(n * crate::single::one_steps(), 1);
    if n > 0 {
        crate::single::lemma_magnitude_order(whole.magnitude_bits(), ONE_BITS as int);
        let bits = whole.bits - crate::single::FRACTION_SPAN;
        let e = whole.bits as int / span;
        assert(bits / span == e - 1);
        assert(bits % span == whole.bits as int % span);
        lemma_pow2_unfold((e - 1) as nat);
        let m = span + whole.bits as int % span;
        assert(m * pow2((e - 1) as nat) == 2 * (m * pow2((e - 2) as nat))) by (nonlinear_arith)
            requires
                pow2((e - 1) as nat) == 2 * pow2((e - 2) as nat),
        ;
        crate::single::lemma_magnitude_order(bits, 0);
    }
}

} // verus!
