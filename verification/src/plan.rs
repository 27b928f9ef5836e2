//! What one frosted surface asks of the GPU: the resources to create, in order, and the render
//! passes to record.

use vstd::prelude::*;

use crate::algorithm::{
    backdrop_uv_remap, kawase_halfpixel, kawase_level_size, resolve_gaussian, use_dual_kawase, PingPongKey,
};
use crate::format::CompositeFormat;
use crate::geometry::{BlurRequest, Region, ResolvedMask};
use crate::material::LinearRgba;
use crate::single::{Single, HALF_BITS, ONE_BITS};

verus! {

/// The color space of the backdrop the host hands in.
#[derive(Clone, Copy, Debug, PartialEq, Eq, Structural)]
pub enum SourceColorSpace {
    /// Gamma-encoded values, to be decoded on sampling.
    GammaSrgb,
    /// Linear values, sampled as they are.
    Linear,
}

/// What the blur must know of the backdrop texture: its size and its color space.
#[derive(Clone, Copy, Debug, PartialEq, Eq)]
pub struct SourceView {
    /// Width and height in physical pixels.
    pub size: [u32; 2],
    /// Whether the values are gamma-encoded or linear.
    pub color_space: SourceColorSpace,
}

/// Two numbers for the two axes.
#[derive(Clone, Copy, Debug, PartialEq)]
pub struct Pair {
    /// Along the width.
    pub x: Single,
    /// Along the height.
    pub y: Single,
}

/// What the composite shader reads.
#[derive(Clone, Copy, Debug, PartialEq)]
pub struct CompositeParams {
    /// Origin of the target rect in physical pixels.
    pub rect_origin_px: Pair,
    /// Size of the target rect in physical pixels.
    pub rect_size_px: Pair,
    /// The glass film.
    pub tint: LinearRgba,
    /// What to add to a scaled target coordinate to sample the backdrop.
    pub backdrop_uv_offset: Pair,
    /// What to scale a target coordinate by first.
    pub backdrop_uv_scale: Pair,
    /// The corner radius in physical pixels.
    pub corner_radius_px: Single,
    /// Whether to encode linear to sRGB.
    pub encode_srgb: bool,
    /// The surface-global fade.
    pub opacity: Single,
}

/// What the Gaussian shader reads.
#[derive(Clone, Copy, Debug, PartialEq)]
pub struct GaussianParams {
    /// What to add to a scaled coordinate to sample the source.
    pub uv_offset: Pair,
    /// What to scale a coordinate by first.
    pub uv_scale: Pair,
    /// The size of a texel in texture coordinates.
    pub texel: Pair,
    /// The direction of the pass.
    pub direction: Pair,
    /// The standard deviation in pixels.
    pub sigma: Single,
    /// The taps on each side of the center.
    pub tap_radius: i32,
    /// Whether to decode sRGB on sampling.
    pub decode_srgb: bool,
}

/// What the down- and upsampling shaders read.
#[derive(Clone, Copy, Debug, PartialEq)]
pub struct KawaseParams {
    /// Half a texel of the sampled mip.
    pub halfpixel: Pair,
}

/// The contents of a uniform buffer.
#[derive(Clone, Copy, Debug, PartialEq)]
pub enum UniformValue {
    /// For the composite.
    Composite(CompositeParams),
    /// For a Gaussian pass.
    Gaussian(GaussianParams),
    /// For a down- or upsampling pass.
    Kawase(KawaseParams),
}

/// Which uniform buffer of a surface.
#[derive(Clone, Copy, Debug, PartialEq, Eq, Hash, Structural)]
pub enum UniformSlot {
    /// The composite's.
    Composite,
    /// The horizontal Gaussian pass's.
    Horizontal,
    /// The vertical Gaussian pass's.
    Vertical,
    /// The prefilter's.
    Prefilter,
    /// That of downsampling pass `i`.
    Down(u32),
    /// That of upsampling pass `j`.
    Up(u32),
}

/// Which bind group of a surface: each belongs to one pass and one uniform buffer.
#[derive(Clone, Copy, Debug, PartialEq, Eq, Hash, Structural)]
pub enum BindSlot {
    /// The composite's.
    Composite,
    /// The horizontal Gaussian pass's.
    Horizontal,
    /// The vertical Gaussian pass's.
    Vertical,
    /// The prefilter's.
    Prefilter,
    /// That of downsampling pass `i`.
    Down(u32),
    /// That of upsampling pass `j`.
    Up(u32),
}

/// A texture that a pass reads or writes.
#[derive(Clone, Copy, Debug, PartialEq, Eq, Hash, Structural)]
pub enum TextureRef {
    /// The host's backdrop.
    Source,
    /// One of the two Gaussian scratch textures.
    Scratch(u32),
    /// A mip of the dual-Kawase pyramid.
    Mip(u32),
    /// The host's composite target.
    Target,
}

/// A GPU resource to create for a surface.
#[derive(Clone, Copy, Debug, PartialEq)]
pub enum Creation {
    /// The composite pipeline for a target format.
    CompositePipeline(CompositeFormat),
    /// A uniform buffer with its contents.
    Uniform(UniformSlot, UniformValue),
    /// Scratch texture `index`, with its width and height.
    Scratch(u32, u32, u32),
    /// The mip of the given level, with its width and height.
    Mip(u32, u32, u32),
    /// A bind group: which texture it samples, with which uniform buffer.
    Bind(BindSlot, TextureRef, UniformSlot),
}

/// What an allocation that the device rejects does to the device.
#[derive(Clone, Copy, Debug, PartialEq, Eq, Structural)]
pub enum OomOutcome {
    /// The device survives; the host may retry.
    Recoverable,
    /// The device is gone.
    DeviceLost,
}

/// How a surface is blurred, with what its passes read.
#[derive(Clone, Copy, Debug, PartialEq)]
pub enum BlurPasses {
    /// A horizontal, then a vertical Gaussian pass.
    Gaussian {
        /// What the horizontal pass reads.
        horizontal: GaussianParams,
        /// What the vertical pass reads.
        vertical: GaussianParams,
    },
    /// A prefilter, then as many downsampling and as many upsampling passes as the key has
    /// levels.
    DualKawase {
        /// What the prefilter reads.
        prefilter: GaussianParams,
    },
}

/// One surface on its way to being prepared: everything resolved, with the position of the next
/// resource to create.
#[derive(Clone, Copy, Debug)]
pub struct Job {
    /// The format of the target.
    pub target: CompositeFormat,
    /// The key of the scratch chain.
    pub key: PingPongKey,
    /// What the composite reads.
    pub composite: CompositeParams,
    /// The blur.
    pub blur: BlurPasses,
    /// Whether the composite pipeline is cached already.
    pub has_pipeline: bool,
    /// Whether the scratch chain is cached already.
    pub has_chain: bool,
    /// How many resources have been created.
    pub next: u64,
}

/// Half a texel of mip `level` of a pyramid with a base of the given size.
pub open spec fn kawase_params(size: [u32; 2], level: u32) -> KawaseParams {
    KawaseParams {
        halfpixel: Pair {
            x: (Single { bits: HALF_BITS }).quotient(
                crate::algorithm::single_of(crate::algorithm::halved(size[0], level as nat) as u32),
            ),
            y: (Single { bits: HALF_BITS }).quotient(
                crate::algorithm::single_of(crate::algorithm::halved(size[1], level as nat) as u32),
            ),
        },
    }
}

/// The creation of mip `level`.
pub open spec fn mip(size: [u32; 2], level: u32) -> Creation {
    Creation::Mip(
        level,
        crate::algorithm::halved(size[0], level as nat) as u32,
        crate::algorithm::halved(size[1], level as nat) as u32,
    )
}

/// The composite pipeline, unless it is cached.
pub open spec fn pipeline_part(job: Job) -> Seq<Creation> {
    if job.has_pipeline {
        seq![]
    } else {
        seq![Creation::CompositePipeline(job.target)]
    }
}

/// The composite's uniform buffer.
pub open spec fn composite_part(job: Job) -> Seq<Creation> {
    seq![Creation::Uniform(UniformSlot::Composite, UniformValue::Composite(job.composite))]
}

/// The textures of the scratch chain, unless they are cached: two of the clipped size for the
/// Gaussian; one for each level and the base for the pyramid.
pub open spec fn chain_part(job: Job) -> Seq<Creation> {
    if job.has_chain {
        seq![]
    } else {
        match job.blur {
            BlurPasses::Gaussian { horizontal, vertical } => seq![
                Creation::Scratch(0, job.key.size[0], job.key.size[1]),
                Creation::Scratch(1, job.key.size[0], job.key.size[1]),
            ],
            BlurPasses::DualKawase { prefilter } => Seq::new(
                (job.key.levels + 1) as nat,
                |i: int| mip(job.key.size, i as u32),
            ),
        }
    }
}

/// The uniform buffers of the blur passes, in the order of the passes.
pub open spec fn uniform_part(job: Job) -> Seq<Creation> {
    match job.blur {
        BlurPasses::Gaussian { horizontal, vertical } => seq![
            Creation::Uniform(UniformSlot::Horizontal, UniformValue::Gaussian(horizontal)),
            Creation::Uniform(UniformSlot::Vertical, UniformValue::Gaussian(vertical)),
        ],
        BlurPasses::DualKawase { prefilter } => seq![
            Creation::Uniform(UniformSlot::Prefilter, UniformValue::Gaussian(prefilter)),
        ] + Seq::new(
            job.key.levels as nat,
            |i: int|
                Creation::Uniform(
                    UniformSlot::Down(i as u32),
                    UniformValue::Kawase(kawase_params(job.key.size, i as u32)),
                ),
        ) + Seq::new(
            job.key.levels as nat,
            |j: int|
                Creation::Uniform(
                    UniformSlot::Up(j as u32),
                    UniformValue::Kawase(kawase_params(job.key.size, (job.key.levels - j) as u32)),
                ),
        ),
    }
}

/// The bind groups of the passes, in the order of the passes.
pub open spec fn bind_part(job: Job) -> Seq<Creation> {
    match job.blur {
        BlurPasses::Gaussian { horizontal, vertical } => seq![
            Creation::Bind(BindSlot::Horizontal, TextureRef::Source, UniformSlot::Horizontal),
            Creation::Bind(BindSlot::Vertical, TextureRef::Scratch(0), UniformSlot::Vertical),
            Creation::Bind(BindSlot::Composite, TextureRef::Scratch(1), UniformSlot::Composite),
        ],
        BlurPasses::DualKawase { prefilter } => seq![
            Creation::Bind(BindSlot::Prefilter, TextureRef::Source, UniformSlot::Prefilter),
        ] + Seq::new(
            job.key.levels as nat,
            |i: int|
                Creation::Bind(
                    BindSlot::Down(i as u32),
                    TextureRef::Mip(i as u32),
                    UniformSlot::Down(i as u32),
                ),
        ) + Seq::new(
            job.key.levels as nat,
            |j: int|
                Creation::Bind(
                    BindSlot::Up(j as u32),
                    TextureRef::Mip((job.key.levels - j) as u32),
                    UniformSlot::Up(j as u32),
                ),
        ) + seq![Creation::Bind(BindSlot::Composite, TextureRef::Mip(0), UniformSlot::Composite)],
    }
}

/// Everything a surface needs created, in order.
pub open spec fn plan(job: Job) -> Seq<Creation> {
    pipeline_part(job) + composite_part(job) + chain_part(job) + uniform_part(job) + bind_part(job)
}

impl Job {
    /// How many textures the scratch chain takes, if it is not cached.
    fn chain_count(&self) -> (r: u64)
        ensures
            r == chain_part(*self).len(),
            r <= 0x1_0000_0000,
    {
        if self.has_chain {
            0
        } else {
            match self.blur {
                BlurPasses::Gaussian { horizontal: _, vertical: _ } => 2,
                BlurPasses::DualKawase { prefilter: _ } => self.key.levels as u64 + 1,
            }
        }
    }

    /// How many resources come before the chain.
    fn lead_count(&self) -> (r: u64)
        ensures
            r == pipeline_part(*self).len() + 1,
    {
        if self.has_pipeline {
            1
        } else {
            2
        }
    }

    /// Whether the resource at position `i` completes the chain, or comes just before a cached
    /// one is looked up.
    pub fn completes_chain_at(&self, i: u64) -> (r: bool)
        ensures
            r == (i == pipeline_part(*self).len() + chain_part(*self).len()),
    {
        i == self.lead_count() - 1 + self.chain_count()
    }

    /// How many resources the surface needs created.
    pub fn total(&self) -> (r: u64)
        ensures
            r == plan(*self).len(),
    {
        let n: u64 = self.key.levels as u64;
        let rest: u64 = match self.blur {
            BlurPasses::Gaussian { horizontal: _, vertical: _ } => 5,
            BlurPasses::DualKawase { prefilter: _ } => 4 * n + 3,
        };
        self.lead_count() + self.chain_count() + rest
    }

    /// What the surface replays once everything is created.
    pub fn prepared(&self) -> (r: PreparedBlur)
        ensures
            r == prepared_blur(*self),
    {
        match self.blur {
            BlurPasses::Gaussian { horizontal: _, vertical: _ } => PreparedBlur::Gaussian { key: self.key },
            BlurPasses::DualKawase { prefilter: _ } => PreparedBlur::DualKawase { key: self.key },
        }
    }

    /// The texture of the scratch chain at position `i`.
    fn chain_texture(&self, i: u64) -> (r: Creation)
        requires
            i < chain_part(*self).len(),
        ensures
            r == chain_part(*self)[i as int],
    {
        match self.blur {
            BlurPasses::Gaussian { horizontal: _, vertical: _ } => Creation::Scratch(
                i as u32,
                self.key.size[0],
                self.key.size[1],
            ),
            BlurPasses::DualKawase { prefilter: _ } => {
                let size = kawase_level_size(self.key.size, i as u32);
                Creation::Mip(i as u32, size[0], size[1])
            },
        }
    }

    /// What a down- or upsampling pass reads that samples mip `level`.
    fn kawase(&self, level: u32) -> (r: UniformValue)
        ensures
            r == UniformValue::Kawase(kawase_params(self.key.size, level)),
    {
        let halfpixel = kawase_halfpixel(kawase_level_size(self.key.size, level));
        UniformValue::Kawase(KawaseParams { halfpixel: Pair { x: halfpixel[0], y: halfpixel[1] } })
    }

    /// The resource at position `i` after the chain.
    fn pass_resource(&self, i: u64) -> (r: Creation)
        requires
            i < uniform_part(*self).len() + bind_part(*self).len(),
        ensures
            r == (uniform_part(*self) + bind_part(*self))[i as int],
    {
        let n: u64 = self.key.levels as u64;
        match self.blur {
            BlurPasses::Gaussian { horizontal, vertical } => {
                if i == 0 {
                    Creation::Uniform(UniformSlot::Horizontal, UniformValue::Gaussian(horizontal))
                } else if i == 1 {
                    Creation::Uniform(UniformSlot::Vertical, UniformValue::Gaussian(vertical))
                } else if i == 2 {
                    Creation::Bind(BindSlot::Horizontal, TextureRef::Source, UniformSlot::Horizontal)
                } else if i == 3 {
                    Creation::Bind(BindSlot::Vertical, TextureRef::Scratch(0), UniformSlot::Vertical)
                } else {
                    Creation::Bind(BindSlot::Composite, TextureRef::Scratch(1), UniformSlot::Composite)
                }
            },
            BlurPasses::DualKawase { prefilter } => {
                if i == 0 {
                    Creation::Uniform(UniformSlot::Prefilter, UniformValue::Gaussian(prefilter))
                } else if i < n + 1 {
                    let k: u32 = (i - 1) as u32;
                    Creation::Uniform(UniformSlot::Down(k), self.kawase(k))
                } else if i < 2 * n + 1 {
                    let k: u32 = (i - 1 - n) as u32;
                    Creation::Uniform(UniformSlot::Up(k), self.kawase(self.key.levels - k))
                } else if i == 2 * n + 1 {
                    Creation::Bind(BindSlot::Prefilter, TextureRef::Source, UniformSlot::Prefilter)
                } else if i < 3 * n + 2 {
                    let k: u32 = (i - 2 * n - 2) as u32;
                    Creation::Bind(BindSlot::Down(k), TextureRef::Mip(k), UniformSlot::Down(k))
                } else if i < 4 * n + 2 {
                    let k: u32 = (i - 3 * n - 2) as u32;
                    Creation::Bind(
                        BindSlot::Up(k),
                        TextureRef::Mip(self.key.levels - k),
                        UniformSlot::Up(k),
                    )
                } else {
                    Creation::Bind(BindSlot::Composite, TextureRef::Mip(0), UniformSlot::Composite)
                }
            },
        }
    }

    /// The resource at position `i`.
    pub fn creation(&self, i: u64) -> (r: Creation)
        requires
            i < plan(*self).len(),
        ensures
            r == plan(*self)[i as int],
    {
        let lead: u64 = self.lead_count();
        let chain: u64 = self.chain_count();
        if i < lead {
            if !self.has_pipeline && i == 0 {
                Creation::CompositePipeline(self.target)
            } else {
                Creation::Uniform(UniformSlot::Composite, UniformValue::Composite(self.composite))
            }
        } else if i < lead + chain {
            self.chain_texture(i - lead)
        } else {
            self.pass_resource(i - lead - chain)
        }
    }
}

/// Only the first part of a plan creates a pipeline.
pub proof fn lemma_pipeline_comes_first(job: Job, i: int)
    requires
        pipeline_part(job).len() <= i < plan(job).len(),
    ensures
        !(plan(job)[i] is CompositePipeline),
{
    let chain = pipeline_part(job).len() + 1;
    let uniforms = chain + chain_part(job).len();
    let binds = uniforms + uniform_part(job).len();
    let list = plan(job);
    if i < chain {
        assert(list[i] == composite_part(job)[0]);
    } else if i < uniforms {
        assert(list[i] == chain_part(job)[i - chain]);
    } else if i < binds {
        assert(list[i] == uniform_part(job)[i - uniforms]);
    } else {
        assert(list[i] == bind_part(job)[i - binds]);
    }
}

/// A point of whole numbers as singles.
pub open spec fn pair_of(v: [u32; 2]) -> Pair {
    Pair { x: crate::algorithm::single_of(v[0]), y: crate::algorithm::single_of(v[1]) }
}

/// The quotients along both axes.
pub open spec fn pair_over(a: Pair, b: Pair) -> Pair {
    Pair { x: a.x.quotient(b.x), y: a.y.quotient(b.y) }
}

/// The same number along both axes.
pub open spec fn both(v: u32) -> Pair {
    Pair { x: Single { bits: v }, y: Single { bits: v } }
}

/// A point of whole numbers as singles.
fn pair(v: [u32; 2]) -> (r: Pair)
    ensures
        r == pair_of(v),
{
    Pair { x: Single::from_u32(v[0]), y: Single::from_u32(v[1]) }
}

impl Pair {
    /// The quotients along both axes.
    fn over(self, other: Pair) -> (r: Pair)
        ensures
            r == pair_over(self, other),
    {
        Pair { x: self.x.over(other.x), y: self.y.over(other.y) }
    }
}

/// What the composite reads for a request whose source was clipped to `clipped`.
pub open spec fn composite_of(request: BlurRequest, clipped: Region, encode_srgb: bool) -> CompositeParams {
    let x = crate::algorithm::axis_remap(
        request.source_region.origin[0],
        request.source_region.size[0],
        clipped.origin[0],
        clipped.size[0],
    );
    let y = crate::algorithm::axis_remap(
        request.source_region.origin[1],
        request.source_region.size[1],
        clipped.origin[1],
        clipped.size[1],
    );
    CompositeParams {
        rect_origin_px: pair_of(request.target_rect.origin),
        rect_size_px: pair_of(request.target_rect.size),
        tint: request.tint.linear(),
        backdrop_uv_offset: Pair { x: x.0, y: y.0 },
        backdrop_uv_scale: Pair { x: x.1, y: y.1 },
        corner_radius_px: crate::geometry::mask_radius(request.target_rect, request.corner_radius),
        encode_srgb,
        opacity: request.opacity.fade(),
    }
}

/// What a pass reads that samples the clipped part of the source, along the width.
pub open spec fn source_pass(source: SourceView, clipped: Region, sigma: Single, tap_radius: i32) -> GaussianParams {
    GaussianParams {
        uv_offset: pair_over(pair_of(clipped.origin), pair_of(source.size)),
        uv_scale: pair_over(pair_of(clipped.size), pair_of(source.size)),
        texel: pair_over(both(ONE_BITS), pair_of(source.size)),
        direction: Pair { x: Single { bits: ONE_BITS }, y: Single { bits: 0 } },
        sigma,
        tap_radius,
        decode_srgb: source.color_space == SourceColorSpace::GammaSrgb,
    }
}

/// What the vertical pass reads: the whole of the first scratch texture, which is linear.
pub open spec fn scratch_pass(clipped: Region, sigma: Single, tap_radius: i32) -> GaussianParams {
    GaussianParams {
        uv_offset: both(0),
        uv_scale: both(ONE_BITS),
        texel: pair_over(both(ONE_BITS), pair_of(clipped.size)),
        direction: Pair { x: Single { bits: 0 }, y: Single { bits: ONE_BITS } },
        sigma,
        tap_radius,
        decode_srgb: false,
    }
}

/// The blur of a physical radius: the Gaussian of that radius below the threshold, the
/// dual-Kawase filter behind a pass-through prefilter from it on.
pub open spec fn blur_of(radius: Single, source: SourceView, clipped: Region) -> BlurPasses {
    if crate::algorithm::takes_dual_kawase(radius) {
        BlurPasses::DualKawase { prefilter: source_pass(source, clipped, Single { bits: HALF_BITS }, 0) }
    } else {
        let kernel = crate::algorithm::gaussian_of(radius);
        BlurPasses::Gaussian {
            horizontal: source_pass(source, clipped, kernel.sigma, kernel.tap_radius),
            vertical: scratch_pass(clipped, kernel.sigma, kernel.tap_radius),
        }
    }
}

/// The blur radius of a request in physical pixels of the source.
pub open spec fn radius_of(request: BlurRequest) -> Single {
    request.strength.radius().product(request.source_region.scale.value())
}

/// The key of the scratch chain for a radius: the clipped size, with one level for the Gaussian.
pub open spec fn key_of(radius: Single, clipped: Region, kawase_levels: u32) -> PingPongKey {
    PingPongKey {
        size: clipped.size,
        levels: if crate::algorithm::takes_dual_kawase(radius) { kawase_levels } else { 1 },
    }
}

/// Resolves the key and the blur of a request.
pub fn resolve_blur(source: &SourceView, request: &BlurRequest, clipped: &Region, kawase_levels: u32) -> (r: (
    PingPongKey,
    BlurPasses,
))
    ensures
        r.0 == key_of(radius_of(*request), *clipped, kawase_levels),
        r.1 == blur_of(radius_of(*request), *source, *clipped),
{
    let radius = request.physical_blur_radius();
    let extent = pair(source.size);
    let one = Pair { x: Single::from_bits(ONE_BITS), y: Single::from_bits(ONE_BITS) };
    let uv_offset = pair(clipped.origin).over(extent);
    let uv_scale = pair(clipped.size).over(extent);
    let texel = one.over(extent);
    let along_width = Pair { x: Single::from_bits(ONE_BITS), y: Single::from_bits(0) };
    let along_height = Pair { x: Single::from_bits(0), y: Single::from_bits(ONE_BITS) };
    let decode_srgb: bool = source.color_space == SourceColorSpace::GammaSrgb;
    if use_dual_kawase(radius) {
        let prefilter = GaussianParams {
            uv_offset,
            uv_scale,
            texel,
            direction: along_width,
            sigma: Single::from_bits(HALF_BITS),
            tap_radius: 0,
            decode_srgb,
        };
        (PingPongKey { size: clipped.size, levels: kawase_levels }, BlurPasses::DualKawase { prefilter })
    } else {
        let kernel = resolve_gaussian(radius);
        let horizontal = GaussianParams {
            uv_offset,
            uv_scale,
            texel,
            direction: along_width,
            sigma: kernel.sigma,
            tap_radius: kernel.tap_radius,
            decode_srgb,
        };
        let vertical = GaussianParams {
            uv_offset: Pair { x: Single::from_bits(0), y: Single::from_bits(0) },
            uv_scale: one,
            texel: one.over(pair(clipped.size)),
            direction: along_height,
            sigma: kernel.sigma,
            tap_radius: kernel.tap_radius,
            decode_srgb: false,
        };
        (PingPongKey { size: clipped.size, levels: 1 }, BlurPasses::Gaussian { horizontal, vertical })
    }
}

/// Resolves what the composite reads.
pub fn resolve_composite(request: &BlurRequest, clipped: &Region, encode_srgb: bool) -> (r: CompositeParams)
    ensures
        r == composite_of(*request, *clipped, encode_srgb),
{
    let remap = backdrop_uv_remap(&request.source_region, clipped);
    let mask = ResolvedMask::from_target(&request.target_rect, request.corner_radius);
    CompositeParams {
        rect_origin_px: pair(request.target_rect.origin),
        rect_size_px: pair(request.target_rect.size),
        tint: request.tint.color(),
        backdrop_uv_offset: Pair { x: remap.offset[0], y: remap.offset[1] },
        backdrop_uv_scale: Pair { x: remap.scale[0], y: remap.scale[1] },
        corner_radius_px: mask.corner_radius_px,
        encode_srgb,
        opacity: request.opacity.value(),
    }
}

/// What a prepared surface replays into its scratch.
#[derive(Clone, Copy, Debug, PartialEq, Eq)]
pub enum PreparedBlur {
    /// Horizontal, then vertical Gaussian; the composite samples the second scratch texture.
    Gaussian {
        /// The key of the scratch chain.
        key: PingPongKey,
    },
    /// Prefilter, downsamples, upsamples; the composite samples mip 0.
    DualKawase {
        /// The key of the pyramid.
        key: PingPongKey,
    },
}

/// The pipeline a pass draws with.
#[derive(Clone, Copy, Debug, PartialEq, Eq, Structural)]
pub enum PassPipeline {
    /// The Gaussian's, which the prefilter shares.
    Gaussian,
    /// The downsampling one.
    Downsample,
    /// The upsampling one.
    Upsample,
    /// The composite's for a target format.
    Composite(CompositeFormat),
}

/// What a pass does with what its attachment held.
#[derive(Clone, Copy, Debug, PartialEq, Eq, Structural)]
pub enum LoadOp {
    /// Clears it to transparent.
    Clear,
    /// Keeps it, to blend over.
    Load,
}

/// One render pass: a triangle over the whole attachment.
#[derive(Clone, Copy, Debug, PartialEq, Eq, Structural)]
pub struct RenderPass {
    /// The pipeline.
    pub pipeline: PassPipeline,
    /// The bind group.
    pub bind: BindSlot,
    /// What is written.
    pub attachment: TextureRef,
    /// What becomes of what was there.
    pub load: LoadOp,
}

/// The passes that blur into the scratch.
pub open spec fn blur_passes(blur: PreparedBlur) -> Seq<RenderPass> {
    match blur {
        PreparedBlur::Gaussian { key } => seq![
            RenderPass {
                pipeline: PassPipeline::Gaussian,
                bind: BindSlot::Horizontal,
                attachment: TextureRef::Scratch(0),
                load: LoadOp::Clear,
            },
            RenderPass {
                pipeline: PassPipeline::Gaussian,
                bind: BindSlot::Vertical,
                attachment: TextureRef::Scratch(1),
                load: LoadOp::Clear,
            },
        ],
        PreparedBlur::DualKawase { key } => seq![
            RenderPass {
                pipeline: PassPipeline::Gaussian,
                bind: BindSlot::Prefilter,
                attachment: TextureRef::Mip(0),
                load: LoadOp::Clear,
            },
        ] + Seq::new(
            key.levels as nat,
            |i: int|
                RenderPass {
                    pipeline: PassPipeline::Downsample,
                    bind: BindSlot::Down(i as u32),
                    attachment: TextureRef::Mip((i + 1) as u32),
                    load: LoadOp::Clear,
                },
        ) + Seq::new(
            key.levels as nat,
            |j: int|
                RenderPass {
                    pipeline: PassPipeline::Upsample,
                    bind: BindSlot::Up(j as u32),
                    attachment: TextureRef::Mip((key.levels - 1 - j) as u32),
                    load: LoadOp::Clear,
                },
        ),
    }
}

/// The pass that puts the frosted surface into the target, over what is there.
pub open spec fn composite_pass(format: CompositeFormat) -> RenderPass {
    RenderPass {
        pipeline: PassPipeline::Composite(format),
        bind: BindSlot::Composite,
        attachment: TextureRef::Target,
        load: LoadOp::Load,
    }
}

/// All passes of a prepared surface, in order.
pub open spec fn passes(blur: PreparedBlur, format: CompositeFormat) -> Seq<RenderPass> {
    blur_passes(blur).push(composite_pass(format))
}

/// Records the blur passes of a prepared surface.
pub fn record_blur(blur: &PreparedBlur) -> (r: Vec<RenderPass>)
    ensures
        r@ == blur_passes(*blur),
{
    let mut list: Vec<RenderPass> = Vec::new();
    match blur {
        PreparedBlur::Gaussian { key: _ } => {
            list.push(
                RenderPass {
                    pipeline: PassPipeline::Gaussian,
                    bind: BindSlot::Horizontal,
                    attachment: TextureRef::Scratch(0),
                    load: LoadOp::Clear,
                },
            );
            list.push(
                RenderPass {
                    pipeline: PassPipeline::Gaussian,
                    bind: BindSlot::Vertical,
                    attachment: TextureRef::Scratch(1),
                    load: LoadOp::Clear,
                },
            );
        },
        PreparedBlur::DualKawase { key } => {
            let n: u32 = key.levels;
            list.push(
                RenderPass {
                    pipeline: PassPipeline::Gaussian,
                    bind: BindSlot::Prefilter,
                    attachment: TextureRef::Mip(0),
                    load: LoadOp::Clear,
                },
            );
            let mut i: u32 = 0;
            while i < n
                invariant
                    i <= n,
                    n == key.levels,
                    *blur == (PreparedBlur::DualKawase { key: *key }),
                    list@ == blur_passes(*blur).take(1 + i),
                decreases n - i,
            {
                list.push(
                    RenderPass {
                        pipeline: PassPipeline::Downsample,
                        bind: BindSlot::Down(i),
                        attachment: TextureRef::Mip(i + 1),
                        load: LoadOp::Clear,
                    },
                );
                i = i + 1;
                assert(list@ =~= blur_passes(*blur).take(1 + i));
            }
            let mut j: u32 = 0;
            while j < n
                invariant
                    j <= n,
                    n == key.levels,
                    *blur == (PreparedBlur::DualKawase { key: *key }),
                    list@ == blur_passes(*blur).take(1 + n + j),
                decreases n - j,
            {
                list.push(
                    RenderPass {
                        pipeline: PassPipeline::Upsample,
                        bind: BindSlot::Up(j),
                        attachment: TextureRef::Mip(n - 1 - j),
                        load: LoadOp::Clear,
                    },
                );
                j = j + 1;
                assert(list@ =~= blur_passes(*blur).take(1 + n + j));
            }
        },
    }
    assert(list@ =~= blur_passes(*blur));
    list
}

/// The texture that a bind group samples.
pub open spec fn sampled(blur: PreparedBlur, slot: BindSlot) -> TextureRef {
    match (blur, slot) {
        (_, BindSlot::Horizontal) => TextureRef::Source,
        (_, BindSlot::Prefilter) => TextureRef::Source,
        (_, BindSlot::Vertical) => TextureRef::Scratch(0),
        (_, BindSlot::Down(i)) => TextureRef::Mip(i),
        (PreparedBlur::DualKawase { key }, BindSlot::Up(j)) => TextureRef::Mip((key.levels - j) as u32),
        (PreparedBlur::Gaussian { key }, BindSlot::Composite) => TextureRef::Scratch(1),
        (PreparedBlur::DualKawase { key }, BindSlot::Composite) => TextureRef::Mip(0),
        (PreparedBlur::Gaussian { key }, BindSlot::Up(j)) => TextureRef::Source,
    }
}

/// The uniform buffer that a bind group reads.
pub open spec fn uniform_of(slot: BindSlot) -> UniformSlot {
    match slot {
        BindSlot::Composite => UniformSlot::Composite,
        BindSlot::Horizontal => UniformSlot::Horizontal,
        BindSlot::Vertical => UniformSlot::Vertical,
        BindSlot::Prefilter => UniformSlot::Prefilter,
        BindSlot::Down(i) => UniformSlot::Down(i),
        BindSlot::Up(j) => UniformSlot::Up(j),
    }
}

/// What a surface replays once its job is done.
pub open spec fn prepared_blur(job: Job) -> PreparedBlur {
    match job.blur {
        BlurPasses::Gaussian { horizontal, vertical } => PreparedBlur::Gaussian { key: job.key },
        BlurPasses::DualKawase { prefilter } => PreparedBlur::DualKawase { key: job.key },
    }
}

/// Data flows in a line: the first pass samples the host's backdrop, and every other pass
/// samples exactly what the pass before it wrote.
pub proof fn lemma_passes_form_a_line(blur: PreparedBlur, format: CompositeFormat)
    ensures
        sampled(blur, passes(blur, format)[0].bind) == TextureRef::Source,
        forall|i: int|
            0 < i < passes(blur, format).len() ==> sampled(blur, (#[trigger] passes(blur, format)[i]).bind)
                == passes(blur, format)[i - 1].attachment,
{
    let list = passes(blur, format);
    assert forall|i: int| 0 < i < list.len() implies sampled(blur, (#[trigger] list[i]).bind) == list[i
        - 1].attachment by {
        lemma_pass_at(blur, format, i);
        lemma_pass_at(blur, format, i - 1);
    }
    lemma_pass_at(blur, format, 0);
}

/// The bind slot and attachment of the pass at a position.
proof fn lemma_pass_at(blur: PreparedBlur, format: CompositeFormat, i: int)
    requires
        0 <= i < passes(blur, format).len(),
    ensures
        (passes(blur, format)[i].bind, passes(blur, format)[i].attachment) == (match blur {
            PreparedBlur::Gaussian { key } => if i == 0 {
                (BindSlot::Horizontal, TextureRef::Scratch(0))
            } else if i == 1 {
                (BindSlot::Vertical, TextureRef::Scratch(1))
            } else {
                (BindSlot::Composite, TextureRef::Target)
            },
            PreparedBlur::DualKawase { key } => if i == 0 {
                (BindSlot::Prefilter, TextureRef::Mip(0))
            } else if i <= key.levels {
                (BindSlot::Down((i - 1) as u32), TextureRef::Mip(i as u32))
            } else if i <= 2 * key.levels {
                (
                    BindSlot::Up((i - 1 - key.levels) as u32),
                    TextureRef::Mip((2 * key.levels - i) as u32),
                )
            } else {
                (BindSlot::Composite, TextureRef::Target)
            },
        }),
        passes(blur, format).len() == (match blur {
            PreparedBlur::Gaussian { key } => 3,
            PreparedBlur::DualKawase { key } => 2 * key.levels + 2,
        }),
{
}

/// No pass samples the texture it writes.
pub proof fn lemma_no_pass_reads_what_it_writes(blur: PreparedBlur, format: CompositeFormat)
    ensures
        forall|i: int|
            0 <= i < passes(blur, format).len() ==> sampled(blur, (#[trigger] passes(blur, format)[i]).bind)
                != passes(blur, format)[i].attachment,
{
}

/// The host's target is written by the last pass alone, which blends over what is there; every
/// other pass clears its attachment.
pub proof fn lemma_only_the_composite_touches_the_target(blur: PreparedBlur, format: CompositeFormat)
    ensures
        forall|i: int|
            0 <= i < passes(blur, format).len() ==> ((#[trigger] passes(blur, format)[i]).attachment
                == TextureRef::Target <==> i == passes(blur, format).len() - 1),
        forall|i: int|
            0 <= i < passes(blur, format).len() ==> ((#[trigger] passes(blur, format)[i]).load == LoadOp::Load
                <==> i == passes(blur, format).len() - 1),
{
}

/// The bind groups a job creates are those its passes use, one for one and in the same order,
/// each sampling what its pass samples.
pub proof fn lemma_binds_match_passes(job: Job)
    ensures
        bind_part(job).len() == passes(prepared_blur(job), job.target).len(),
        forall|i: int|
            0 <= i < bind_part(job).len() ==> #[trigger] bind_part(job)[i] == ({
                let slot = passes(prepared_blur(job), job.target)[i].bind;
                Creation::Bind(slot, sampled(prepared_blur(job), slot), uniform_of(slot))
            }),
{
}

/// Each pass draws with the pipeline of what it does: into a smaller mip it downsamples, into a
/// larger one it upsamples; what samples the backdrop, or one scratch texture into the other, is
/// Gaussian; what writes the target is the composite of its format.
pub proof fn lemma_pipelines_follow_the_textures(blur: PreparedBlur, format: CompositeFormat)
    ensures
        forall|i: int|
            0 <= i < passes(blur, format).len() ==> ({
                let pass = #[trigger] passes(blur, format)[i];
                let from = sampled(blur, pass.bind);
                let to = pass.attachment;
                &&& from == TextureRef::Source ==> pass.pipeline == PassPipeline::Gaussian
                &&& from is Scratch && to is Scratch ==> pass.pipeline == PassPipeline::Gaussian
                &&& from is Mip && to is Mip && to->Mip_0 > from->Mip_0 ==> pass.pipeline == PassPipeline::Downsample
                &&& from is Mip && to is Mip && to->Mip_0 < from->Mip_0 ==> pass.pipeline == PassPipeline::Upsample
                &&& to == TextureRef::Target ==> pass.pipeline == PassPipeline::Composite(format)
                &&& to != TextureRef::Source
            }),
{
    assert forall|i: int| 0 <= i < passes(blur, format).len() implies ({
        let pass = #[trigger] passes(blur, format)[i];
        let from = sampled(blur, pass.bind);
        let to = pass.attachment;
        &&& from == TextureRef::Source ==> pass.pipeline == PassPipeline::Gaussian
        &&& from is Scratch && to is Scratch ==> pass.pipeline == PassPipeline::Gaussian
        &&& from is Mip && to is Mip && to->Mip_0 > from->Mip_0 ==> pass.pipeline == PassPipeline::Downsample
        &&& from is Mip && to is Mip && to->Mip_0 < from->Mip_0 ==> pass.pipeline == PassPipeline::Upsample
        &&& to == TextureRef::Target ==> pass.pipeline == PassPipeline::Composite(format)
        &&& to != TextureRef::Source
    }) by {
        lemma_pass_at(blur, format, i);
    }
}

/// The pyramid is walked down to its deepest mip one level at a time, and back up again one level
/// at a time, before the composite.
pub proof fn lemma_pyramid_is_walked_down_and_up(key: PingPongKey, format: CompositeFormat, i: int)
    requires
        0 < i <= 2 * key.levels,
    ensures
        ({
            let list = passes(PreparedBlur::DualKawase { key }, format);
            &&& list.len() == 2 * key.levels + 2
            &&& list[0].attachment == TextureRef::Mip(0)
            &&& list[key.levels as int].attachment == TextureRef::Mip(key.levels)
            &&& list[2 * key.levels].attachment == TextureRef::Mip(0)
            &&& list[i].attachment is Mip
            &&& list[i - 1].attachment is Mip
            &&& i <= key.levels ==> list[i].attachment->Mip_0 == list[i - 1].attachment->Mip_0 + 1
            &&& i > key.levels ==> list[i].attachment->Mip_0 == list[i - 1].attachment->Mip_0 - 1
        }),
{
    let blur = PreparedBlur::DualKawase { key };
    lemma_pass_at(blur, format, 0);
    lemma_pass_at(blur, format, key.levels as int);
    lemma_pass_at(blur, format, 2 * key.levels);
    lemma_pass_at(blur, format, i);
    lemma_pass_at(blur, format, i - 1);
}

/// A Gaussian surface is drawn in three passes, through both scratch textures.
pub proof fn lemma_gaussian_goes_through_both_textures(key: PingPongKey, format: CompositeFormat)
    ensures
        ({
            let list = passes(PreparedBlur::Gaussian { key }, format);
            &&& list.len() == 3
            &&& list[0].attachment == TextureRef::Scratch(0)
            &&& list[1].attachment == TextureRef::Scratch(1)
            &&& list[2].attachment == TextureRef::Target
        }),
{
}

/// Where the resource at a position of a plan comes from.
proof fn lemma_plan_at(job: Job, i: int)
    requires
        0 <= i < plan(job).len(),
    ensures
        ({
            let lead = pipeline_part(job).len() as int;
            let uniforms = lead + 1 + chain_part(job).len();
            let binds = uniforms + uniform_part(job).len();
            plan(job)[i] == if i < lead {
                pipeline_part(job)[i]
            } else if i == lead {
                composite_part(job)[0]
            } else if i < uniforms {
                chain_part(job)[i - lead - 1]
            } else if i < binds {
                uniform_part(job)[i - uniforms]
            } else {
                bind_part(job)[i - binds]
            }
        }),
{
}

/// Every bind group reads the uniform buffer of its pass: the composite's what the composite is
/// told, that of the pass over the backdrop what that pass reads, that of the second Gaussian
/// pass the vertical parameters, and that of a pass over a mip half a texel of that very mip.
pub proof fn lemma_uniforms_fit_their_passes(
    job: Job,
    i: int,
    j: int,
    slot: BindSlot,
    t: TextureRef,
    u: UniformSlot,
    value: UniformValue,
)
    requires
        0 <= i < plan(job).len(),
        0 <= j < plan(job).len(),
        plan(job)[i] == Creation::Bind(slot, t, u),
        plan(job)[j] == Creation::Uniform(u, value),
    ensures
        slot == BindSlot::Composite ==> value == UniformValue::Composite(job.composite),
        t == TextureRef::Source ==> value == UniformValue::Gaussian(crate::resolved::source_reader(job.blur)),
        t is Scratch && slot != BindSlot::Composite ==> (job.blur matches BlurPasses::Gaussian { vertical, .. }
            && value == UniformValue::Gaussian(vertical)),
        t is Mip && slot != BindSlot::Composite ==> (mip(job.key.size, t->Mip_0) matches Creation::Mip(_, w, h) && (
        value matches UniformValue::Kawase(p) && crate::rounding::near_ratio(p.halfpixel.x, 1, 2 * w)
            && crate::rounding::near_ratio(p.halfpixel.y, 1, 2 * h))),
{
    lemma_plan_at(job, i);
    lemma_plan_at(job, j);
    if t is Mip && slot != BindSlot::Composite {
        let level = t->Mip_0 as nat;
        lemma_halved_range(job.key.size[0], level);
        lemma_halved_range(job.key.size[1], level);
        crate::rounding::lemma_reciprocal_near(crate::algorithm::halved(job.key.size[0], level) as u32);
        crate::rounding::lemma_reciprocal_near(crate::algorithm::halved(job.key.size[1], level) as u32);
    }
}

/// A halved length has at least one pixel and no more than it had.
proof fn lemma_halved_range(length: u32, level: nat)
    ensures
        1 <= crate::algorithm::halved(length, level) <= u32::MAX,
{
    vstd::arithmetic::power2::lemma_pow2_pos(level);
    let p = vstd::arithmetic::power2::pow2(level) as int;
    vstd::arithmetic::div_mod::lemma_div_is_ordered_by_denominator(length as int, 1, p);
}

/// Nothing is made twice: no uniform buffer, no bind group, no texture and no pipeline.
pub proof fn lemma_nothing_is_made_twice(job: Job, i: int, j: int)
    requires
        0 <= i < j < plan(job).len(),
    ensures
        match (plan(job)[i], plan(job)[j]) {
            (Creation::Uniform(a, _), Creation::Uniform(b, _)) => a != b,
            (Creation::Bind(a, _, _), Creation::Bind(b, _, _)) => a != b,
            (Creation::Scratch(a, _, _), Creation::Scratch(b, _, _)) => a != b,
            (Creation::Mip(a, _, _), Creation::Mip(b, _, _)) => a != b,
            (Creation::CompositePipeline(_), Creation::CompositePipeline(_)) => false,
            _ => true,
        },
{
    lemma_plan_at(job, i);
    lemma_plan_at(job, j);
}

/// Nothing cached is made again, and what is made fits: the pipeline is for the target's format,
/// scratch textures have the size of the chain, and mips are that size halved by their level.
pub proof fn lemma_what_is_made_fits(job: Job, i: int)
    requires
        0 <= i < plan(job).len(),
    ensures
        match plan(job)[i] {
            Creation::CompositePipeline(format) => !job.has_pipeline && format == job.target,
            Creation::Scratch(k, w, h) => !job.has_chain && job.blur is Gaussian && k < 2 && w == job.key.size[0] && h
                == job.key.size[1],
            Creation::Mip(k, w, h) => !job.has_chain && job.blur is DualKawase && k <= job.key.levels && w
                == crate::algorithm::halved(job.key.size[0], k as nat) && h == crate::algorithm::halved(
                job.key.size[1],
                k as nat,
            ),
            _ => true,
        },
{
    lemma_plan_at(job, i);
    let lead = pipeline_part(job).len() as int;
    if plan(job)[i] is Mip {
        let k = i - lead - 1;
        lemma_halved_range(job.key.size[0], k as nat);
        lemma_halved_range(job.key.size[1], k as nat);
    }
}

/// Every texture that a pass draws into, but for the target, is made for the surface or cached.
pub proof fn lemma_attachments_exist(job: Job, i: int)
    requires
        0 <= i < passes(prepared_blur(job), job.target).len(),
        passes(prepared_blur(job), job.target)[i].attachment != TextureRef::Target,
    ensures
        job.has_chain || exists|j: int|
            0 <= j < plan(job).len() && makes_texture(
                #[trigger] plan(job)[j],
                passes(prepared_blur(job), job.target)[i].attachment,
            ),
{
    lemma_pass_at(prepared_blur(job), job.target, i);
    let t = passes(prepared_blur(job), job.target)[i].attachment;
    if !job.has_chain {
        let k = match t {
            TextureRef::Scratch(k) => k as int,
            TextureRef::Mip(k) => k as int,
            _ => 0,
        };
        let j = pipeline_part(job).len() + 1 + k;
        lemma_plan_at(job, j);
        assert(makes_texture(plan(job)[j], t));
    }
}

/// Whether a creation makes the uniform buffer `slot`.
pub open spec fn makes_uniform(c: Creation, slot: UniformSlot) -> bool {
    c matches Creation::Uniform(s, _) && s == slot
}

/// Whether a creation makes the texture `t`.
pub open spec fn makes_texture(c: Creation, t: TextureRef) -> bool {
    match (c, t) {
        (Creation::Scratch(i, _, _), TextureRef::Scratch(j)) => i == j,
        (Creation::Mip(i, _, _), TextureRef::Mip(j)) => i == j,
        _ => false,
    }
}

/// A bind group is created after the uniform buffer it reads, and after the texture it samples
/// unless that is the host's or cached.
pub proof fn lemma_binds_follow_what_they_bind(job: Job, i: int, slot: BindSlot, t: TextureRef, u: UniformSlot)
    requires
        0 <= i < plan(job).len(),
        plan(job)[i] == Creation::Bind(slot, t, u),
    ensures
        exists|j: int| 0 <= j < i && makes_uniform(#[trigger] plan(job)[j], u),
        t == TextureRef::Source || job.has_chain || exists|j: int|
            0 <= j < i && makes_texture(#[trigger] plan(job)[j], t),
{
    let lead = pipeline_part(job).len() as int;
    let chain = lead + 1;
    let uniforms = chain + chain_part(job).len();
    let binds = uniforms + uniform_part(job).len();
    let list = plan(job);
    assert(list[lead] == composite_part(job)[0]);
    assert(i >= binds) by {
        if i < lead {
            assert(list[i] == pipeline_part(job)[i]);
        } else if i < chain {
        } else if i < uniforms {
            assert(list[i] == chain_part(job)[i - chain]);
        } else if i < binds {
            assert(list[i] == uniform_part(job)[i - uniforms]);
        }
    }
    assert(list[i] == bind_part(job)[i - binds]);
    let n = job.key.levels as int;
    let at = match u {
        UniformSlot::Composite => lead,
        UniformSlot::Horizontal => uniforms,
        UniformSlot::Vertical => uniforms + 1,
        UniformSlot::Prefilter => uniforms,
        UniformSlot::Down(k) => uniforms + 1 + k,
        UniformSlot::Up(k) => uniforms + 1 + n + k,
    };
    if u != UniformSlot::Composite {
        assert(list[at] == uniform_part(job)[at - uniforms]);
    }
    assert(makes_uniform(list[at], u));
    if t != TextureRef::Source && !job.has_chain {
        let made = match t {
            TextureRef::Scratch(k) => chain + k,
            TextureRef::Mip(k) => chain + k,
            _ => chain,
        };
        assert(list[made] == chain_part(job)[made - chain]);
        assert(makes_texture(list[made], t));
    }
}

/// A backdrop clipped at an edge of the source stays registered with the surface over it: the
/// remap never shifts it, and it is the identity along an axis where nothing was clipped off.
pub proof fn lemma_clipped_backdrop_stays_registered(
    request: BlurRequest,
    extent: [u32; 2],
    clipped: Region,
    encode_srgb: bool,
)
    requires
        request.source_region.clip(extent) == Some(clipped),
    ensures
        composite_of(request, clipped, encode_srgb).backdrop_uv_offset == both(0),
        request.source_region.origin[0] + request.source_region.size[0] <= extent[0] ==> composite_of(
            request,
            clipped,
            encode_srgb,
        ).backdrop_uv_scale.x == (Single { bits: ONE_BITS }),
        request.source_region.origin[1] + request.source_region.size[1] <= extent[1] ==> composite_of(
            request,
            clipped,
            encode_srgb,
        ).backdrop_uv_scale.y == (Single { bits: ONE_BITS }),
{
    let r = request.source_region;
    crate::algorithm::lemma_uv_offset_vanishes(r.origin[0], r.size[0], clipped.size[0]);
    crate::algorithm::lemma_uv_offset_vanishes(r.origin[1], r.size[1], clipped.size[1]);
    if r.origin[0] + r.size[0] <= extent[0] {
        crate::algorithm::lemma_uv_identity_when_unclipped(r.origin[0], r.size[0]);
    }
    if r.origin[1] + r.size[1] <= extent[1] {
        crate::algorithm::lemma_uv_identity_when_unclipped(r.origin[1], r.size[1]);
    }
}

} // verus!
