//! The seam: what a GPU backend implements, and the loop that drives one over the surfaces of a
//! frame.

use vstd::prelude::*;

use crate::error::BlurError;
use crate::geometry::BlurRequest;
use crate::gl_region::GlRegion;
use crate::single::Single;
use crate::surface::Surface;

verus! {

/// A GPU backend, in two phases: preparing uploads and allocates, recording only records. Each
/// surface is prepared and recorded before the next.
///
/// An implementation says by two relations what its phases can do. Unless it says more, they
/// can do anything.
pub trait BackdropBlur: Sized {
    /// The GPU device.
    type Device;

    /// The upload queue.
    type Queue;

    /// What commands are recorded into.
    type Encoder;

    /// A backdrop that can be sampled.
    type SourceTexture;

    /// Where a surface is composited.
    type Target;

    /// What preparing must know of the target.
    type TargetFormat;

    /// The owned handle from preparing to recording.
    type Prepared;

    /// Whether preparing in state `pre` can end in state `post` with `result`.
    open spec fn prepares(
        pre: Self,
        device: Self::Device,
        queue: Self::Queue,
        source: Self::SourceTexture,
        target_format: Self::TargetFormat,
        request: BlurRequest,
        post: Self,
        result: Result<Option<Self::Prepared>, BlurError>,
    ) -> bool {
        true
    }

    /// Whether recording can turn `before` into `after` with `result`.
    open spec fn records(
        blur: Self,
        before: Self::Encoder,
        target: Self::Target,
        prepared: Self::Prepared,
        after: Self::Encoder,
        result: Result<(), BlurError>,
    ) -> bool {
        true
    }

    /// Prepares a surface. `Ok(None)` is a no-op: the region clips to nothing, and there is
    /// nothing to record.
    fn prepare(
        &mut self,
        device: &Self::Device,
        queue: &Self::Queue,
        source: &Self::SourceTexture,
        target_format: Self::TargetFormat,
        request: &BlurRequest,
    ) -> (r: Result<Option<Self::Prepared>, BlurError>)
        ensures
            Self::prepares(*old(self), *device, *queue, *source, target_format, *request, *final(self), r),
    ;

    /// Records a prepared surface into a target other than the source it samples.
    fn record(
        &self,
        encoder: &mut Self::Encoder,
        target: &Self::Target,
        prepared: &Self::Prepared,
    ) -> (r: Result<(), BlurError>)
        ensures
            Self::records(*self, *old(encoder), *target, *prepared, *final(encoder), r),
    ;
}

/// A backend that can also grab its source out of a live framebuffer.
pub trait GrabPass: BackdropBlur {
    /// The framebuffer to grab from.
    type Framebuffer;

    /// Produces a sampleable source from a region of the framebuffer. The region is in GL
    /// coordinates already, so nothing is flipped here.
    fn grab_source(
        &mut self,
        device: &Self::Device,
        queue: &Self::Queue,
        framebuffer: &Self::Framebuffer,
        region: GlRegion,
    ) -> (r: Result<Self::SourceTexture, BlurError>);
}

/// What a frame hands to a backend for all of its surfaces.
pub struct SeamContext<'a, B: BackdropBlur> {
    /// The device.
    pub device: &'a B::Device,
    /// The queue.
    pub queue: &'a B::Queue,
    /// What commands are recorded into.
    pub encoder: &'a mut B::Encoder,
    /// The backdrop.
    pub source: &'a B::SourceTexture,
    /// The target.
    pub target: &'a B::Target,
    /// What preparing must know of the target.
    pub target_format: B::TargetFormat,
}

/// What stays the same over all surfaces of a frame.
pub struct Seam<B: BackdropBlur> {
    /// The device.
    pub device: B::Device,
    /// The queue.
    pub queue: B::Queue,
    /// The backdrop.
    pub source: B::SourceTexture,
    /// The target.
    pub target: B::Target,
    /// What preparing must know of the target.
    pub target_format: B::TargetFormat,
}

/// What stays the same of a context.
pub open spec fn seam_of<B: BackdropBlur>(ctx: SeamContext<'_, B>) -> Seam<B> {
    Seam {
        device: *ctx.device,
        queue: *ctx.queue,
        source: *ctx.source,
        target: *ctx.target,
        target_format: ctx.target_format,
    }
}

/// Whether a surface can take the backend from `pre` to `post` and the encoder from `before` to
/// `after` without an error, recorded or not.
pub open spec fn surface_done<B: BackdropBlur>(
    seam: Seam<B>,
    request: BlurRequest,
    pre: B,
    before: B::Encoder,
    post: B,
    after: B::Encoder,
    recorded: bool,
) -> bool {
    if recorded {
        exists|handle: B::Prepared, outcome: Result<(), BlurError>|
            B::prepares(
                pre,
                seam.device,
                seam.queue,
                seam.source,
                seam.target_format,
                request,
                post,
                Ok(Some(handle)),
            ) && #[trigger] B::records(post, before, seam.target, handle, after, outcome) && outcome is Ok
    } else {
        after == before && B::prepares(
            pre,
            seam.device,
            seam.queue,
            seam.source,
            seam.target_format,
            request,
            post,
            Ok(None),
        )
    }
}

/// Whether a surface can fail with `error`, in preparing or in recording.
pub open spec fn surface_failed<B: BackdropBlur>(
    seam: Seam<B>,
    request: BlurRequest,
    pre: B,
    before: B::Encoder,
    post: B,
    after: B::Encoder,
    error: BlurError,
) -> bool {
    ||| after == before && B::prepares(
        pre,
        seam.device,
        seam.queue,
        seam.source,
        seam.target_format,
        request,
        post,
        Err(error),
    )
    ||| exists|handle: B::Prepared|
        B::prepares(
            pre,
            seam.device,
            seam.queue,
            seam.source,
            seam.target_format,
            request,
            post,
            Ok(Some(handle)),
        ) && #[trigger] B::records(post, before, seam.target, handle, after, Err(error))
}

/// A moment between two surfaces: the backend, the encoder, and how many surfaces have been
/// recorded.
pub struct Moment<B: BackdropBlur> {
    /// The backend.
    pub blur: B,
    /// The encoder.
    pub encoder: B::Encoder,
    /// The count.
    pub recorded: nat,
}

/// Whether `trace` goes through the surfaces in order, one moment before each and one at the
/// end, each prepared once and recorded once if there was something to record.
pub open spec fn composited<B: BackdropBlur>(
    seam: Seam<B>,
    surfaces: Seq<Surface>,
    pixels_per_point: Single,
    trace: Seq<Moment<B>>,
) -> bool {
    &&& trace.len() == surfaces.len() + 1
    &&& trace[0].recorded == 0
    &&& forall|i: int|
        0 <= i < surfaces.len() ==> #[trigger] moves(seam, surfaces, pixels_per_point, trace, i)
}

/// Whether surface `i` takes moment `i` of a trace to the next.
pub open spec fn moves<B: BackdropBlur>(
    seam: Seam<B>,
    surfaces: Seq<Surface>,
    pixels_per_point: Single,
    trace: Seq<Moment<B>>,
    i: int,
) -> bool {
    let m = trace[i];
    let n = trace[i + 1];
    let request = crate::surface::request_of(surfaces[i], pixels_per_point);
    ||| n.recorded == m.recorded && surface_done(seam, request, m.blur, m.encoder, n.blur, n.encoder, false)
    ||| n.recorded == m.recorded + 1 && surface_done(seam, request, m.blur, m.encoder, n.blur, n.encoder, true)
}

/// A trace through some surfaces, extended by one more.
proof fn lemma_extend<B: BackdropBlur>(
    seam: Seam<B>,
    surfaces: Seq<Surface>,
    pixels_per_point: Single,
    trace: Seq<Moment<B>>,
    k: int,
    next: Moment<B>,
)
    requires
        0 <= k < surfaces.len(),
        composited(seam, surfaces.take(k), pixels_per_point, trace),
        ({
            let m = trace.last();
            let request = crate::surface::request_of(surfaces[k], pixels_per_point);
            ||| next.recorded == m.recorded && surface_done(
                seam,
                request,
                m.blur,
                m.encoder,
                next.blur,
                next.encoder,
                false,
            )
            ||| next.recorded == m.recorded + 1 && surface_done(
                seam,
                request,
                m.blur,
                m.encoder,
                next.blur,
                next.encoder,
                true,
            )
        }),
    ensures
        composited(seam, surfaces.take(k + 1), pixels_per_point, trace.push(next)),
{
    let done = surfaces.take(k);
    let more = surfaces.take(k + 1);
    let longer = trace.push(next);
    assert forall|j: int| 0 <= j < more.len() implies #[trigger] moves(seam, more, pixels_per_point, longer, j) by {
        if j < k {
            assert(moves(seam, done, pixels_per_point, trace, j));
            assert(more[j] == done[j]);
            assert(longer[j] == trace[j]);
            assert(longer[j + 1] == trace[j + 1]);
        }
    }
}

/// Prepares one surface and records it if there is something to record. Returns whether it was
/// recorded.
fn composite_surface<B: BackdropBlur>(
    blur: &mut B,
    device: &B::Device,
    queue: &B::Queue,
    source: &B::SourceTexture,
    target: &B::Target,
    target_format: B::TargetFormat,
    encoder: &mut B::Encoder,
    request: &BlurRequest,
    Ghost(seam): Ghost<Seam<B>>,
) -> (r: Result<bool, BlurError>)
    requires
        *device == seam.device,
        *queue == seam.queue,
        *source == seam.source,
        *target == seam.target,
        target_format == seam.target_format,
    ensures
        match r {
            Ok(recorded) => surface_done(
                seam,
                *request,
                *old(blur),
                *old(encoder),
                *final(blur),
                *final(encoder),
                recorded,
            ),
            Err(error) => surface_failed(
                seam,
                *request,
                *old(blur),
                *old(encoder),
                *final(blur),
                *final(encoder),
                error,
            ),
        },
{
    match blur.prepare(device, queue, source, target_format, request) {
        Err(error) => Err(error),
        Ok(None) => Ok(false),
        Ok(Some(prepared)) => match blur.record(encoder, target, &prepared) {
            Err(error) => Err(error),
            Ok(()) => Ok(true),
        },
    }
}

/// Prepares each surface in order and records it if there is something to record. Stops at the
/// first error. Returns how many surfaces were recorded.
pub fn composite_surfaces<B: BackdropBlur>(
    blur: &mut B,
    ctx: SeamContext<'_, B>,
    surfaces: &[Surface],
    pixels_per_point: Single,
) -> (r: Result<usize, BlurError>) where B::TargetFormat: Copy
    ensures
        match r {
            Ok(count) => exists|trace: Seq<Moment<B>>| #[trigger]
                composited(seam_of(ctx), surfaces@, pixels_per_point, trace) && trace[0].blur == *old(blur)
                    && trace[0].encoder == *old(ctx.encoder) && trace.last() == (Moment {
                    blur: *final(blur),
                    encoder: *final(ctx.encoder),
                    recorded: count as nat,
                }),
            Err(error) => exists|k: int, trace: Seq<Moment<B>>|
                0 <= k < surfaces@.len() && #[trigger] composited(
                    seam_of(ctx),
                    surfaces@.take(k),
                    pixels_per_point,
                    trace,
                ) && trace[0].blur == *old(blur) && trace[0].encoder == *old(ctx.encoder) && surface_failed(
                    seam_of(ctx),
                    crate::surface::request_of(surfaces@[k], pixels_per_point),
                    trace.last().blur,
                    trace.last().encoder,
                    *final(blur),
                    *final(ctx.encoder),
                    error,
                ),
        },
{
    let ghost seam = seam_of(ctx);
    let ghost pre = *blur;
    let device = ctx.device;
    let queue = ctx.queue;
    let source = ctx.source;
    let target = ctx.target;
    let target_format = ctx.target_format;
    let encoder = ctx.encoder;
    let ghost before = *encoder;
    let mut recorded: usize = 0;
    let mut i: usize = 0;
    let ghost mut trace: Seq<Moment<B>> = seq![Moment { blur: pre, encoder: before, recorded: 0 }];
    while i < surfaces.len()
        invariant
            i <= surfaces@.len(),
            recorded <= i,
            pre == *old(blur),
            *device == seam.device,
            *queue == seam.queue,
            *source == seam.source,
            *target == seam.target,
            target_format == seam.target_format,
            seam == seam_of(ctx),
            *final(encoder) == *final(ctx.encoder),
            before == *old(ctx.encoder),
            composited(seam, surfaces@.take(i as int), pixels_per_point, trace),
            trace[0].blur == pre,
            trace[0].encoder == before,
            trace.last() == (Moment { blur: *blur, encoder: *encoder, recorded: recorded as nat }),
        decreases surfaces@.len() - i,
    {
        let request = surfaces[i].request(pixels_per_point);
        match composite_surface(blur, device, queue, source, target, target_format, encoder, &request, Ghost(seam)) {
            Err(error) => {
                proof {
                    let k = i as int;
                    assert(composited(seam, surfaces@.take(k), pixels_per_point, trace));
                    assert(surface_failed(
                        seam,
                        crate::surface::request_of(surfaces@[k], pixels_per_point),
                        trace.last().blur,
                        trace.last().encoder,
                        *blur,
                        *encoder,
                        error,
                    ));
                }
                return Err(error);
            },
            Ok(done) => {
                if done {
                    recorded = recorded + 1;
                }
            },
        }
        proof {
            let next = Moment { blur: *blur, encoder: *encoder, recorded: recorded as nat };
            lemma_extend(seam, surfaces@, pixels_per_point, trace, i as int, next);
            trace = trace.push(next);
        }
        i = i + 1;
    }
    assert(surfaces@.take(i as int) =~= surfaces@);
    Ok(recorded)
}

} // verus!
