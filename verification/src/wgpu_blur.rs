//! The blur backend as a state machine: what to create for a surface, one resource at a time,
//! what to cache, what to evict, and which passes to record.
//!
//! The host performs each creation inside an error scope and hands back what the scope said.

use std::future::Future;

use vstd::future::*;
use vstd::prelude::*;

use crate::algorithm::PingPongKey;
use crate::cache::ChainCache;
use crate::error::{BlurError, BlurStage};
use crate::format::{composite_encode_srgb, CompositeFormat, TextureFormat};
use crate::geometry::BlurRequest;
use crate::plan::{
    record_blur, resolve_blur, resolve_composite, BindSlot, BlurPasses, Creation, Job, LoadOp, OomOutcome,
    PassPipeline, PreparedBlur, RenderPass, SourceView, TextureRef,
};
use crate::scope::{poll_once, scoped_oom};

verus! {

/// What a rejected creation does to the device. Buffers and textures are recoverable; pipelines
/// and bind groups take the device with them.
pub open spec fn creation_outcome(c: Creation) -> OomOutcome {
    match c {
        Creation::CompositePipeline(_) => OomOutcome::DeviceLost,
        Creation::Uniform(_, _) => OomOutcome::Recoverable,
        Creation::Scratch(_, _, _) => OomOutcome::Recoverable,
        Creation::Mip(_, _, _) => OomOutcome::Recoverable,
        Creation::Bind(_, _, _) => OomOutcome::DeviceLost,
    }
}

impl Creation {
    /// What its rejection does to the device.
    pub fn outcome(&self) -> (r: OomOutcome)
        ensures
            r == creation_outcome(*self),
    {
        match self {
            Creation::CompositePipeline(_) => OomOutcome::DeviceLost,
            Creation::Uniform(_, _) => OomOutcome::Recoverable,
            Creation::Scratch(_, _, _) => OomOutcome::Recoverable,
            Creation::Mip(_, _, _) => OomOutcome::Recoverable,
            Creation::Bind(_, _, _) => OomOutcome::DeviceLost,
        }
    }
}

/// The handle from preparing a surface to recording it. It cannot be copied: a surface is
/// recorded once for each time it is prepared.
#[derive(Debug, PartialEq, Eq)]
pub struct WgpuPrepared {
    /// The format of the target it was prepared for.
    pub target_format: CompositeFormat,
    /// Which preparation it came of.
    pub generation: u64,
    /// What to replay.
    pub blur: PreparedBlur,
}

/// What the host has to do next to prepare a surface.
#[derive(Debug, PartialEq)]
pub enum PrepareStep {
    /// Nothing: the surface has no pixel to blur or none to fill.
    NoOp,
    /// Create this, then resume.
    Create(Creation),
    /// Record the surface.
    Ready(WgpuPrepared),
    /// Report the error.
    Failed(BlurError),
    /// Give up: the error scope did not resolve with its creation call.
    Unresolved,
}

/// What the backend remembers between calls.
pub struct BlurState {
    /// The target formats with a composite pipeline.
    pub formats: Set<CompositeFormat>,
    /// The Gaussian scratch chains, each with the frame of its last use.
    pub scratch: Map<PingPongKey, u64>,
    /// The dual-Kawase pyramids, each with the frame of its last use.
    pub pyramids: Map<PingPongKey, u64>,
    /// The frame counter.
    pub frame: u64,
    /// The number of the latest preparation.
    pub generation: u64,
    /// The surface being prepared.
    pub pending: Option<Job>,
}

/// The chains of the algorithm that a blur takes.
pub open spec fn chains(s: BlurState, blur: BlurPasses) -> Map<PingPongKey, u64> {
    match blur {
        BlurPasses::Gaussian { horizontal, vertical } => s.scratch,
        BlurPasses::DualKawase { prefilter } => s.pyramids,
    }
}

/// The frame after `frame`.
pub open spec fn next_frame(frame: u64) -> u64 {
    if frame == u64::MAX {
        0
    } else {
        (frame + 1) as u64
    }
}

/// A new frame: the counter advances, and chains unused for too long go.
pub open spec fn begun(s: BlurState, retention: u64) -> BlurState {
    let now = next_frame(s.frame);
    BlurState {
        frame: now,
        scratch: crate::cache::fresh(s.scratch, now, retention),
        pyramids: crate::cache::fresh(s.pyramids, now, retention),
        ..s
    }
}

/// The job for a request, as the caches stand.
pub open spec fn job_for(
    s: BlurState,
    source: SourceView,
    target: CompositeFormat,
    encode_srgb: bool,
    request: BlurRequest,
    clipped: crate::geometry::Region,
    kawase_levels: u32,
) -> Job {
    let radius = crate::plan::radius_of(request);
    let key = crate::plan::key_of(radius, clipped, kawase_levels);
    let blur = crate::plan::blur_of(radius, source, clipped);
    Job {
        target,
        key,
        composite: crate::plan::composite_of(request, clipped, encode_srgb),
        blur,
        has_pipeline: s.formats.contains(target),
        has_chain: chains(s, blur).contains_key(key),
        next: 0,
    }
}

/// Marks the job's chain as used in this frame, caching it if it is not.
pub open spec fn touched(s: BlurState, job: Job) -> BlurState {
    match job.blur {
        BlurPasses::Gaussian { horizontal, vertical } => BlurState { scratch: s.scratch.insert(job.key, s.frame), ..s },
        BlurPasses::DualKawase { prefilter } => BlurState { pyramids: s.pyramids.insert(job.key, s.frame), ..s },
    }
}

/// Whether the resource at position `i` of a job completes its chain: the last texture of a new
/// one, or the composite's uniform buffer, after which a cached one is looked up.
pub open spec fn completes_chain(job: Job, i: int) -> bool {
    i == crate::plan::pipeline_part(job).len() + crate::plan::chain_part(job).len()
}

/// What the caches hold after resource `i` of a job has been created.
pub open spec fn cached_after(s: BlurState, job: Job, i: int) -> BlurState {
    let t = if crate::plan::plan(job)[i] == Creation::CompositePipeline(job.target) {
        BlurState { formats: s.formats.insert(job.target), ..s }
    } else {
        s
    };
    if completes_chain(job, i) {
        touched(t, job)
    } else {
        t
    }
}

/// One step of preparing: the state after the scope of the pending creation said `polled`, and
/// what comes next.
pub open spec fn stepped(s: BlurState, job: Job, polled: Option<Option<String>>) -> (BlurState, PrepareStep) {
    let c = crate::plan::plan(job)[job.next as int];
    match polled {
        None => (BlurState { pending: None, ..s }, PrepareStep::Unresolved),
        Some(Some(message)) => (
            BlurState { pending: None, ..s },
            PrepareStep::Failed(crate::scope::oom_error(creation_outcome(c), message)),
        ),
        Some(None) => {
            let t = cached_after(s, job, job.next as int);
            let later = Job { next: (job.next + 1) as u64, ..job };
            if job.next + 1 < crate::plan::plan(job).len() {
                (
                    BlurState { pending: Some(later), ..t },
                    PrepareStep::Create(crate::plan::plan(job)[job.next + 1]),
                )
            } else {
                let generation = (s.generation + 1) as u64;
                (
                    BlurState { pending: None, generation, ..t },
                    PrepareStep::Ready(
                        WgpuPrepared {
                            target_format: job.target,
                            generation,
                            blur: crate::plan::prepared_blur(job),
                        },
                    ),
                )
            }
        },
    }
}

/// Whether no chain was used in the current frame.
pub open spec fn frame_unused(s: BlurState) -> bool {
    &&& forall|k: PingPongKey| #[trigger] s.scratch.contains_key(k) ==> s.scratch[k] != s.frame
    &&& forall|k: PingPongKey| #[trigger] s.pyramids.contains_key(k) ==> s.pyramids[k] != s.frame
}

/// No two chains were last used in the same frame, and none longer ago than `retention` frames.
pub open spec fn stamps_spread(s: BlurState, retention: u64) -> bool {
    &&& forall|k: PingPongKey| #[trigger]
        s.scratch.contains_key(k) ==> crate::cache::age(s.frame, s.scratch[k]) <= retention
    &&& forall|k: PingPongKey| #[trigger]
        s.pyramids.contains_key(k) ==> crate::cache::age(s.frame, s.pyramids[k]) <= retention
    &&& forall|k: PingPongKey, l: PingPongKey| #[trigger]
        s.scratch.contains_key(k) && #[trigger] s.scratch.contains_key(l) && k != l ==> s.scratch[k] != s.scratch[l]
    &&& forall|k: PingPongKey, l: PingPongKey| #[trigger]
        s.pyramids.contains_key(k) && #[trigger] s.pyramids.contains_key(l) && k != l ==> s.pyramids[k]
            != s.pyramids[l]
    &&& forall|k: PingPongKey, l: PingPongKey| #[trigger]
        s.scratch.contains_key(k) && #[trigger] s.pyramids.contains_key(l) ==> s.scratch[k] != s.pyramids[l]
}

/// What holds of the caches at every moment: the stamps are spread, and as long as the pending
/// job has not reached its chain, no chain was used in this frame.
pub open spec fn caches_bounded(s: BlurState, retention: u64) -> bool {
    &&& stamps_spread(s, retention)
    &&& s.pending matches Some(job) ==> (job.next <= crate::plan::pipeline_part(job).len()
        + crate::plan::chain_part(job).len() ==> frame_unused(s))
}

/// A new frame keeps the caches bounded and finds none of them used yet.
pub proof fn lemma_begun_keeps_bounds(s: BlurState, retention: u64)
    requires
        stamps_spread(s, retention),
        retention < u64::MAX,
    ensures
        stamps_spread(begun(s, retention), retention),
        frame_unused(begun(s, retention)),
{
    let t = begun(s, retention);
    assert forall|k: PingPongKey| #[trigger] t.scratch.contains_key(k) implies s.scratch.contains_key(k)
        && t.scratch[k] == s.scratch[k] && t.scratch[k] != t.frame && crate::cache::age(t.frame, t.scratch[k])
        <= retention by {
        assert(s.scratch.contains_key(k));
    }
    assert forall|k: PingPongKey| #[trigger] t.pyramids.contains_key(k) implies s.pyramids.contains_key(k)
        && t.pyramids[k] == s.pyramids[k] && t.pyramids[k] != t.frame && crate::cache::age(
        t.frame,
        t.pyramids[k],
    ) <= retention by {
        assert(s.pyramids.contains_key(k));
    }
}

/// A chain used in the last frame outlives the next one: a surface that stays as it is never
/// loses what it draws with.
pub proof fn lemma_chain_in_use_survives(s: BlurState, blur: BlurPasses, key: PingPongKey, retention: u64)
    requires
        retention >= 1,
        chains(s, blur).contains_key(key),
        chains(s, blur)[key] == s.frame,
    ensures
        chains(begun(s, retention), blur).contains_key(key),
        chains(begun(s, retention), blur)[key] == s.frame,
{
}

/// A rejected creation ends the preparation and changes nothing else: what is cached stays
/// cached, and no handle was given out, so the host may prepare the surface again.
pub proof fn lemma_rejection_keeps_the_caches(s: BlurState, job: Job, message: String)
    ensures
        stepped(s, job, Some(Some(message))) == (
            BlurState { pending: None, ..s },
            PrepareStep::Failed(
                crate::scope::oom_error(creation_outcome(crate::plan::plan(job)[job.next as int]), message),
            ),
        ),
{
}

/// Creating a resource keeps the caches bounded.
pub proof fn lemma_cached_after_keeps_bounds(s: BlurState, job: Job, i: int, retention: u64)
    requires
        stamps_spread(s, retention),
        completes_chain(job, i) ==> frame_unused(s),
    ensures
        stamps_spread(cached_after(s, job, i), retention),
        !completes_chain(job, i) && frame_unused(s) ==> frame_unused(cached_after(s, job, i)),
{
}

/// The caches never hold more chains than the frames an unused one is kept for, and the current
/// one: dragging or resizing a surface cannot make them grow without end.
pub proof fn lemma_chain_count_bounded(s: BlurState, retention: u64)
    requires
        stamps_spread(s, retention),
        s.scratch.dom().finite(),
        s.pyramids.dom().finite(),
    ensures
        s.scratch.dom().len() + s.pyramids.dom().len() <= retention + 1,
{
    let ages_a = s.scratch.dom().map(|k: PingPongKey| crate::cache::age(s.frame, s.scratch[k]));
    let ages_b = s.pyramids.dom().map(|k: PingPongKey| crate::cache::age(s.frame, s.pyramids[k]));
    let all = ages_a.union(ages_b);
    let range = vstd::set_lib::set_int_range(0, retention + 1);
    vstd::set_lib::lemma_int_range(0, retention + 1);
    lemma_age_count(s.scratch, s.frame);
    lemma_age_count(s.pyramids, s.frame);
    assert(ages_a.disjoint(ages_b)) by {
        assert forall|a: int| !(ages_a.contains(a) && ages_b.contains(a)) by {
            if ages_a.contains(a) && ages_b.contains(a) {
                let k = choose|k: PingPongKey|
                    s.scratch.dom().contains(k) && a == crate::cache::age(s.frame, s.scratch[k]);
                let l = choose|l: PingPongKey|
                    s.pyramids.dom().contains(l) && a == crate::cache::age(s.frame, s.pyramids[l]);
                assert(s.scratch.contains_key(k) && s.pyramids.contains_key(l));
            }
        }
    }
    vstd::set_lib::lemma_set_disjoint_lens(ages_a, ages_b);
    assert(all.subset_of(range)) by {
        assert forall|a: int| all.contains(a) implies range.contains(a) by {
            if ages_a.contains(a) {
                let k = choose|k: PingPongKey|
                    s.scratch.dom().contains(k) && a == crate::cache::age(s.frame, s.scratch[k]);
                assert(s.scratch.contains_key(k));
            } else {
                let l = choose|l: PingPongKey|
                    s.pyramids.dom().contains(l) && a == crate::cache::age(s.frame, s.pyramids[l]);
                assert(s.pyramids.contains_key(l));
            }
        }
    }
    vstd::set_lib::lemma_len_subset(all, range);
}

/// Chains of distinct stamps have as many ages as there are chains.
proof fn lemma_age_count(m: Map<PingPongKey, u64>, now: u64)
    requires
        m.dom().finite(),
        forall|k: PingPongKey, l: PingPongKey| #[trigger]
            m.contains_key(k) && #[trigger] m.contains_key(l) && k != l ==> m[k] != m[l],
    ensures
        m.dom().map(|k: PingPongKey| crate::cache::age(now, m[k])).finite(),
        m.dom().map(|k: PingPongKey| crate::cache::age(now, m[k])).len() == m.dom().len(),
{
    let f = |k: PingPongKey| crate::cache::age(now, m[k]);
    let ages = m.dom().map(f);
    m.dom().lemma_map_finite(f);
    assert(vstd::relations::injective_on(f, m.dom())) by {
        assert forall|k: PingPongKey, l: PingPongKey|
            m.dom().contains(k) && m.dom().contains(l) && #[trigger] f(k) == #[trigger] f(l) implies k == l by {
            assert(m.contains_key(k) && m.contains_key(l));
        }
    }
    vstd::set_lib::lemma_map_size(m.dom(), ages, f);
}

/// The blur backend.
#[derive(Debug)]
pub struct WgpuBlur {
    retention: u64,
    formats: Vec<CompositeFormat>,
    scratch: ChainCache,
    pyramids: ChainCache,
    frame: u64,
    generation: u64,
    pending: Option<Job>,
}

impl View for WgpuBlur {
    type V = BlurState;

    /// What the backend remembers.
    closed spec fn view(&self) -> BlurState {
        BlurState {
            formats: self.formats@.to_set(),
            scratch: self.scratch@,
            pyramids: self.pyramids@,
            frame: self.frame,
            generation: self.generation,
            pending: self.pending,
        }
    }
}

impl WgpuBlur {
    /// For how many frames an unused chain is kept.
    pub closed spec fn kept_for(self) -> u64 {
        self.retention
    }

    /// The caches are sound, a pending job has something left to create, and the caches are
    /// bounded unless nothing is ever to be evicted.
    pub closed spec fn wf(self) -> bool {
        &&& self.scratch.wf()
        &&& self.pyramids.wf()
        &&& self.pending matches Some(job) ==> job.next < crate::plan::plan(job).len()
        &&& self.retention < u64::MAX ==> caches_bounded(self@, self.retention)
    }

    /// A backend with nothing cached, which keeps an unused chain for `retention` frames.
    pub fn new(retention: u64) -> (r: WgpuBlur)
        ensures
            r.wf(),
            r.kept_for() == retention,
            r@.formats == Set::<CompositeFormat>::empty(),
            r@.scratch == Map::<PingPongKey, u64>::empty(),
            r@.pyramids == Map::<PingPongKey, u64>::empty(),
            r@.frame == 0,
            r@.generation == 0,
            r@.pending is None,
    {
        let formats: Vec<CompositeFormat> = Vec::new();
        assert(formats@.to_set() =~= Set::empty());
        WgpuBlur {
            retention,
            formats,
            scratch: ChainCache::new(),
            pyramids: ChainCache::new(),
            frame: 0,
            generation: 0,
            pending: None,
        }
    }

    /// How many chains are cached, of both algorithms.
    pub fn cached_chain_count(&self) -> (r: usize)
        requires
            self.wf(),
            self.kept_for() < usize::MAX,
        ensures
            r == self@.scratch.dom().len() + self@.pyramids.dom().len(),
            r <= self.kept_for() + 1,
    {
        let scratch: usize = self.scratch.len();
        let pyramids: usize = self.pyramids.len();
        proof {
            lemma_chain_count_bounded(self@, self.retention);
        }
        scratch + pyramids
    }

    /// Whether the Gaussian scratch chain of a key is cached. What is not may be freed.
    pub fn scratch_cached(&self, key: &PingPongKey) -> (r: bool)
        requires
            self.wf(),
        ensures
            r == self@.scratch.contains_key(*key),
    {
        self.scratch.contains(key)
    }

    /// Whether the dual-Kawase pyramid of a key is cached. What is not may be freed.
    pub fn pyramid_cached(&self, key: &PingPongKey) -> (r: bool)
        requires
            self.wf(),
        ensures
            r == self@.pyramids.contains_key(*key),
    {
        self.pyramids.contains(key)
    }

    /// The number of the latest preparation.
    pub fn generation(&self) -> (r: u64)
        ensures
            r == self@.generation,
    {
        self.generation
    }

    /// What the surface being prepared will replay, and so which chain it takes.
    pub fn pending_blur(&self) -> (r: Option<PreparedBlur>)
        ensures
            r == (match self@.pending {
                None => None::<PreparedBlur>,
                Some(job) => Some(crate::plan::prepared_blur(job)),
            }),
    {
        match &self.pending {
            None => None,
            Some(job) => Some(job.prepared()),
        }
    }

    /// Advances the frame counter and drops the chains that have not been used for too long.
    fn begin_frame(&mut self)
        requires
            old(self).wf(),
        ensures
            final(self).wf(),
            final(self).kept_for() == old(self).kept_for(),
            final(self)@ == begun(old(self)@, old(self).kept_for()),
            final(self).kept_for() < u64::MAX ==> frame_unused(final(self)@),
    {
        proof {
            if self.retention < u64::MAX {
                lemma_begun_keeps_bounds(self@, self.retention);
            }
        }
        self.frame = self.frame.wrapping_add(1);
        self.scratch.evict(self.frame, self.retention);
        self.pyramids.evict(self.frame, self.retention);
    }

    /// Whether there is a composite pipeline for a format.
    fn has_pipeline(&self, format: CompositeFormat) -> (r: bool)
        ensures
            r == self@.formats.contains(format),
    {
        let mut i: usize = 0;
        while i < self.formats.len()
            invariant
                i <= self.formats@.len(),
                forall|j: int| 0 <= j < i ==> self.formats@[j] != format,
            decreases self.formats@.len() - i,
        {
            if self.formats[i] == format {
                assert(self.formats@[i as int] == format);
                return true;
            }
            i = i + 1;
        }
        false
    }

    /// Whether the chain of a blur is cached.
    fn has_chain(&self, blur: &BlurPasses, key: &PingPongKey) -> (r: bool)
        requires
            self.wf(),
        ensures
            r == chains(self@, *blur).contains_key(*key),
    {
        match blur {
            BlurPasses::Gaussian { horizontal: _, vertical: _ } => self.scratch.contains(key),
            BlurPasses::DualKawase { prefilter: _ } => self.pyramids.contains(key),
        }
    }

    /// Starts preparing a surface. `kawase_levels` is how many times the dual-Kawase filter
    /// would halve, should the radius call for it.
    ///
    /// A source region with no pixel in the source, or a target without area, is a no-op that
    /// changes nothing, not even the age of a chain. A target format the composite does not
    /// support is an error.
    pub fn prepare(
        &mut self,
        source: &SourceView,
        target_format: &TextureFormat,
        request: &BlurRequest,
        kawase_levels: u32,
    ) -> (r: PrepareStep)
        requires
            old(self).wf(),
        ensures
            final(self).wf(),
            final(self).kept_for() == old(self).kept_for(),
            ({
                let clipped = request.source_region.clip(source.size);
                let empty = request.target_rect.size[0] == 0 || request.target_rect.size[1] == 0;
                let s = begun(old(self)@, old(self).kept_for());
                if clipped is None || empty {
                    r == PrepareStep::NoOp && final(self)@ == old(self)@
                } else {
                    match crate::format::supported(*target_format) {
                        None => final(self)@ == (BlurState { pending: None, ..s }) && (r matches PrepareStep::Failed(
                            BlurError::UnsupportedTarget { format },
                        ) && format@ == crate::format::format_name(*target_format)),
                        Some(target) => {
                            let job = job_for(
                                s,
                                *source,
                                target,
                                crate::format::encodes_in_shader(*target_format)->0,
                                *request,
                                clipped->0,
                                kawase_levels,
                            );
                            final(self)@ == (BlurState { pending: Some(job), ..s }) && r == PrepareStep::Create(
                                crate::plan::plan(job)[0],
                            )
                        },
                    }
                }
            }),
    {
        let clipped = match request.source_region.clip_to(source.size) {
            None => return PrepareStep::NoOp,
            Some(clipped) => clipped,
        };
        if request.target_rect.is_empty() {
            return PrepareStep::NoOp;
        }
        self.begin_frame();
        self.pending = None;
        let encode_srgb: bool = match composite_encode_srgb(target_format) {
            None => return PrepareStep::Failed(BlurError::UnsupportedTarget { format: target_format.name() }),
            Some(encode_srgb) => encode_srgb,
        };
        let target = match target_format.composite_format() {
            None => return PrepareStep::Failed(BlurError::UnsupportedTarget { format: target_format.name() }),
            Some(target) => target,
        };
        let (key, blur) = resolve_blur(source, request, &clipped, kawase_levels);
        let job = Job {
            target,
            key,
            composite: resolve_composite(request, &clipped, encode_srgb),
            blur,
            has_pipeline: self.has_pipeline(target),
            has_chain: self.has_chain(&blur, &key),
            next: 0,
        };
        let first = job.creation(0);
        self.pending = Some(job);
        PrepareStep::Create(first)
    }

    /// Caches what the resource at the job's position completes.
    fn cache_created(&mut self, job: &Job, created: &Creation)
        requires
            old(self).wf(),
            old(self)@.pending is None,
            job.next < crate::plan::plan(*job).len(),
            *created == crate::plan::plan(*job)[job.next as int],
            old(self).kept_for() < u64::MAX && completes_chain(*job, job.next as int) ==> frame_unused(old(self)@),
        ensures
            final(self).wf(),
            final(self).kept_for() == old(self).kept_for(),
            final(self)@ == cached_after(old(self)@, *job, job.next as int),
    {
        proof {
            if self.retention < u64::MAX {
                lemma_cached_after_keeps_bounds(self@, *job, job.next as int, self.retention);
            }
        }
        match created {
            Creation::CompositePipeline(format) => {
                let ghost before = self.formats@;
                proof {
                    assert(job.next == 0 && !job.has_pipeline) by {
                        let i = job.next as int;
                        let p = crate::plan::pipeline_part(*job);
                        if i >= p.len() {
                            crate::plan::lemma_pipeline_comes_first(*job, i);
                        }
                    }
                }
                self.formats.push(*format);
                proof {
                    assert(self.formats@.to_set() =~= before.to_set().insert(*format)) by {
                        assert forall|f: CompositeFormat| #[trigger] self.formats@.contains(f) <==> before.contains(f)
                            || f == *format by {
                            if before.contains(f) {
                                let j = before.index_of(f);
                                assert(self.formats@[j] == f);
                            }
                            if f == *format {
                                assert(self.formats@[before.len() as int] == f);
                            }
                        }
                    }
                }
            },
            _ => {},
        }
        if job.completes_chain_at(job.next) {
            match job.blur {
                BlurPasses::Gaussian { horizontal: _, vertical: _ } => self.scratch.touch(job.key, self.frame),
                BlurPasses::DualKawase { prefilter: _ } => self.pyramids.touch(job.key, self.frame),
            }
        }
    }

    /// Goes on preparing after the pending creation: `polled` is what its error scope said, if
    /// it said anything.
    pub fn resume(&mut self, polled: Option<Option<String>>) -> (r: PrepareStep)
        requires
            old(self).wf(),
            old(self)@.pending is Some,
            old(self)@.generation < u64::MAX,
        ensures
            final(self).wf(),
            final(self).kept_for() == old(self).kept_for(),
            (final(self)@, r) == stepped(old(self)@, old(self)@.pending->0, polled),
    {
        let job = match self.pending {
            None => return PrepareStep::NoOp,
            Some(job) => job,
        };
        let created = job.creation(job.next);
        let ghost before = self@;
        self.pending = None;
        assert(self@ == (BlurState { pending: None, ..before }));
        assert(self.retention < u64::MAX ==> stamps_spread(self@, self.retention));
        let captured = match polled {
            None => return PrepareStep::Unresolved,
            Some(captured) => captured,
        };
        match scoped_oom(created.outcome(), created, captured) {
            Err(error) => PrepareStep::Failed(error),
            Ok(created) => {
                self.cache_created(&job, &created);
                proof {
                    if self.retention < u64::MAX {
                        lemma_cached_after_keeps_bounds(before, job, job.next as int, self.retention);
                    }
                }
                let next: u64 = job.next + 1;
                if next < job.total() {
                    let later = Job { next, ..job };
                    proof {
                        assert(crate::plan::plan(later) =~= crate::plan::plan(job));
                    }
                    let ghost cached = self@;
                    self.pending = Some(later);
                    assert(self@ == (BlurState { pending: Some(later), ..cached }));
                    PrepareStep::Create(job.creation(next))
                } else {
                    let ghost cached = self@;
                    self.generation = self.generation + 1;
                    assert(self@ == (BlurState { generation: self.generation, ..cached }));
                    PrepareStep::Ready(
                        WgpuPrepared {
                            target_format: job.target,
                            generation: self.generation,
                            blur: job.prepared(),
                        },
                    )
                }
            },
        }
    }

    /// Goes on preparing after the pending creation, reading its error scope without blocking:
    /// `scope` resolves to the captured fault, if there was one. The step is what comes of one
    /// poll of the scope.
    pub fn resume_scoped<F: Future<Output = Option<String>>>(&mut self, scope: F) -> (r: PrepareStep)
        requires
            old(self).wf(),
            old(self)@.pending is Some,
            old(self)@.generation < u64::MAX,
        ensures
            final(self).wf(),
            final(self).kept_for() == old(self).kept_for(),
            exists|polled: Option<Option<String>>|
                call_ensures(poll_once::<F>, (scope,), polled) && (final(self)@, r) == #[trigger] stepped(
                    old(self)@,
                    old(self)@.pending->0,
                    polled,
                ),
            (final(self)@, r) == stepped(old(self)@, old(self)@.pending->0, None) || (final(self)@, r) == stepped(
                old(self)@,
                old(self)@.pending->0,
                Some(scope@),
            ),
    {
        let polled = poll_once(scope);
        self.resume(polled)
    }

    /// Records a prepared surface: the passes that blur into the scratch, then the composite.
    /// The handle must be of the latest preparation, since a later one may have written over
    /// the scratch they share; recording uses it up.
    pub fn record(&self, prepared: WgpuPrepared) -> (r: Result<Vec<RenderPass>, BlurError>)
        requires
            self.wf(),
            prepared.generation == self@.generation,
        ensures
            match r {
                Ok(list) => self.recordable(prepared) && list@ == crate::plan::passes(
                    prepared.blur,
                    prepared.target_format,
                ),
                Err(error) => !self.recordable(prepared) && (error matches BlurError::ResourceCreation {
                    stage,
                    source,
                } && if self@.formats.contains(prepared.target_format) {
                    stage == BlurStage::PingPongTexture && source@
                        == "scratch missing at record (prepare not called, or evicted)"@
                } else {
                    stage == BlurStage::CompositePipeline && source@ == "composite pipeline missing at record"@
                }),
            },
    {
        if !self.has_pipeline(prepared.target_format) {
            return Err(
                BlurError::ResourceCreation {
                    stage: BlurStage::CompositePipeline,
                    source: String::from_str("composite pipeline missing at record"),
                },
            );
        }
        let cached: bool = match &prepared.blur {
            PreparedBlur::Gaussian { key } => self.scratch.contains(key),
            PreparedBlur::DualKawase { key } => self.pyramids.contains(key),
        };
        if !cached {
            return Err(
                BlurError::ResourceCreation {
                    stage: BlurStage::PingPongTexture,
                    source: String::from_str("scratch missing at record (prepare not called, or evicted)"),
                },
            );
        }
        let mut list = record_blur(&prepared.blur);
        list.push(
            RenderPass {
                pipeline: PassPipeline::Composite(prepared.target_format),
                bind: BindSlot::Composite,
                attachment: TextureRef::Target,
                load: LoadOp::Load,
            },
        );
        Ok(list)
    }

    /// Whether everything a prepared surface replays is cached.
    pub open spec fn recordable(self, prepared: WgpuPrepared) -> bool {
        self@.formats.contains(prepared.target_format) && match prepared.blur {
            PreparedBlur::Gaussian { key } => self@.scratch.contains_key(key),
            PreparedBlur::DualKawase { key } => self@.pyramids.contains_key(key),
        }
    }
}

/// The state and the step after `k` creations in a row have succeeded, starting from the first.
pub open spec fn driven(s: BlurState, k: nat) -> (BlurState, PrepareStep)
    decreases k,
{
    if k == 0 {
        (s, PrepareStep::Create(crate::plan::plan(s.pending->0)[0]))
    } else {
        let t = driven(s, (k - 1) as nat).0;
        stepped(t, t.pending->0, Some(None))
    }
}

/// Where a run of successes stands before its end.
proof fn lemma_driven(s: BlurState, job: Job, k: nat)
    requires
        s.pending == Some(job),
        job.next == 0,
        job.has_pipeline ==> s.formats.contains(job.target),
        k < crate::plan::plan(job).len(),
        crate::plan::plan(job).len() <= u64::MAX,
    ensures
        ({
            let (t, step) = driven(s, k);
            let lead = crate::plan::pipeline_part(job).len();
            let chain = crate::plan::chain_part(job).len();
            &&& t.pending == Some(Job { next: k as u64, ..job })
            &&& step == PrepareStep::Create(crate::plan::plan(job)[k as int])
            &&& t.frame == s.frame
            &&& t.generation == s.generation
            &&& k >= lead ==> t.formats.contains(job.target)
            &&& k > lead + chain ==> chains(t, job.blur).contains_key(job.key) && chains(t, job.blur)[job.key]
                == s.frame
        }),
    decreases k,
{
    if k > 0 {
        let j = (k - 1) as nat;
        lemma_driven(s, job, j);
        let t = driven(s, j).0;
        let at = Job { next: j as u64, ..job };
        let later = Job { next: k as u64, ..job };
        assert(crate::plan::plan(at) =~= crate::plan::plan(job));
        assert(crate::plan::plan(later) =~= crate::plan::plan(job));
        let lead = crate::plan::pipeline_part(job).len();
        if j < lead {
            assert(crate::plan::plan(job)[0] == Creation::CompositePipeline(job.target));
        }
    }
}

/// A chain is cached only when it is whole: as long as a texture of it is missing, the backend
/// does not count it among its chains.
pub proof fn lemma_incomplete_chain_is_not_cached(s: BlurState, job: Job, k: nat)
    requires
        s.pending == Some(job),
        job.next == 0,
        !job.has_chain,
        !chains(s, job.blur).contains_key(job.key),
        k <= crate::plan::pipeline_part(job).len() + crate::plan::chain_part(job).len(),
        crate::plan::plan(job).len() <= u64::MAX,
        job.has_pipeline ==> s.formats.contains(job.target),
    ensures
        !chains(driven(s, k).0, job.blur).contains_key(job.key),
        driven(s, k).0.scratch == s.scratch,
        driven(s, k).0.pyramids == s.pyramids,
        driven(s, k).0.pending == Some(Job { next: k as u64, ..job }),
    decreases k,
{
    if k > 0 {
        let j = (k - 1) as nat;
        lemma_incomplete_chain_is_not_cached(s, job, j);
        let at = Job { next: j as u64, ..job };
        assert(crate::plan::plan(at) =~= crate::plan::plan(job));
    }
}

/// A surface whose creations all succeed is ready after as many of them as its plan has, and
/// can then be recorded: its composite pipeline is cached, and so is its chain, used in this
/// frame.
pub proof fn lemma_success_makes_recordable(s: BlurState, job: Job)
    requires
        s.pending == Some(job),
        job.next == 0,
        job.has_pipeline ==> s.formats.contains(job.target),
        s.generation < u64::MAX,
    ensures
        ({
            let (t, step) = driven(s, crate::plan::plan(job).len());
            &&& step == PrepareStep::Ready(
                WgpuPrepared {
                    target_format: job.target,
                    generation: t.generation,
                    blur: crate::plan::prepared_blur(job),
                },
            )
            &&& t.generation == s.generation + 1
            &&& t.pending is None
            &&& step matches PrepareStep::Ready(handle) && t.formats.contains(handle.target_format) && match handle.blur {
                PreparedBlur::Gaussian { key } => key == job.key && job.blur is Gaussian && t.scratch.contains_key(key),
                PreparedBlur::DualKawase { key } => key == job.key && job.blur is DualKawase
                    && t.pyramids.contains_key(key),
            }
            &&& t.formats.contains(job.target)
            &&& chains(t, job.blur).contains_key(job.key)
            &&& chains(t, job.blur)[job.key] == s.frame
        }),
{
    let n = crate::plan::plan(job).len();
    assert(n <= 5 * job.key.levels + 10);
    let k = (n - 1) as nat;
    lemma_driven(s, job, k);
    let at = Job { next: k as u64, ..job };
    assert(crate::plan::plan(at) =~= crate::plan::plan(job));
}

/// The state after `k` frames in which no chain was used.
pub open spec fn idled(s: BlurState, k: nat, retention: u64) -> BlurState
    decreases k,
{
    if k == 0 {
        s
    } else {
        begun(idled(s, (k - 1) as nat, retention), retention)
    }
}

/// A chain that is no longer used is kept for as many frames as the backend keeps it, and is gone
/// in the one after.
pub proof fn lemma_unused_chain_is_kept_for_the_retention(
    s: BlurState,
    blur: BlurPasses,
    key: PingPongKey,
    k: nat,
    retention: u64,
)
    requires
        retention < u64::MAX,
        k <= retention + 1,
        chains(s, blur).contains_key(key),
        chains(s, blur)[key] == s.frame,
    ensures
        chains(idled(s, k, retention), blur).contains_key(key) <==> k <= retention,
        k <= retention ==> chains(idled(s, k, retention), blur)[key] == s.frame,
        crate::cache::age(idled(s, k, retention).frame, s.frame) == k,
    decreases k,
{
    if k > 0 {
        lemma_unused_chain_is_kept_for_the_retention(s, blur, key, (k - 1) as nat, retention);
    }
}

/// What is reported for a rejection depends on what was rejected: memory for a buffer or a texture
/// leaves the device alive, a pipeline or a bind group does not. The message is the scope's.
pub proof fn lemma_rejections_tell_what_becomes_of_the_device(s: BlurState, job: Job, message: String)
    requires
        job.next < crate::plan::plan(job).len(),
    ensures
        ({
            let c = crate::plan::plan(job)[job.next as int];
            let step = stepped(s, job, Some(Some(message))).1;
            if c is Uniform || c is Scratch || c is Mip {
                step == PrepareStep::Failed(BlurError::DeviceOutOfMemory { source: message })
            } else {
                step == PrepareStep::Failed(BlurError::DeviceLost { source: message })
            }
        }),
{
}

} // verus!
