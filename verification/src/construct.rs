//! Building the fixed machinery of the backend: layouts, sampler, shaders and blur pipelines,
//! one at a time, before any surface is prepared.

use std::future::Future;

use vstd::future::*;
use vstd::prelude::*;

use crate::blend::Shader;
use crate::error::BlurError;
use crate::plan::{OomOutcome, PassPipeline};
use crate::scope::{poll_once, scoped_oom};
use crate::wgpu_blur::WgpuBlur;

verus! {

/// A resource that every surface shares.
#[derive(Clone, Copy, Debug, PartialEq, Eq, Structural)]
pub enum FixedResource {
    /// The layout of all bind groups: a sampled texture, a sampler, a uniform buffer.
    BindGroupLayout,
    /// The layout of all pipelines.
    PipelineLayout,
    /// The sampler: linear, clamped to the edge.
    Sampler,
    /// A shader module.
    ShaderModule(Shader),
    /// A pipeline of the blur passes.
    Pipeline(PassPipeline),
}

/// The fixed resources in the order of their creation. Composite pipelines are not among them:
/// they are built per target format, when a surface needs one.
pub open spec fn fixed_plan() -> Seq<FixedResource> {
    seq![
        FixedResource::BindGroupLayout,
        FixedResource::PipelineLayout,
        FixedResource::Sampler,
        FixedResource::ShaderModule(Shader::Gaussian),
        FixedResource::ShaderModule(Shader::Downsample),
        FixedResource::ShaderModule(Shader::Upsample),
        FixedResource::ShaderModule(Shader::Composite),
        FixedResource::Pipeline(PassPipeline::Gaussian),
        FixedResource::Pipeline(PassPipeline::Downsample),
        FixedResource::Pipeline(PassPipeline::Upsample),
    ]
}

/// What a rejected creation does to the device: all but the sampler take it with them.
pub open spec fn fixed_outcome(r: FixedResource) -> OomOutcome {
    if r == FixedResource::Sampler {
        OomOutcome::Recoverable
    } else {
        OomOutcome::DeviceLost
    }
}

impl FixedResource {
    /// What its rejection does to the device.
    pub fn outcome(&self) -> (r: OomOutcome)
        ensures
            r == fixed_outcome(*self),
    {
        if *self == FixedResource::Sampler {
            OomOutcome::Recoverable
        } else {
            OomOutcome::DeviceLost
        }
    }
}

/// The backend under construction.
#[derive(Debug)]
pub struct Construction {
    retention: u64,
    created: usize,
}

/// What comes after a creation.
#[derive(Debug)]
pub enum ConstructionStep {
    /// There is more to create.
    More(Construction),
    /// The backend is built.
    Done(WgpuBlur),
    /// Report the error.
    Failed(BlurError),
    /// Give up: the error scope did not resolve with its creation call.
    Unresolved,
}

impl Construction {
    /// For how many frames the backend will keep an unused chain.
    pub closed spec fn kept_for(self) -> u64 {
        self.retention
    }

    /// How many resources have been created.
    pub closed spec fn count(self) -> int {
        self.created as int
    }

    /// Whether there is something left to create.
    pub open spec fn wf(self) -> bool {
        0 <= self.count() < fixed_plan().len()
    }

    /// Starts building a backend that keeps an unused chain for `retention` frames.
    pub fn begin(retention: u64) -> (r: Construction)
        ensures
            r.wf(),
            r.count() == 0,
            r.kept_for() == retention,
    {
        Construction { retention, created: 0 }
    }

    /// The resource to create next.
    pub fn next(&self) -> (r: FixedResource)
        requires
            self.wf(),
        ensures
            r == fixed_plan()[self.count()],
    {
        if self.created == 0 {
            FixedResource::BindGroupLayout
        } else if self.created == 1 {
            FixedResource::PipelineLayout
        } else if self.created == 2 {
            FixedResource::Sampler
        } else if self.created == 3 {
            FixedResource::ShaderModule(Shader::Gaussian)
        } else if self.created == 4 {
            FixedResource::ShaderModule(Shader::Downsample)
        } else if self.created == 5 {
            FixedResource::ShaderModule(Shader::Upsample)
        } else if self.created == 6 {
            FixedResource::ShaderModule(Shader::Composite)
        } else if self.created == 7 {
            FixedResource::Pipeline(PassPipeline::Gaussian)
        } else if self.created == 8 {
            FixedResource::Pipeline(PassPipeline::Downsample)
        } else {
            FixedResource::Pipeline(PassPipeline::Upsample)
        }
    }

    /// Whether `step` is what comes of the pending creation when its error scope said `polled`.
    pub open spec fn leads_to(self, polled: Option<Option<String>>, step: ConstructionStep) -> bool {
        match polled {
            None => step is Unresolved,
            Some(Some(message)) => step == ConstructionStep::Failed(
                crate::scope::oom_error(fixed_outcome(fixed_plan()[self.count()]), message),
            ),
            Some(None) => if self.count() + 1 < fixed_plan().len() {
                step matches ConstructionStep::More(later) && later.wf() && later.count() == self.count() + 1
                    && later.kept_for() == self.kept_for()
            } else {
                step matches ConstructionStep::Done(blur) && blur.wf() && blur.kept_for() == self.kept_for()
                    && blur@.formats == Set::<crate::format::CompositeFormat>::empty() && blur@.scratch
                    == Map::<crate::algorithm::PingPongKey, u64>::empty() && blur@.pyramids
                    == Map::<crate::algorithm::PingPongKey, u64>::empty() && blur@.frame == 0
                    && blur@.generation == 0 && blur@.pending is None
            },
        }
    }

    /// Goes on building after the pending creation: `polled` is what its error scope said, if
    /// it said anything.
    pub fn resume(self, polled: Option<Option<String>>) -> (r: ConstructionStep)
        requires
            self.wf(),
        ensures
            self.leads_to(polled, r),
    {
        let captured = match polled {
            None => return ConstructionStep::Unresolved,
            Some(captured) => captured,
        };
        match scoped_oom(self.next().outcome(), (), captured) {
            Err(error) => ConstructionStep::Failed(error),
            Ok(_) => {
                if self.created + 1 < 10 {
                    ConstructionStep::More(
                        Construction { retention: self.retention, created: self.created + 1 },
                    )
                } else {
                    ConstructionStep::Done(WgpuBlur::new(self.retention))
                }
            },
        }
    }

    /// Goes on building after the pending creation, reading its error scope without blocking:
    /// `scope` resolves to the captured fault, if there was one. The step is what comes of one
    /// poll of the scope.
    pub fn resume_scoped<F: Future<Output = Option<String>>>(self, scope: F) -> (r: ConstructionStep)
        requires
            self.wf(),
        ensures
            exists|polled: Option<Option<String>>|
                call_ensures(poll_once::<F>, (scope,), polled) && #[trigger] self.leads_to(polled, r),
            self.leads_to(None, r) || self.leads_to(Some(scope@), r),
    {
        let polled = poll_once(scope);
        self.resume(polled)
    }
}

/// Whether the fixed resource `a` is made before the one at position `j`.
pub open spec fn made_before(a: FixedResource, j: int) -> bool {
    exists|i: int| 0 <= i < j && #[trigger] fixed_plan()[i] == a
}

/// What a resource is made of is made before it: the pipeline layout after the bind group layout,
/// and each pipeline after the pipeline layout and the shader it runs.
pub proof fn lemma_parts_come_first(j: int)
    requires
        0 <= j < fixed_plan().len(),
    ensures
        fixed_plan()[j] == FixedResource::PipelineLayout ==> made_before(FixedResource::BindGroupLayout, j),
        fixed_plan()[j] matches FixedResource::Pipeline(p) ==> made_before(FixedResource::PipelineLayout, j)
            && made_before(FixedResource::ShaderModule(crate::blend::spec_of(p).shader), j),
{
    assert(fixed_plan()[0] == FixedResource::BindGroupLayout);
    assert(fixed_plan()[1] == FixedResource::PipelineLayout);
    assert(fixed_plan()[3] == FixedResource::ShaderModule(Shader::Gaussian));
    assert(fixed_plan()[4] == FixedResource::ShaderModule(Shader::Downsample));
    assert(fixed_plan()[5] == FixedResource::ShaderModule(Shader::Upsample));
}

/// Construction makes what every surface shares: the sampler, the four shaders and the pipelines
/// of the three blur passes, and no composite pipeline.
pub proof fn lemma_construction_makes_what_is_shared(shader: Shader, pipeline: PassPipeline)
    ensures
        made_before(FixedResource::Sampler, fixed_plan().len() as int),
        made_before(FixedResource::ShaderModule(shader), fixed_plan().len() as int),
        made_before(FixedResource::Pipeline(pipeline), fixed_plan().len() as int) <==> !(pipeline is Composite),
{
    assert(fixed_plan()[2] == FixedResource::Sampler);
    assert(fixed_plan()[3] == FixedResource::ShaderModule(Shader::Gaussian));
    assert(fixed_plan()[4] == FixedResource::ShaderModule(Shader::Downsample));
    assert(fixed_plan()[5] == FixedResource::ShaderModule(Shader::Upsample));
    assert(fixed_plan()[6] == FixedResource::ShaderModule(Shader::Composite));
    assert(fixed_plan()[7] == FixedResource::Pipeline(PassPipeline::Gaussian));
    assert(fixed_plan()[8] == FixedResource::Pipeline(PassPipeline::Downsample));
    assert(fixed_plan()[9] == FixedResource::Pipeline(PassPipeline::Upsample));
}

/// A rejected sampler leaves the device alive; any other rejection does not.
pub proof fn lemma_only_the_sampler_is_recoverable(c: Construction, message: String, step: ConstructionStep)
    requires
        c.wf(),
        c.leads_to(Some(Some(message)), step),
    ensures
        fixed_plan()[c.count()] == FixedResource::Sampler ==> step == ConstructionStep::Failed(
            BlurError::DeviceOutOfMemory { source: message },
        ),
        fixed_plan()[c.count()] != FixedResource::Sampler ==> step == ConstructionStep::Failed(
            BlurError::DeviceLost { source: message },
        ),
{
}

} // verus!
