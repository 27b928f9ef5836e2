//! What can go wrong producing a frosted surface. A zero-sized or offscreen region is a no-op,
//! not an error.

use vstd::prelude::*;

use crate::geometry::Region;

verus! {

/// Which GPU resource could not be created.
#[derive(Clone, Copy, Debug, PartialEq, Eq, Structural)]
pub enum BlurStage {
    /// A ping-pong scratch texture in the blur chain.
    PingPongTexture,
    /// The downsample render pipeline.
    DownsamplePipeline,
    /// The upsample render pipeline.
    UpsamplePipeline,
    /// The composite render pipeline, built per target format.
    CompositePipeline,
    /// The uniform buffer carrying the resolved mask, tint and offsets.
    UniformBuffer,
    /// A bind group wiring textures and uniforms to a pipeline.
    BindGroup,
}

/// The name of a stage in messages.
pub open spec fn stage_label(stage: BlurStage) -> Seq<char> {
    match stage {
        BlurStage::PingPongTexture => "ping-pong scratch texture"@,
        BlurStage::DownsamplePipeline => "downsample pipeline"@,
        BlurStage::UpsamplePipeline => "upsample pipeline"@,
        BlurStage::CompositePipeline => "composite pipeline"@,
        BlurStage::UniformBuffer => "uniform buffer"@,
        BlurStage::BindGroup => "bind group"@,
    }
}

impl BlurStage {
    /// The name of the stage.
    pub fn label(&self) -> (s: &'static str)
        ensures
            s@ == stage_label(*self),
            s@.len() > 0,
    {
        proof {
            reveal_strlit("ping-pong scratch texture");
            reveal_strlit("downsample pipeline");
            reveal_strlit("upsample pipeline");
            reveal_strlit("composite pipeline");
            reveal_strlit("uniform buffer");
            reveal_strlit("bind group");
        }
        match self {
            BlurStage::PingPongTexture => "ping-pong scratch texture",
            BlurStage::DownsamplePipeline => "downsample pipeline",
            BlurStage::UpsamplePipeline => "upsample pipeline",
            BlurStage::CompositePipeline => "composite pipeline",
            BlurStage::UniformBuffer => "uniform buffer",
            BlurStage::BindGroup => "bind group",
        }
    }

    /// The name of the stage, as an owned string.
    pub fn to_string(&self) -> (s: String)
        ensures
            s@ == stage_label(*self),
            s@.len() > 0,
    {
        String::from_str(self.label())
    }
}

/// Everything that can go wrong producing a frosted surface. A `source` is the backend's own
/// description of its fault.
#[derive(Debug, PartialEq)]
pub enum BlurError {
    /// A GPU resource could not be created.
    ResourceCreation {
        /// Which resource failed.
        stage: BlurStage,
        /// The backend's description.
        source: String,
    },
    /// The target's color format is not one the composite supports.
    UnsupportedTarget {
        /// The rejected format.
        format: String,
    },
    /// No sampleable source could be grabbed from the framebuffer.
    GrabFailed {
        /// The region the grab was attempted for.
        region: Region,
        /// The backend's description.
        source: String,
    },
    /// The GL context cannot run the backend.
    UnsupportedContext {
        /// What it lacks.
        detail: String,
    },
    /// An allocation was rejected; the device survives and the host may retry.
    DeviceOutOfMemory {
        /// The backend's description.
        source: String,
    },
    /// An allocation was rejected and took the device with it; the host must tear down.
    DeviceLost {
        /// The backend's description.
        source: String,
    },
}

/// A region in words: its size, then where its origin is.
pub open spec fn region_text(region: Region) -> Seq<char> {
    crate::text::decimal_text(region.size[0] as nat) + "x"@ + crate::text::decimal_text(region.size[1] as nat)
        + " at ("@ + crate::text::decimal_text(region.origin[0] as nat) + ", "@ + crate::text::decimal_text(
        region.origin[1] as nat,
    ) + ")"@
}

/// The sentence an error is reported with.
pub open spec fn error_text(error: BlurError) -> Seq<char> {
    match error {
        BlurError::ResourceCreation { stage, source } => "failed to create the "@ + stage_label(stage)
            + " while preparing the blur"@,
        BlurError::UnsupportedTarget { format } => "target format "@ + format@
            + " is not a supported render target for the blur composite"@,
        BlurError::GrabFailed { region, source } =>
            "the grab source could not be produced from the framebuffer for region "@ + region_text(region),
        BlurError::UnsupportedContext { detail } => "the GL context does not support the blur backend: "@ + detail@,
        BlurError::DeviceOutOfMemory { source } => "the device ran out of memory while preparing the blur"@,
        BlurError::DeviceLost { source } => "the device was lost while preparing the blur"@,
    }
}

/// The backend's description behind an error, where it has one.
pub open spec fn error_source(error: BlurError) -> Option<Seq<char>> {
    match error {
        BlurError::ResourceCreation { stage, source } => Some(source@),
        BlurError::UnsupportedTarget { format } => None,
        BlurError::GrabFailed { region, source } => Some(source@),
        BlurError::UnsupportedContext { detail } => None,
        BlurError::DeviceOutOfMemory { source } => Some(source@),
        BlurError::DeviceLost { source } => Some(source@),
    }
}

/// A region in words.
fn describe_region(region: &Region) -> (s: String)
    ensures
        s@ == region_text(*region),
{
    let mut s = crate::text::decimal(region.size[0]);
    s.append("x");
    s.append(crate::text::decimal(region.size[1]).as_str());
    s.append(" at (");
    s.append(crate::text::decimal(region.origin[0]).as_str());
    s.append(", ");
    s.append(crate::text::decimal(region.origin[1]).as_str());
    s.append(")");
    s
}

impl BlurError {
    /// The sentence the error is reported with.
    pub fn to_string(&self) -> (s: String)
        ensures
            s@ == error_text(*self),
    {
        match self {
            BlurError::ResourceCreation { stage, source: _ } => {
                let mut s = String::from_str("failed to create the ");
                s.append(stage.label());
                s.append(" while preparing the blur");
                s
            },
            BlurError::UnsupportedTarget { format } => {
                let mut s = String::from_str("target format ");
                s.append(format.as_str());
                s.append(" is not a supported render target for the blur composite");
                s
            },
            BlurError::GrabFailed { region, source: _ } => {
                let mut s = String::from_str(
                    "the grab source could not be produced from the framebuffer for region ",
                );
                s.append(describe_region(region).as_str());
                s
            },
            BlurError::UnsupportedContext { detail } => {
                let mut s = String::from_str("the GL context does not support the blur backend: ");
                s.append(detail.as_str());
                s
            },
            BlurError::DeviceOutOfMemory { source: _ } => String::from_str(
                "the device ran out of memory while preparing the blur",
            ),
            BlurError::DeviceLost { source: _ } => String::from_str("the device was lost while preparing the blur"),
        }
    }

    /// The backend's description behind the error, where it has one.
    pub fn source(&self) -> (r: Option<&String>)
        ensures
            r is Some <==> error_source(*self) is Some,
            r matches Some(s) ==> error_source(*self) == Some(s@),
    {
        match self {
            BlurError::ResourceCreation { stage: _, source } => Some(source),
            BlurError::UnsupportedTarget { format: _ } => None,
            BlurError::GrabFailed { region: _, source } => Some(source),
            BlurError::UnsupportedContext { detail: _ } => None,
            BlurError::DeviceOutOfMemory { source } => Some(source),
            BlurError::DeviceLost { source } => Some(source),
        }
    }
}

/// Folds the links of a chain of causes, outermost first, into one text.
pub fn describe(chain: &Vec<String>) -> (s: String)
    ensures
        s@ == crate::text::joined(crate::text::views(chain@), ": "@),
{
    crate::text::join(chain, ": ")
}

} // verus!
