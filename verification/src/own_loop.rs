//! The own-loop adapter: the host drives its own render loop, and the adapter orders one frame.
//! The UI is drawn into an offscreen intermediate, which is the backdrop, and into the target;
//! then each surface is blurred out of the one into the other; then all is submitted at once.

use vstd::prelude::*;

use crate::error::BlurError;
use crate::format::TextureFormat;
use crate::liveness::RepaintPolicy;
use crate::plan::{SourceColorSpace, SourceView};
use crate::surface::{strongest_repaint, Surface};

verus! {

/// One thing to do in a frame.
#[derive(Clone, Copy, Debug, PartialEq, Eq, Structural)]
pub enum FrameStep {
    /// Upload texture delta `i`.
    UpdateTexture(usize),
    /// Create the command encoder.
    CreateEncoder,
    /// Upload vertex, index and uniform buffers, keeping the command buffers that returns.
    UpdateBuffers,
    /// Create the intermediate, of the given width and height.
    CreateIntermediate(u32, u32),
    /// Draw the UI into the intermediate, in a pass that ends before the next step.
    RenderIntermediate,
    /// Draw the UI into the target, in a pass that ends before the next step.
    RenderTarget,
    /// Blur and composite each surface, sampling the intermediate and writing the target.
    Composite,
    /// Submit the kept command buffers, then the encoder.
    Submit,
    /// Free texture `i` of those dropped this frame.
    FreeTexture(usize),
}

/// The adapter: which target it draws for, and the size of its intermediate if it has one.
#[derive(Debug)]
pub struct OwnLoopRenderer {
    target_format: TextureFormat,
    intermediate: Option<[u32; 2]>,
}

/// A length that a texture can have.
pub open spec fn at_least_one(n: u32) -> u32 {
    if n == 0 {
        1
    } else {
        n
    }
}

/// The steps up to and including the composite.
pub open spec fn opening_steps(updates: usize, screen: [u32; 2], stale: bool) -> Seq<FrameStep> {
    Seq::new(updates as nat, |i: int| FrameStep::UpdateTexture(i as usize)) + seq![
        FrameStep::CreateEncoder,
        FrameStep::UpdateBuffers,
    ] + (if stale {
        seq![FrameStep::CreateIntermediate(at_least_one(screen[0]), at_least_one(screen[1]))]
    } else {
        seq![]
    }) + seq![FrameStep::RenderIntermediate, FrameStep::RenderTarget, FrameStep::Composite]
}

/// The steps after a composite that did not fail.
pub open spec fn closing_steps(frees: usize) -> Seq<FrameStep> {
    seq![FrameStep::Submit] + Seq::new(frees as nat, |i: int| FrameStep::FreeTexture(i as usize))
}

impl OwnLoopRenderer {
    /// The format of the target.
    pub closed spec fn format(self) -> TextureFormat {
        self.target_format
    }

    /// The screen size the intermediate was made for.
    pub closed spec fn backdrop(self) -> Option<[u32; 2]> {
        self.intermediate
    }

    /// Whether a screen size calls for another intermediate.
    pub open spec fn stale_for(self, screen: [u32; 2]) -> bool {
        self.backdrop() != Some(screen)
    }

    /// An adapter for a target of the given format. Only formats that store their channels
    /// plainly are accepted, since the UI is drawn gamma-encoded.
    pub fn new(target_format: TextureFormat) -> (r: Result<OwnLoopRenderer, BlurError>)
        ensures
            r is Ok <==> crate::format::stores_plainly(target_format),
            r matches Ok(adapter) ==> adapter.format() == target_format && adapter.backdrop() is None,
            r matches Err(error) ==> (error matches BlurError::UnsupportedTarget { format } && format@
                == crate::format::format_name(target_format)),
    {
        if target_format.is_plain() {
            Ok(OwnLoopRenderer { target_format, intermediate: None })
        } else {
            Err(BlurError::UnsupportedTarget { format: target_format.name() })
        }
    }

    /// Whether the intermediate has to be made anew for a screen size.
    fn intermediate_stale(&self, screen: [u32; 2]) -> (r: bool)
        ensures
            r == self.stale_for(screen),
    {
        match self.intermediate {
            None => true,
            Some(size) => {
                proof {
                    if size[0] == screen[0] && size[1] == screen[1] {
                        assert(size =~= screen);
                    }
                }
                size[0] != screen[0] || size[1] != screen[1]
            },
        }
    }

    /// The steps of a frame up to and including the composite, for a screen of the given size
    /// in physical pixels and so many texture deltas to upload.
    pub fn begin_frame(&mut self, screen: [u32; 2], updates: usize) -> (r: Vec<FrameStep>)
        ensures
            r@ == opening_steps(updates, screen, old(self).stale_for(screen)),
            final(self).backdrop() == Some(screen),
            final(self).format() == old(self).format(),
    {
        let mut steps: Vec<FrameStep> = Vec::new();
        let mut i: usize = 0;
        while i < updates
            invariant
                i <= updates,
                steps@ == Seq::new(i as nat, |k: int| FrameStep::UpdateTexture(k as usize)),
            decreases updates - i,
        {
            steps.push(FrameStep::UpdateTexture(i));
            i = i + 1;
            assert(steps@ =~= Seq::new(i as nat, |k: int| FrameStep::UpdateTexture(k as usize)));
        }
        steps.push(FrameStep::CreateEncoder);
        steps.push(FrameStep::UpdateBuffers);
        let stale: bool = self.intermediate_stale(screen);
        if stale {
            let width: u32 = if screen[0] == 0 { 1 } else { screen[0] };
            let height: u32 = if screen[1] == 0 { 1 } else { screen[1] };
            steps.push(FrameStep::CreateIntermediate(width, height));
            self.intermediate = Some(screen);
        }
        steps.push(FrameStep::RenderIntermediate);
        steps.push(FrameStep::RenderTarget);
        steps.push(FrameStep::Composite);
        assert(steps@ =~= opening_steps(updates, screen, stale));
        steps
    }

    /// What the composite samples: the intermediate, gamma-encoded, at the size of the screen.
    pub fn source(&self) -> (r: Option<SourceView>)
        ensures
            r is Some <==> self.backdrop() is Some,
            r matches Some(view) ==> view.size == self.backdrop()->0 && view.color_space
                == SourceColorSpace::GammaSrgb,
    {
        match self.intermediate {
            None => None,
            Some(size) => Some(SourceView { size, color_space: SourceColorSpace::GammaSrgb }),
        }
    }

    /// The steps after the composite, and the repaint obligation of the frame. A composite that
    /// failed ends the frame there: nothing is submitted and nothing is freed.
    pub fn end_frame(
        &self,
        composited: Result<usize, BlurError>,
        frees: usize,
        surfaces: &[Surface],
    ) -> (r: Result<(Vec<FrameStep>, RepaintPolicy), BlurError>)
        ensures
            match composited {
                Err(error) => r matches Err(e) && e == error,
                Ok(_) => r matches Ok((steps, repaint)) && steps@ == closing_steps(frees) && (forall|i: int|
                    0 <= i < surfaces@.len() ==> repaint.covers((#[trigger] surfaces@[i]).repaint)) && (repaint
                    == RepaintPolicy::Static || exists|i: int|
                    0 <= i < surfaces@.len() && repaint == (#[trigger] surfaces@[i]).repaint),
            },
    {
        match composited {
            Err(error) => Err(error),
            Ok(_) => {
                let mut steps: Vec<FrameStep> = Vec::new();
                steps.push(FrameStep::Submit);
                let mut i: usize = 0;
                while i < frees
                    invariant
                        i <= frees,
                        steps@ == closing_steps(i),
                    decreases frees - i,
                {
                    steps.push(FrameStep::FreeTexture(i));
                    i = i + 1;
                    assert(steps@ =~= closing_steps(i));
                }
                Ok((steps, strongest_repaint(surfaces)))
            },
        }
    }
}

/// A frame drops no step out of order: what a surface samples is drawn before it is sampled,
/// the target is drawn before it is composited over, and the buffers are uploaded before either
/// is drawn.
pub proof fn lemma_frame_order(updates: usize, screen: [u32; 2], stale: bool)
    ensures
        ({
            let steps = opening_steps(updates, screen, stale);
            let n = steps.len();
            &&& steps[n - 1] == FrameStep::Composite
            &&& steps[n - 2] == FrameStep::RenderTarget
            &&& steps[n - 3] == FrameStep::RenderIntermediate
            &&& forall|i: int|
                0 <= i < n ==> ((#[trigger] steps[i]) is UpdateTexture <==> i < updates)
            &&& forall|i: int| 0 <= i < updates ==> #[trigger] steps[i] == FrameStep::UpdateTexture(i as usize)
            &&& steps[updates as int] == FrameStep::CreateEncoder
            &&& steps[updates + 1] == FrameStep::UpdateBuffers
            &&& n == updates + 5 + (if stale { 1int } else { 0 })
        }),
{
}

/// A screen without pixels has nothing behind any surface: whatever the request, its source
/// misses the backdrop, so that preparing it is a no-op.
pub proof fn lemma_empty_screen_is_a_no_op(region: crate::geometry::Region, screen: [u32; 2])
    requires
        screen[0] == 0 || screen[1] == 0,
    ensures
        region.misses(screen),
{
}

/// The intermediate is made anew exactly where the screen has another size, before it is drawn
/// into, and it has the size of the screen, or one pixel along an axis without any.
pub proof fn lemma_intermediate_fits_the_screen(updates: usize, screen: [u32; 2], stale: bool, w: u32, h: u32)
    ensures
        ({
            let steps = opening_steps(updates, screen, stale);
            steps.drop_last().drop_last().drop_last().contains(FrameStep::CreateIntermediate(w, h)) <==> stale && (w
                == screen[0] || screen[0] == 0 && w == 1) && (h == screen[1] || screen[1] == 0 && h == 1) && w > 0 && h
                > 0
        }),
{
    let steps = opening_steps(updates, screen, stale);
    let early = steps.drop_last().drop_last().drop_last();
    if stale {
        assert(early[updates + 2] == FrameStep::CreateIntermediate(at_least_one(screen[0]), at_least_one(screen[1])));
    }
}

/// A frame is submitted once, after the composite, and then every dropped texture is freed once.
pub proof fn lemma_frame_is_submitted_then_freed(frees: usize, i: int)
    requires
        0 <= i < closing_steps(frees).len(),
    ensures
        closing_steps(frees).len() == frees + 1,
        closing_steps(frees)[i] == FrameStep::Submit <==> i == 0,
        i > 0 ==> closing_steps(frees)[i] == FrameStep::FreeTexture((i - 1) as usize),
{
}

} // verus!
