//! Which of the two render pipelines is active.
//!
//! The renderer itself lives outside this library; the library only keeps
//! the small piece of state the renderer switches on.

use vstd::prelude::*;

verus! {

/// The two ways chunk geometry can be drawn.
#[derive(Clone, Copy, Debug, PartialEq, Eq, Structural)]
pub enum PipelineType {
    /// Filled triangles.
    Triangle,
    /// Wireframe lines.
    Line,
}

impl PipelineType {
    /// The other pipeline.
    pub open spec fn toggled(self) -> PipelineType {
        match self {
            PipelineType::Triangle => PipelineType::Line,
            PipelineType::Line => PipelineType::Triangle,
        }
    }

    /// Switch to the other pipeline.
    pub fn toggle(&mut self)
        ensures
            *final(self) == old(self).toggled(),
    {
        match self {
            PipelineType::Triangle => {
                *self = PipelineType::Line;
            },
            PipelineType::Line => {
                *self = PipelineType::Triangle;
            },
        }
    }
}

} // verus!
