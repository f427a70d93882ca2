//! Pacing of the progressive preview: between passes the render thread
//! stops when asked to, finishes once the requested number of samples per
//! pixel is reached, and otherwise renders one more pass.

use vstd::prelude::*;

verus! {

/// What the render thread does next.
#[derive(Debug, Clone, Copy, PartialEq, Eq, Structural)]
pub enum PassStep {
    /// The window asked the render to stop: return without saving.
    Stop,
    /// The target was reached: report the finished render, then return.
    Finish,
    /// Render one more sample-per-pixel pass.
    Render,
}

/// Whether `passes_done` reaches the optional target of samples per pixel.
pub open spec fn target_reached(passes_done: u32, target_spp: Option<u32>) -> bool {
    match target_spp {
        Some(t) => passes_done >= t,
        None => false,
    }
}

/// The step after `passes_done` completed passes. A stop request wins over
/// a reached target; without a target the render goes on until stopped.
pub fn next_pass_step(stop_requested: bool, passes_done: u32, target_spp: Option<u32>) -> (step:
    PassStep)
    ensures
        step == (if stop_requested {
            PassStep::Stop
        } else if target_reached(passes_done, target_spp) {
            PassStep::Finish
        } else {
            PassStep::Render
        }),
{
    if stop_requested {
        return PassStep::Stop;
    }
    if let Some(target) = target_spp {
        if passes_done >= target {
            return PassStep::Finish;
        }
    }
    PassStep::Render
}

} // verus!
