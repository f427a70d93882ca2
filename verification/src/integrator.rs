//! Settings of the unidirectional path tracer.

use vstd::prelude::*;

verus! {

/// Depth limits of the path tracer: paths end after `max_depth` bounces,
/// and Russian roulette starts at bounce `min_rr_depth`.
pub struct PathIntegrator {
    pub max_depth: u32,
    pub min_rr_depth: u32,
}

impl Default for PathIntegrator {
    fn default() -> (r: Self)
        ensures
            r.max_depth == 8,
            r.min_rr_depth == 3,
    {
        PathIntegrator { max_depth: 8, min_rr_depth: 3 }
    }
}

} // verus!
