//! Pyre: the scene-description front end and the integer bookkeeping of
//! an offline path tracer, with their contracts.

pub mod geometry;
pub mod integrator;
pub mod sampler;
pub mod scene;
pub mod viewer;
pub mod io;
