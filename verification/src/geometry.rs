//! Index bookkeeping of the renderer's acceleration structures.

pub mod bvh;
pub mod mesh;
