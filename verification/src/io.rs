//! Scene-file front ends.

pub mod hdr;
pub mod pbrt;
