//! What a ray hit in the scene.

use vstd::prelude::*;

verus! {

/// The kind of surface a scene ray hit: a primitive with its material, or
/// an emissive light.
#[derive(Debug, Clone, Copy, PartialEq, Eq, Structural)]
pub enum HitKind {
    Surface { material_id: u32, primitive_id: u32 },
    Light { light_id: u32 },
}

} // verus!
