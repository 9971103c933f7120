//! Sprite-atlas building: tier naming, cache-or-build decisions, atlas
//! sizing, packing and frame manifests.

pub mod atlas;
pub mod info;
pub mod laws;
pub mod spritesheet;
pub mod text;
