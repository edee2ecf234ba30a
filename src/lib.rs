//! Packs many raster images into a few atlas textures, with edge-replicated
//! margins, an adaptive search for the atlas size, and optional trimming.

pub mod atlasser;
pub mod error;
pub mod geometry;
pub mod image_ops;
mod packer;
pub mod planner;
pub mod search;

pub use geometry::Rect;
pub use search::{AtlasOptions, StepFactor};
pub use error::AtlasError;
pub use atlasser::{add_margins, atlas_buffers, AtlasLayout};
