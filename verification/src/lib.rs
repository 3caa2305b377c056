//! Gamut-bounded color-space remap pipeline.
//!
//! Converts 8-bit sRGB colors into a perceptually uniform space (Oklab),
//! measures the chroma extents reachable from the full 8-bit RGB cube,
//! and remaps pixels through a normalize / manipulate / denormalize chain
//! that round-trips exactly thanks to a bidirectional conversion cache.

pub mod cache;
pub mod color;
pub mod convert;
pub mod frames;
pub mod gamut;
pub mod manip;
pub mod order;
pub mod pipeline;
