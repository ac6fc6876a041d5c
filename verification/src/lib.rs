//! Derives a fixed set of resized thumbnail variants from one source image,
//! following a declarative list of size/crop specifications.
//!
//! The crate covers the geometry of the two resize policies (aspect-preserving
//! `Fit` and focal-point-anchored `Crop`), the deterministic naming of
//! destination objects, the per-specification skip logic that avoids
//! regenerating thumbnails that already exist, and the batch-level pre-filter
//! over a directory listing. Pixel decoding, resampling and encoding are
//! delegated to the `image` crate behind a small set of trusted wrappers.

pub mod dedup;
pub mod error;
pub mod generate;
pub mod geometry;
pub mod image;
pub mod model;
pub mod naming;
pub mod text;

pub use crate::error::Error;
pub use crate::error::ThumbsResult;
