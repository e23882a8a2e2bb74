//! Image transforms over encoded image bytes: inspection, pixel operations,
//! an animated-frame pipeline and multi-image composition.
//!
//! The pixel logic works on [`raster::Raster`], a dense RGBA8 grid, and is
//! verified against spec functions over [`raster::Picture`]. Decoding,
//! encoding and resampling are done by the `image` crate behind the trusted
//! items of [`codec`].
pub mod types;
pub mod raster;
pub mod codec;
pub mod animation;
pub mod compose;
pub mod image;
pub mod gif;
pub mod rgb;
