//! Small value types shared by the operations.
use vstd::prelude::*;

verus! {

/// Mirror axis of a flip.
#[derive(Debug, Clone, Copy, PartialEq, Eq, Structural, Default)]
pub enum FlipMode {
    /// Mirror left to right.
    #[default]
    Horizontal,
    /// Mirror top to bottom.
    Vertical,
}

/// Direction in which `image_merge` concatenates its inputs.
#[derive(Debug, Clone, Copy, PartialEq, Eq, Structural, Default)]
pub enum MergeMode {
    /// Side by side, left to right.
    #[default]
    Horizontal,
    /// Stacked, top to bottom.
    Vertical,
}

/// Output formats for a static image.
#[derive(Debug, Clone, Copy, PartialEq, Eq, Structural)]
pub enum ImageFormat {
    Png,
    Jpeg,
    WebP,
}

/// The container format found by sniffing the bytes.
#[derive(Debug, Clone, Copy, PartialEq, Eq, Structural)]
pub enum Format {
    /// A GIF container, possibly animated.
    Gif,
    /// A WebP container, possibly animated.
    WebP,
    /// Any other format, or none recognised.
    Other,
}

/// Resampling filters used by the operations.
#[derive(Debug, Clone, Copy, PartialEq, Eq, Structural)]
pub enum Filter {
    /// Bilinear class; used by `image_merge`.
    Triangle,
    /// Cubic class; used by `mirage`.
    CatmullRom,
    /// Lanczos with window 3; used by `resize` and `gif_merge`.
    Lanczos3,
}

/// A flat RGB colour.
#[derive(Debug, Clone, Copy)]
pub struct Rgb(pub [u8; 3]);

/// The ways an operation can fail.
#[derive(Debug, Clone, Copy, PartialEq, Eq, Structural)]
pub enum Error {
    /// The bytes are not an image in a recognised format, or are malformed.
    Decode,
    /// The encoder rejected the pixels or the format.
    Encode,
    /// A crop rectangle reaches outside the image.
    Bounds,
    /// An animation operation was given a source with at most one frame.
    Animation,
    /// A composition was given no images.
    Input,
    /// A base64 text could not be decoded.
    Base64,
}

/// Metadata of an image, as reported by `Image::info`.
#[derive(Debug, Clone, Copy, PartialEq, Eq, Structural)]
pub struct ImageInfo {
    pub width: u32,
    pub height: u32,
    /// Whether the source holds more than one frame.
    pub is_multi_frame: bool,
    /// Number of frames.
    pub frame_count: Option<u32>,
    /// Mean frame delay in whole milliseconds, present for animations only.
    pub average_duration: Option<u64>,
}

/// Frame count and mean delay of a decoded frame sequence.
#[derive(Debug, Clone, Copy, PartialEq, Eq, Structural)]
pub struct AnimationInfo {
    /// Number of frames, saturated at `u32::MAX`.
    pub frame_count: u32,
    /// Mean frame delay in whole milliseconds, present when there is more
    /// than one frame.
    pub frame_delay: Option<u64>,
}

} // verus!
