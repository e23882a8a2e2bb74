//! The calls into the `image` and `base64` crates, each behind a trusted item
//! whose contract states what the crate's source shows.
//!
//! What a decoder, an encoder or a resampler returns is given a name (an
//! uninterpreted spec function of its inputs); the verified operations are
//! stated over those names.
use vstd::prelude::*;
use crate::animation::{Delay, Frame, FrameModel, frames_view, all_wf};
use crate::raster::{Picture, Raster, luma};
use crate::types::{Filter, Format, ImageFormat};
use ::base64::Engine;
use ::image::{AnimationDecoder, Pixel};
use std::io::Cursor;
use std::time::Duration;

verus! {

#[verifier::external_type_specification]
#[verifier::external_body]
pub struct ExImageError(::image::ImageError);

#[verifier::external_type_specification]
#[verifier::external_body]
pub struct ExBase64DecodeError(::base64::DecodeError);

/// The picture that the bytes decode to, as RGBA8; `None` when they do not decode.
pub uninterp spec fn decoded_of(bytes: Seq<u8>) -> Option<Picture>;

/// The container format that sniffing the bytes finds.
pub uninterp spec fn format_of(bytes: Seq<u8>) -> Format;

/// The frames of a GIF; `None` when the bytes are not a valid GIF.
pub uninterp spec fn gif_frames_of(bytes: Seq<u8>) -> Option<Seq<FrameModel>>;

/// The frames of a WebP; `None` when the bytes are not a valid WebP.
pub uninterp spec fn webp_frames_of(bytes: Seq<u8>) -> Option<Seq<FrameModel>>;

/// The encoding of a picture in the given format; `None` when the encoder
/// rejects it.
pub uninterp spec fn written_of(p: Picture, format: ImageFormat) -> Option<Seq<u8>>;

/// The PNG encoding of a picture.
pub open spec fn png_of(p: Picture) -> Option<Seq<u8>> {
    written_of(p, ImageFormat::Png)
}

/// The infinitely looping GIF of a frame sequence; `None` when the encoder
/// rejects it.
pub uninterp spec fn gif_of(frames: Seq<FrameModel>) -> Option<Seq<u8>>;

/// A picture resampled to exactly `width` by `height` with the given filter.
pub uninterp spec fn resized_of(p: Picture, width: u32, height: u32, filter: Filter) -> Picture;

/// `bottom` with `top` alpha-blended over it, `top`'s corner at `(x, y)`.
pub uninterp spec fn overlaid_of(bottom: Picture, top: Picture, x: i64, y: i64) -> Picture;

/// The frame delay that a duration converts to.
pub uninterp spec fn delay_of_duration(d: Duration) -> Delay;

/// The bytes that a standard-alphabet base64 text decodes to; `None` when
/// it is not valid base64.
pub uninterp spec fn base64_decoded_of(text: Seq<char>) -> Option<Seq<u8>>;

/// Relies on `image::Pixel::to_luma_alpha` for `Rgba<u8>` (the per-pixel step
/// of `DynamicImage::grayscale`): the luma is `(2126 r + 7152 g + 722 b) / 10000`
/// in integer arithmetic.
#[verifier::external_body]
pub(crate) fn to_luma(r: u8, g: u8, b: u8) -> (l: u8)
    ensures
        l == luma(r, g, b),
{
    ::image::Rgba([r, g, b, 255u8]).to_luma_alpha().0[0]
}

/// Relies on `image::ImageReader::with_guessed_format` and `decode`, then
/// `DynamicImage::into_rgba8`: a buffer of exactly `4 * width * height` bytes.
#[verifier::external_body]
pub(crate) fn decode_rgba(bytes: &[u8]) -> (r: Result<Raster, ::image::ImageError>)
    ensures
        r is Ok <==> decoded_of(bytes@) is Some,
        r matches Ok(v) ==> v@ == decoded_of(bytes@).unwrap() && v.wf(),
{
    let reader = ::image::ImageReader::new(Cursor::new(bytes)).with_guessed_format()?;
    let image = reader.decode()?.into_rgba8();
    let (width, height) = image.dimensions();
    Ok(Raster { width, height, pixels: image.into_raw() })
}

/// Relies on `image::ImageReader::with_guessed_format` and `format`: the format
/// found from the leading bytes.
#[verifier::external_body]
pub(crate) fn sniff_format(bytes: &[u8]) -> (r: Format)
    ensures
        r == format_of(bytes@),
{
    let reader = ::image::ImageReader::new(Cursor::new(bytes)).with_guessed_format();
    match reader.map(|r| r.format()) {
        Ok(Some(::image::ImageFormat::Gif)) => Format::Gif,
        Ok(Some(::image::ImageFormat::WebP)) => Format::WebP,
        _ => Format::Other,
    }
}

/// Relies on `image::codecs::gif::GifDecoder` and `Frames::collect_frames`:
/// each frame's RGBA8 buffer, offset and delay, whose ratio has a nonzero
/// denominator.
#[verifier::external_body]
pub(crate) fn decode_gif_frames(bytes: &[u8]) -> (r: Result<Vec<Frame>, ::image::ImageError>)
    ensures
        r is Ok <==> gif_frames_of(bytes@) is Some,
        r matches Ok(v) ==> frames_view(v@) == gif_frames_of(bytes@).unwrap() && all_wf(
            frames_view(v@),
        ),
{
    let decoder = ::image::codecs::gif::GifDecoder::new(Cursor::new(bytes))?;
    let frames = decoder.into_frames().collect_frames()?;
    Ok(frames.into_iter().map(|f| {
        let (left, top, (numer, denom)) = (f.left(), f.top(), f.delay().numer_denom_ms());
        let b = f.into_buffer();
        let (width, height) = b.dimensions();
        let image = Raster { width, height, pixels: b.into_raw() };
        Frame { image, left, top, delay: Delay { numer, denom } }
    }).collect())
}

/// Relies on `image::codecs::webp::WebPDecoder` and `Frames::collect_frames`:
/// each frame's RGBA8 buffer, offset and delay, whose ratio has a nonzero
/// denominator.
#[verifier::external_body]
pub(crate) fn decode_webp_frames(bytes: &[u8]) -> (r: Result<Vec<Frame>, ::image::ImageError>)
    ensures
        r is Ok <==> webp_frames_of(bytes@) is Some,
        r matches Ok(v) ==> frames_view(v@) == webp_frames_of(bytes@).unwrap() && all_wf(
            frames_view(v@),
        ),
{
    let decoder = ::image::codecs::webp::WebPDecoder::new(Cursor::new(bytes))?;
    let frames = decoder.into_frames().collect_frames()?;
    Ok(frames.into_iter().map(|f| {
        let (left, top, (numer, denom)) = (f.left(), f.top(), f.delay().numer_denom_ms());
        let b = f.into_buffer();
        let (width, height) = b.dimensions();
        let image = Raster { width, height, pixels: b.into_raw() };
        Frame { image, left, top, delay: Delay { numer, denom } }
    }).collect())
}

/// Relies on `DynamicImage::write_to`, which converts the RGBA8 pixels to a
/// colour type that the format's encoder supports.
#[verifier::external_body]
pub(crate) fn write_image(r: &Raster, format: ImageFormat) -> (res: Result<Vec<u8>, ::image::ImageError>)
    requires
        r.wf(),
    ensures
        res is Ok <==> written_of(r@, format) is Some,
        res matches Ok(b) ==> b@ == written_of(r@, format).unwrap(),
{
    let format = match format {
        ImageFormat::Png => ::image::ImageFormat::Png,
        ImageFormat::Jpeg => ::image::ImageFormat::Jpeg,
        ImageFormat::WebP => ::image::ImageFormat::WebP,
    };
    let image = ::image::RgbaImage::from_raw(r.width, r.height, r.pixels.clone()).unwrap();
    let mut buffer = Vec::new();
    ::image::DynamicImage::ImageRgba8(image).write_to(&mut Cursor::new(&mut buffer), format)?;
    Ok(buffer)
}

/// Relies on `image::codecs::gif::GifEncoder` with `Repeat::Infinite` and
/// `encode_frames`: the frames are written in the order given.
#[verifier::external_body]
pub(crate) fn write_gif(frames: &Vec<Frame>) -> (res: Result<Vec<u8>, ::image::ImageError>)
    requires
        all_wf(frames_view(frames@)),
    ensures
        res is Ok <==> gif_of(frames_view(frames@)) is Some,
        res matches Ok(b) ==> b@ == gif_of(frames_view(frames@)).unwrap(),
{
    let frames: Vec<::image::Frame> = frames.iter().map(|f| {
        let (i, d) = (&f.image, f.delay);
        let buffer = ::image::RgbaImage::from_raw(i.width, i.height, i.pixels.clone()).unwrap();
        ::image::Frame::from_parts(buffer, f.left, f.top, ::image::Delay::from_numer_denom_ms(d.numer, d.denom))
    }).collect();
    let mut buffer = Vec::new();
    {
        let mut encoder = ::image::codecs::gif::GifEncoder::new(&mut buffer);
        encoder.set_repeat(::image::codecs::gif::Repeat::Infinite)?;
        encoder.encode_frames(frames)?;
    }
    Ok(buffer)
}

/// Relies on `DynamicImage::resize_exact` (`imageops::resize`): the result is
/// exactly `width` by `height`, and a non-empty image asked for its own size is
/// copied unchanged.
#[verifier::external_body]
pub(crate) fn resize_exact(r: &Raster, width: u32, height: u32, filter: Filter) -> (out: Raster)
    requires
        r.wf(),
        4 * (width * height) <= usize::MAX,
    ensures
        out@ == resized_of(r@, width, height, filter),
        out.width == width && out.height == height && out.wf(),
        r.width == width && r.height == height && width > 0 && height > 0 ==> out@ == r@,
{
    let filter = match filter {
        Filter::Triangle => ::image::imageops::FilterType::Triangle,
        Filter::CatmullRom => ::image::imageops::FilterType::CatmullRom,
        Filter::Lanczos3 => ::image::imageops::FilterType::Lanczos3,
    };
    let image = ::image::RgbaImage::from_raw(r.width, r.height, r.pixels.clone()).unwrap();
    let out = ::image::DynamicImage::ImageRgba8(image).resize_exact(width, height, filter);
    Raster { width, height, pixels: out.into_rgba8().into_raw() }
}

/// Relies on `image::imageops::overlay`: the bottom keeps its size, and where
/// the top covers it exactly and every top pixel is opaque, the top's pixels
/// replace the bottom's (`Blend for Rgba` copies an opaque pixel).
#[verifier::external_body]
pub(crate) fn overlay(bottom: &mut Raster, top: &Raster, x: i64, y: i64)
    requires
        old(bottom).wf(),
        top.wf(),
    ensures
        final(bottom)@ == overlaid_of(old(bottom)@, top@, x, y),
        final(bottom).width == old(bottom).width,
        final(bottom).height == old(bottom).height,
        final(bottom).wf(),
        x == 0 && y == 0 && top.width == old(bottom).width && top.height == old(bottom).height
            && top@.opaque() ==> final(bottom)@ == top@,
{
    let pixels = std::mem::take(&mut bottom.pixels);
    let mut canvas = ::image::RgbaImage::from_raw(bottom.width, bottom.height, pixels).unwrap();
    let top = ::image::RgbaImage::from_raw(top.width, top.height, top.pixels.clone()).unwrap();
    ::image::imageops::overlay(&mut canvas, &top, x, y);
    bottom.pixels = canvas.into_raw();
}

/// Relies on `image::Delay::from_saturating_duration`: a ratio of milliseconds
/// whose denominator is nonzero.
#[verifier::external_body]
pub(crate) fn delay_from_duration(d: Duration) -> (r: Delay)
    ensures
        r == delay_of_duration(d),
        r.denom > 0,
{
    let (numer, denom) = ::image::Delay::from_saturating_duration(d).numer_denom_ms();
    Delay { numer, denom }
}

/// Relies on `base64::engine::general_purpose::STANDARD.decode`.
#[verifier::external_body]
pub(crate) fn decode_base64(text: &str) -> (r: Result<Vec<u8>, ::base64::DecodeError>)
    ensures
        r is Ok <==> base64_decoded_of(text@) is Some,
        r matches Ok(v) ==> v@ == base64_decoded_of(text@).unwrap(),
{
    ::base64::engine::general_purpose::STANDARD.decode(text)
}

} // verus!
