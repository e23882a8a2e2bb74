//! Image values (encoded bytes of a sniffed format) and the single-image and
//! multi-image operations on them.
use vstd::prelude::*;
use std::sync::Arc;
use crate::animation::{animation_info_of, frames_view};
use crate::codec::{
    base64_decoded_of, decode_base64, decode_gif_frames, decode_rgba, decode_webp_frames,
    decoded_of, format_of, gif_frames_of, png_of, resize_exact, resized_of,
    sniff_format, webp_frames_of, write_image, written_of,
};
use crate::compose::{merge_rasters, merged, pictures};
use crate::raster::{
    Picture, Raster, color_mask_picture, color_mask_raster, crop_fits, crop_picture, crop_raster,
    flip_picture, flip_raster, grayscale_picture, grayscale_raster, invert_picture, invert_raster,
    lemma_area_fits, mirage_picture, mirage_raster,
};
use crate::types::{
    AnimationInfo, Error, Filter, FlipMode, Format, ImageFormat, ImageInfo, MergeMode, Rgb,
};

verus! {

/// The PNG bytes of a picture, or `Encode` when the encoder rejects it.
pub open spec fn encoded(p: Picture) -> Result<Seq<u8>, Error> {
    match png_of(p) {
        Some(b) => Ok(b),
        None => Err(Error::Encode),
    }
}

/// The bytes of an operation's result.
pub open spec fn bytes_of(r: Result<Vec<u8>, Error>) -> Result<Seq<u8>, Error> {
    match r {
        Ok(v) => Ok(v@),
        Err(e) => Err(e),
    }
}

/// Decode, apply `f` to the pixels, encode as PNG.
pub open spec fn transformed(bytes: Seq<u8>, f: spec_fn(Picture) -> Picture) -> Result<Seq<u8>, Error> {
    match decoded_of(bytes) {
        Some(p) => encoded(f(p)),
        None => Err(Error::Decode),
    }
}

/// Decodes to RGBA8, mapping the decoder's error to `Decode`.
pub fn decode(bytes: &[u8]) -> (r: Result<Raster, Error>)
    ensures
        decoded_of(bytes@) is None ==> r == Err::<Raster, Error>(Error::Decode),
        decoded_of(bytes@) matches Some(p) ==> (r matches Ok(v) && v@ == p && v.wf()),
{
    match decode_rgba(bytes) {
        Ok(v) => Ok(v),
        Err(_) => Err(Error::Decode),
    }
}

/// Encodes as PNG, mapping the encoder's error to `Encode`.
pub fn encode(r: &Raster) -> (res: Result<Vec<u8>, Error>)
    requires
        r.wf(),
    ensures
        bytes_of(res) == encoded(r@),
{
    match write_image(r, ImageFormat::Png) {
        Ok(b) => Ok(b),
        Err(_) => Err(Error::Encode),
    }
}

/// Loads encoded image bytes.
#[derive(Clone)]
pub struct ImageBuilder(pub(crate) Arc<Vec<u8>>);

impl View for ImageBuilder {
    type V = Seq<u8>;

    closed spec fn view(&self) -> Seq<u8> {
        self.0@
    }
}

impl Default for ImageBuilder {
    fn default() -> (r: ImageBuilder)
        ensures
            r@ == Seq::<u8>::empty(),
    {
        ImageBuilder::new()
    }
}

impl ImageBuilder {
    /// A builder holding no bytes.
    pub fn new() -> (r: ImageBuilder)
        ensures
            r@ == Seq::<u8>::empty(),
    {
        ImageBuilder(Arc::new(Vec::new()))
    }

    /// A builder holding `buffer`.
    pub fn with_buffer(&self, buffer: Vec<u8>) -> (r: ImageBuilder)
        ensures
            r@ == buffer@,
    {
        ImageBuilder(Arc::new(buffer))
    }

    /// A builder holding the bytes that a standard base64 text decodes to.
    pub fn with_base64(&self, base64: &str) -> (r: Result<ImageBuilder, Error>)
        ensures
            base64_decoded_of(base64@) is None ==> r matches Err(Error::Base64),
            base64_decoded_of(base64@) matches Some(b) ==> (r matches Ok(v) && v@ == b),
    {
        match decode_base64(base64) {
            Ok(data) => Ok(ImageBuilder(Arc::new(data))),
            Err(_) => Err(Error::Base64),
        }
    }

    /// The held bytes.
    pub(crate) fn data(&self) -> (r: &Vec<u8>)
        ensures
            r@ == self@,
    {
        &self.0
    }

    /// A shared handle on the held bytes.
    pub(crate) fn shared(&self) -> (r: Arc<Vec<u8>>)
        ensures
            r@ == self@,
    {
        self.0.clone()
    }

    /// The image value of the held bytes.
    pub fn build(&self) -> (r: Image)
        ensures
            r@ == self@,
    {
        Image(self.0.clone())
    }
}

/// Encoded image bytes, shared and never changed; every operation yields new bytes.
#[derive(Clone)]
pub struct Image(Arc<Vec<u8>>);

impl View for Image {
    type V = Seq<u8>;

    closed spec fn view(&self) -> Seq<u8> {
        self.0@
    }
}

/// What `Image::info` reports for bytes that decode to `p`, given the frames
/// of an animated container.
pub open spec fn info_with_frames(p: Picture, a: AnimationInfo) -> ImageInfo {
    ImageInfo {
        width: p.width,
        height: p.height,
        is_multi_frame: a.frame_count > 1,
        frame_count: Some(a.frame_count),
        average_duration: a.frame_delay,
    }
}

/// What `Image::info` reports for bytes that decode to `p` in a still format.
pub open spec fn info_still(p: Picture) -> ImageInfo {
    ImageInfo {
        width: p.width,
        height: p.height,
        is_multi_frame: false,
        frame_count: Some(1),
        average_duration: None,
    }
}

/// The metadata of encoded bytes.
pub open spec fn info_of(bytes: Seq<u8>) -> Result<ImageInfo, Error> {
    match decoded_of(bytes) {
        None => Err(Error::Decode),
        Some(p) => match format_of(bytes) {
            Format::Gif => match gif_frames_of(bytes) {
                Some(f) => Ok(info_with_frames(p, animation_info_of(f))),
                None => Err(Error::Decode),
            },
            Format::WebP => match webp_frames_of(bytes) {
                Some(f) => Ok(info_with_frames(p, animation_info_of(f))),
                None => Err(Error::Decode),
            },
            Format::Other => Ok(info_still(p)),
        },
    }
}

/// A still image that decodes is reported with one frame and no animation.
pub proof fn lemma_info_still(bytes: Seq<u8>)
    requires
        format_of(bytes) == Format::Other,
        decoded_of(bytes) is Some,
    ensures
        info_of(bytes) matches Ok(i) && i.frame_count == Some(1u32) && !i.is_multi_frame
            && i.average_duration is None,
{
}

/// Encoded bytes re-encoded in the given format.
pub open spec fn reencoded(bytes: Seq<u8>, format: ImageFormat) -> Result<Seq<u8>, Error> {
    match decoded_of(bytes) {
        None => Err(Error::Decode),
        Some(p) => match written_of(p, format) {
            Some(b) => Ok(b),
            None => Err(Error::Encode),
        },
    }
}

/// The crop of encoded bytes, with the defaults for absent arguments.
pub open spec fn cropped(
    bytes: Seq<u8>,
    left: Option<u32>,
    top: Option<u32>,
    width: Option<u32>,
    height: Option<u32>,
) -> Result<Seq<u8>, Error> {
    let l = match left { Some(v) => v, None => 0u32 };
    let t = match top { Some(v) => v, None => 0u32 };
    let w = match width { Some(v) => v, None => 100u32 };
    let h = match height { Some(v) => v, None => 100u32 };
    match decoded_of(bytes) {
        None => Err(Error::Decode),
        Some(p) => if crop_fits(p, l, t, w, h) {
            encoded(crop_picture(p, l, t, w, h))
        } else {
            Err(Error::Bounds)
        },
    }
}

/// The resize of encoded bytes.
pub open spec fn resized(bytes: Seq<u8>, width: u32, height: u32) -> Result<Seq<u8>, Error> {
    match decoded_of(bytes) {
        None => Err(Error::Decode),
        Some(p) => if 4 * (width * height) <= usize::MAX {
            encoded(resized_of(p, width, height, Filter::Lanczos3))
        } else {
            Err(Error::Encode)
        },
    }
}

/// The smaller of two sizes.
pub open spec fn min_u32(a: u32, b: u32) -> u32 {
    if a < b {
        a
    } else {
        b
    }
}

/// The mirage composite of two encoded images, both first resampled to the
/// smaller width and the smaller height.
pub open spec fn mirage_of(visible: Seq<u8>, hidden: Seq<u8>) -> Result<Seq<u8>, Error> {
    match (decoded_of(visible), decoded_of(hidden)) {
        (Some(v), Some(h)) => {
            let w = min_u32(v.width, h.width);
            let ht = min_u32(v.height, h.height);
            encoded(
                mirage_picture(
                    resized_of(v, w, ht, Filter::CatmullRom),
                    resized_of(h, w, ht, Filter::CatmullRom),
                ),
            )
        },
        _ => Err(Error::Decode),
    }
}

/// The merge of encoded images.
pub open spec fn merged_bytes(images: Seq<Seq<u8>>, mode: MergeMode) -> Result<Seq<u8>, Error> {
    if images.len() == 0 {
        Err(Error::Input)
    } else if exists|i: int| 0 <= i < images.len() && decoded_of(#[trigger] images[i]) is None {
        Err(Error::Decode)
    } else {
        match merged(images.map_values(|b: Seq<u8>| decoded_of(b).unwrap()), mode) {
            Ok(p) => encoded(p),
            Err(e) => Err(e),
        }
    }
}

/// The byte contents of a list of builders.
pub open spec fn builders_view(images: Seq<ImageBuilder>) -> Seq<Seq<u8>> {
    images.map_values(|b: ImageBuilder| b@)
}

impl Image {
    /// An image value holding `image`.
    pub fn new(image: Vec<u8>) -> (r: Image)
        ensures
            r@ == image@,
    {
        Image(Arc::new(image))
    }

    /// The encoded bytes.
    pub fn bytes(&self) -> (r: &[u8])
        ensures
            r@ == self@,
    {
        self.0.as_slice()
    }

    /// Width, height and animation metadata.
    pub fn info(&self) -> (r: Result<ImageInfo, Error>)
        ensures
            r == info_of(self@),
    {
        let bytes = self.bytes();
        let format = sniff_format(bytes);
        let image = decode(bytes)?;
        match format {
            Format::Gif => match decode_gif_frames(bytes) {
                Ok(frames) => {
                    let a = AnimationInfo::from_frames(&frames);
                    Ok(info_with(&image, a))
                },
                Err(_) => Err(Error::Decode),
            },
            Format::WebP => match decode_webp_frames(bytes) {
                Ok(frames) => {
                    let a = AnimationInfo::from_frames(&frames);
                    Ok(info_with(&image, a))
                },
                Err(_) => Err(Error::Decode),
            },
            Format::Other => Ok(
                ImageInfo {
                    width: image.width,
                    height: image.height,
                    is_multi_frame: false,
                    frame_count: Some(1),
                    average_duration: None,
                },
            ),
        }
    }

    /// The image encoded in the given format; alpha is dropped where the
    /// format has none.
    pub fn encode(&self, format: ImageFormat) -> (r: Result<Vec<u8>, Error>)
        ensures
            bytes_of(r) == reencoded(self@, format),
    {
        let image = decode(self.bytes())?;
        match write_image(&image, format) {
            Ok(b) => Ok(b),
            Err(_) => Err(Error::Encode),
        }
    }

    /// Cuts out the rectangle whose top-left pixel is `(left, top)`; absent
    /// arguments default to 0, 0, 100 and 100. Fails with `Bounds` when the
    /// rectangle reaches outside the image.
    pub fn crop(
        &self,
        left: Option<u32>,
        top: Option<u32>,
        width: Option<u32>,
        height: Option<u32>,
    ) -> (r: Result<Vec<u8>, Error>)
        ensures
            bytes_of(r) == cropped(self@, left, top, width, height),
    {
        let left = match left { Some(v) => v, None => 0 };
        let top = match top { Some(v) => v, None => 0 };
        let width = match width { Some(v) => v, None => 100 };
        let height = match height { Some(v) => v, None => 100 };
        let image = decode(self.bytes())?;
        let cropped = crop_raster(&image, left, top, width, height)?;
        encode(&cropped)
    }

    /// Resamples to exactly `width` by `height` with a Lanczos filter.
    pub fn resize(&self, width: u32, height: u32) -> (r: Result<Vec<u8>, Error>)
        ensures
            bytes_of(r) == resized(self@, width, height),
    {
        let image = decode(self.bytes())?;
        proof {
            lemma_area_fits(width, height);
        }
        let area = width as u64 * height as u64;
        if area > (usize::MAX / 4) as u64 {
            return Err(Error::Encode);
        }
        let resized = resize_exact(&image, width, height, Filter::Lanczos3);
        encode(&resized)
    }

    /// Mirrors about the given axis.
    pub fn flip(&self, mode: FlipMode) -> (r: Result<Vec<u8>, Error>)
        ensures
            bytes_of(r) == transformed(self@, |p: Picture| flip_picture(p, mode)),
    {
        let image = decode(self.bytes())?;
        encode(&flip_raster(&image, mode))
    }

    /// Converts to gray, keeping alpha.
    pub fn grayscale(&self) -> (r: Result<Vec<u8>, Error>)
        ensures
            bytes_of(r) == transformed(self@, |p: Picture| grayscale_picture(p)),
    {
        let image = decode(self.bytes())?;
        encode(&grayscale_raster(&image))
    }

    /// Complements red, green and blue, keeping alpha.
    pub fn invert(&self) -> (r: Result<Vec<u8>, Error>)
        ensures
            bytes_of(r) == transformed(self@, |p: Picture| invert_picture(p)),
    {
        let image = decode(self.bytes())?;
        encode(&invert_raster(&image))
    }

    /// Blends a flat tint into every pixel at half the pixel's alpha.
    pub fn color_mask(&self, rgba: Rgb) -> (r: Result<Vec<u8>, Error>)
        ensures
            bytes_of(r) == transformed(self@, |p: Picture| color_mask_picture(p, rgba)),
    {
        let image = decode(self.bytes())?;
        encode(&color_mask_raster(&image, rgba))
    }

    /// Hides `image` in the alpha channel of this one: the result shows this
    /// image on a light background and the hidden one on a dark background.
    pub fn mirage(&self, image: ImageBuilder) -> (r: Result<Vec<u8>, Error>)
        ensures
            bytes_of(r) == mirage_of(self@, image@),
    {
        let visible = decode(self.bytes());
        let hidden = decode(image.data().as_slice());
        let (visible, hidden) = match (visible, hidden) {
            (Ok(v), Ok(h)) => (v, h),
            _ => return Err(Error::Decode),
        };
        let w = if visible.width < hidden.width { visible.width } else { hidden.width };
        let h = if visible.height < hidden.height { visible.height } else { hidden.height };
        let visible_len = visible.pixels.len();
        proof {
            assert(visible_len == 4 * (visible.width * visible.height));
            assert(4 * (w * h) <= 4 * (visible.width * visible.height)) by (nonlinear_arith)
                requires w <= visible.width, h <= visible.height;
        }
        let v = resize_exact(&visible, w, h, Filter::CatmullRom);
        let hd = resize_exact(&hidden, w, h, Filter::CatmullRom);
        encode(&mirage_raster(&v, &hd))
    }
}

fn info_with(image: &Raster, a: AnimationInfo) -> (r: ImageInfo)
    ensures
        r == info_with_frames(image@, a),
{
    ImageInfo {
        width: image.width,
        height: image.height,
        is_multi_frame: a.frame_count > 1,
        frame_count: Some(a.frame_count),
        average_duration: a.frame_delay,
    }
}

/// Concatenates the images side by side (scaled to the smallest height) or
/// stacked (scaled to the largest width). Fails with `Input` on an empty list.
pub fn image_merge(images: Vec<ImageBuilder>, mode: MergeMode) -> (r: Result<Vec<u8>, Error>)
    ensures
        bytes_of(r) == merged_bytes(builders_view(images@), mode),
{
    let ghost bs = builders_view(images@);
    if images.len() == 0 {
        return Err(Error::Input);
    }
    let n = images.len();
    let mut rasters: Vec<Raster> = Vec::new();
    let mut i: usize = 0;
    while i < n
        invariant
            n == images@.len(),
            bs == builders_view(images@),
            i <= n,
            rasters@.len() == i,
            forall|j: int| 0 <= j < i ==> decoded_of(#[trigger] bs[j]) is Some,
            forall|j: int|
                0 <= j < i ==> #[trigger] rasters@[j]@ == decoded_of(bs[j]).unwrap() && rasters@[j].wf(),
        decreases n - i,
    {
        match decode(images[i].data().as_slice()) {
            Ok(r) => rasters.push(r),
            Err(e) => {
                proof {
                    assert(decoded_of(bs[i as int]) is None);
                }
                return Err(e);
            },
        }
        i += 1;
    }
    proof {
        assert(pictures(rasters@) =~= bs.map_values(|b: Seq<u8>| decoded_of(b).unwrap()));
    }
    let merged = merge_rasters(&rasters, mode)?;
    encode(&merged)
}

} // verus!
