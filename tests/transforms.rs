use std::io::Cursor;

use base64::engine::general_purpose::STANDARD;
use base64::Engine;

use piccy::compose::merge_rasters;
use piccy::gif::{encode_gif, frame_delay, gif_merge, Gif};
use piccy::image::{image_merge, Image, ImageBuilder};
use piccy::animation::{reverse_frames, retime_frames, Delay, Frame};
use piccy::raster::{
    color_mask_raster, crop_raster, flip_raster, grayscale_raster, invert_raster, mirage_raster,
    Raster,
};
use piccy::rgb::{parse_rgb, RgbError};
use piccy::types::{AnimationInfo, Error, FlipMode, ImageFormat, MergeMode, Rgb};

fn pattern(width: u32, height: u32) -> Raster {
    let mut pixels = Vec::new();
    for y in 0..height {
        for x in 0..width {
            pixels.extend_from_slice(&[(x * 7 % 256) as u8, (y * 13 % 256) as u8, ((x + y) % 256) as u8, 255]);
        }
    }
    Raster { width, height, pixels }
}

fn png(r: &Raster) -> Vec<u8> {
    let img = image::RgbaImage::from_raw(r.width, r.height, r.pixels.clone()).unwrap();
    let mut out = Vec::new();
    image::DynamicImage::ImageRgba8(img)
        .write_to(&mut Cursor::new(&mut out), image::ImageFormat::Png)
        .unwrap();
    out
}

fn unpng(bytes: &[u8]) -> Raster {
    let img = image::load_from_memory(bytes).unwrap().into_rgba8();
    let (width, height) = img.dimensions();
    Raster { width, height, pixels: img.into_raw() }
}

fn frames(n: u32) -> Vec<Frame> {
    (0..n)
        .map(|i| {
            let mut r = pattern(4, 3);
            r.pixels[0] = (i * 40) as u8;
            Frame { image: r, left: 0, top: 0, delay: Delay { numer: 100 + 10 * i, denom: 1 } }
        })
        .collect()
}

fn gif_bytes(n: u32) -> Vec<u8> {
    encode_gif(frames(n)).unwrap()
}

#[test]
fn crop_inside_gives_requested_size() {
    let src = pattern(100, 100);
    let out = crop_raster(&src, 10, 10, 50, 50).unwrap();
    assert_eq!((out.width, out.height), (50, 50));
    assert_eq!(out.pixels.len(), 4 * 50 * 50);
    assert_eq!(&out.pixels[0..4], &src.pixels[4 * (10 * 100 + 10)..4 * (10 * 100 + 10) + 4]);
}

#[test]
fn crop_outside_is_bounds_error() {
    let src = pattern(100, 100);
    assert_eq!(crop_raster(&src, 10, 0, 95, 10).err(), Some(Error::Bounds));
    assert_eq!(crop_raster(&src, 0, 60, 10, 41).err(), Some(Error::Bounds));
}

#[test]
fn crop_encoded_image() {
    let image = Image::new(png(&pattern(100, 100)));
    let out = unpng(&image.crop(Some(10), Some(10), Some(50), Some(50)).unwrap());
    assert_eq!((out.width, out.height), (50, 50));
    assert_eq!(image.crop(Some(10), Some(10), Some(95), Some(50)).err(), Some(Error::Bounds));
}

#[test]
fn crop_defaults_to_hundred_square() {
    let image = Image::new(png(&pattern(120, 110)));
    let out = unpng(&image.crop(None, None, None, None).unwrap());
    assert_eq!((out.width, out.height), (100, 100));
    let small = Image::new(png(&pattern(50, 50)));
    assert_eq!(small.crop(None, None, None, None).err(), Some(Error::Bounds));
}

#[test]
fn crop_to_nothing_is_rejected_by_encoder() {
    let image = Image::new(png(&pattern(10, 10)));
    assert_eq!(image.crop(Some(0), Some(0), Some(0), Some(5)).err(), Some(Error::Encode));
}

#[test]
fn undecodable_bytes_fail_with_decode() {
    let image = Image::new(vec![1, 2, 3, 4, 5]);
    assert_eq!(image.invert().err(), Some(Error::Decode));
    assert_eq!(image.info().err(), Some(Error::Decode));
}

#[test]
fn flip_moves_pixels() {
    let src = pattern(3, 2);
    let h = flip_raster(&src, FlipMode::Horizontal);
    assert_eq!(&h.pixels[0..4], &src.pixels[8..12]);
    let v = flip_raster(&src, FlipMode::Vertical);
    assert_eq!(&v.pixels[0..4], &src.pixels[12..16]);
}

#[test]
fn flip_twice_restores_image() {
    let src = pattern(7, 5);
    let image = Image::new(png(&src));
    let once = image.flip(FlipMode::Horizontal).unwrap();
    let twice = Image::new(once).flip(FlipMode::Horizontal).unwrap();
    assert_eq!(unpng(&twice).pixels, src.pixels);
}

#[test]
fn grayscale_values_and_idempotence() {
    let src = Raster { width: 1, height: 1, pixels: vec![255, 0, 0, 77] };
    let g = grayscale_raster(&src);
    assert_eq!(g.pixels, vec![54, 54, 54, 77]);
    let image = Image::new(png(&pattern(9, 4)));
    let once = image.grayscale().unwrap();
    let twice = Image::new(once.clone()).grayscale().unwrap();
    assert_eq!(unpng(&once).pixels, unpng(&twice).pixels);
    assert_ne!(unpng(&once).pixels, pattern(9, 4).pixels);
}

#[test]
fn invert_keeps_alpha() {
    let src = Raster { width: 1, height: 1, pixels: vec![0, 100, 255, 9] };
    assert_eq!(invert_raster(&src).pixels, vec![255, 155, 0, 9]);
}

#[test]
fn color_mask_half_strength() {
    let src = Raster { width: 2, height: 1, pixels: vec![0, 0, 0, 255, 100, 100, 100, 0] };
    let out = color_mask_raster(&src, Rgb([255, 100, 0]));
    // opaque black: half the tint, rounded; transparent pixel: unchanged
    assert_eq!(out.pixels, vec![128, 50, 0, 255, 100, 100, 100, 0]);
}

#[test]
fn mirage_pixel_values() {
    let white = Raster { width: 1, height: 1, pixels: vec![255, 255, 255, 255] };
    let black = Raster { width: 1, height: 1, pixels: vec![0, 0, 0, 255] };
    // wc = 255, bc = 0: alpha 0, gray 0
    assert_eq!(mirage_raster(&white, &black).pixels, vec![0, 0, 0, 0]);
    // wc = 0, bc = 127.5: alpha 255, gray 127.5 rounds to 128
    assert_eq!(mirage_raster(&black, &white).pixels, vec![128, 128, 128, 255]);
    // wc = 255, bc = 127.5: alpha 127.5 -> 128, gray 255
    assert_eq!(mirage_raster(&white, &white).pixels, vec![255, 255, 255, 128]);
}

#[test]
fn mirage_of_same_image_is_reproducible() {
    let bytes = png(&pattern(6, 5));
    let image = Image::new(bytes.clone());
    let a = image.mirage(ImageBuilder::new().with_buffer(bytes.clone())).unwrap();
    let b = image.mirage(ImageBuilder::new().with_buffer(bytes)).unwrap();
    assert_eq!(a, b);
    assert_eq!(unpng(&a).width, 6);
}

#[test]
fn mirage_uses_smaller_size() {
    let image = Image::new(png(&pattern(8, 3)));
    let out = image.mirage(ImageBuilder::new().with_buffer(png(&pattern(5, 6)))).unwrap();
    let r = unpng(&out);
    assert_eq!((r.width, r.height), (5, 3));
}

#[test]
fn resize_gives_exact_size() {
    let image = Image::new(png(&pattern(10, 10)));
    let r = unpng(&image.resize(4, 7).unwrap());
    assert_eq!((r.width, r.height), (4, 7));
}

#[test]
fn encode_in_other_formats() {
    let image = Image::new(png(&pattern(10, 10)));
    let jpeg = image.encode(ImageFormat::Jpeg).unwrap();
    assert_eq!(image::guess_format(&jpeg).unwrap(), image::ImageFormat::Jpeg);
    let back = unpng(&image.encode(ImageFormat::Png).unwrap());
    assert_eq!(back.pixels, pattern(10, 10).pixels);
}

#[test]
fn info_of_still_png() {
    let info = Image::new(png(&pattern(12, 9))).info().unwrap();
    assert_eq!((info.width, info.height), (12, 9));
    assert_eq!(info.frame_count, Some(1));
    assert!(!info.is_multi_frame);
    assert_eq!(info.average_duration, None);
}

#[test]
fn info_of_animated_gif() {
    let info = Image::new(gif_bytes(3)).info().unwrap();
    assert_eq!(info.frame_count, Some(3));
    assert!(info.is_multi_frame);
    assert_eq!(info.average_duration, Some(110));
}

#[test]
fn animation_info_averages_delays() {
    let fs = frames(4);
    let a = AnimationInfo::from_frames(&fs);
    assert_eq!(a.frame_count, 4);
    assert_eq!(a.frame_delay, Some(115));
    let one = AnimationInfo::from_frames(&frames(1));
    assert_eq!(one.frame_delay, None);
}

#[test]
fn split_gives_one_image_per_frame() {
    let gif = Gif::new(ImageBuilder::new().with_buffer(gif_bytes(3)));
    let parts = gif.split().unwrap();
    assert_eq!(parts.len(), 3);
    assert_eq!(unpng(&parts[1]).width, 4);
}

#[test]
fn still_gif_is_not_an_animation() {
    let gif = Gif::new(ImageBuilder::new().with_buffer(gif_bytes(1)));
    assert_eq!(gif.split().err(), Some(Error::Animation));
    assert_eq!(gif.reverse().err(), Some(Error::Animation));
}

#[test]
fn reverse_twice_restores_frames() {
    let fs = frames(3);
    let once = reverse_frames(frames(3));
    assert_eq!(once[0].delay, Delay { numer: 120, denom: 1 });
    let twice = reverse_frames(once);
    for (a, b) in twice.iter().zip(fs.iter()) {
        assert_eq!(a.delay, b.delay);
        assert_eq!(a.image.pixels, b.image.pixels);
    }
    let gif = Gif::new(ImageBuilder::new().with_buffer(gif_bytes(3)));
    let back = Gif::new(ImageBuilder::new().with_buffer(gif.reverse().unwrap())).reverse().unwrap();
    let parts = Gif::new(ImageBuilder::new().with_buffer(back)).split().unwrap();
    let orig = Gif::new(ImageBuilder::new().with_buffer(gif_bytes(3))).split().unwrap();
    assert_eq!(parts.len(), orig.len());
    for (a, b) in parts.iter().zip(orig.iter()) {
        assert_eq!(unpng(a).pixels, unpng(b).pixels);
    }
}

#[test]
fn retime_sets_every_delay() {
    let out = retime_frames(frames(3), Delay { numer: 50, denom: 1 });
    assert!(out.iter().all(|f| f.delay == Delay { numer: 50, denom: 1 }));
    let gif = Gif::new(ImageBuilder::new().with_buffer(gif_bytes(3)));
    let bytes = gif.change_duration(std::time::Duration::from_millis(50)).unwrap();
    let info = Image::new(bytes).info().unwrap();
    assert_eq!(info.average_duration, Some(50));
}

#[test]
fn merge_single_opaque_image_is_copy() {
    let src = pattern(6, 4);
    let out = merge_rasters(&vec![pattern(6, 4)], MergeMode::Horizontal).unwrap();
    assert_eq!((out.width, out.height), (6, 4));
    assert_eq!(out.pixels, src.pixels);
}

#[test]
fn merge_layouts() {
    let a = ImageBuilder::new().with_buffer(png(&pattern(4, 4)));
    let b = ImageBuilder::new().with_buffer(png(&pattern(6, 2)));
    let h = unpng(&image_merge(vec![a.clone(), b.clone()], MergeMode::Horizontal).unwrap());
    assert_eq!((h.width, h.height), (2 + 6, 2));
    let v = unpng(&image_merge(vec![a, b], MergeMode::Vertical).unwrap());
    assert_eq!((v.width, v.height), (6, 6));
}

#[test]
fn merge_of_nothing_is_input_error() {
    assert_eq!(image_merge(Vec::new(), MergeMode::Horizontal).err(), Some(Error::Input));
    assert_eq!(gif_merge(Vec::new(), None).err(), Some(Error::Input));
}

#[test]
fn gif_merge_builds_animation() {
    let a = ImageBuilder::new().with_buffer(png(&pattern(5, 4)));
    let b = ImageBuilder::new().with_buffer(png(&pattern(9, 9)));
    let bytes = gif_merge(vec![a, b], None).unwrap();
    let info = Image::new(bytes).info().unwrap();
    assert_eq!((info.width, info.height), (5, 4));
    assert_eq!(info.frame_count, Some(2));
    assert_eq!(info.average_duration, Some(20));
}

#[test]
fn base64_builder() {
    let b = ImageBuilder::new().with_base64("AQID").unwrap();
    let info = Image::new(vec![1, 2, 3]).info();
    assert_eq!(info.err(), Some(Error::Decode));
    assert_eq!(b.build().info().err(), Some(Error::Decode));
    assert!(matches!(ImageBuilder::new().with_base64("!!"), Err(Error::Base64)));
    let encoded = STANDARD.encode(png(&pattern(3, 2)));
    let info = ImageBuilder::new().with_base64(&encoded).unwrap().build().info().unwrap();
    assert_eq!((info.width, info.height), (3, 2));
}

#[test]
fn parse_rgb_accepts_three_parts() {
    let c = parse_rgb(" 12, +34 ,255").unwrap();
    assert_eq!(c.0, [12, 34, 255]);
    let c = parse_rgb("007,0,1").unwrap();
    assert_eq!(c.0, [7, 0, 1]);
}

#[test]
fn parse_rgb_rejects_bad_text() {
    assert_eq!(parse_rgb("1,2").err(), Some(RgbError::ComponentCount));
    assert_eq!(parse_rgb("1,2,3,4").err(), Some(RgbError::ComponentCount));
    assert_eq!(parse_rgb("1,2,256").err(), Some(RgbError::InvalidComponent));
    assert_eq!(parse_rgb("1,,3").err(), Some(RgbError::InvalidComponent));
    assert_eq!(parse_rgb("1,-2,3").err(), Some(RgbError::InvalidComponent));
    assert_eq!(parse_rgb("1,+,3").err(), Some(RgbError::InvalidComponent));
    assert_eq!(RgbError::ComponentCount.message(), "RGB string must have three components");
}

#[test]
fn still_webp_has_no_animation() {
    let image = Image::new(png(&pattern(5, 3)));
    let webp = image.encode(ImageFormat::WebP).unwrap();
    let info = Image::new(webp).info().unwrap();
    assert_eq!((info.width, info.height), (5, 3));
    assert!(!info.is_multi_frame);
    assert_eq!(info.frame_count, Some(0));
    assert_eq!(info.average_duration, None);
}

#[test]
fn merge_places_pixels_side_by_side() {
    let a = pattern(2, 2);
    let stripes = || Raster {
        width: 3,
        height: 2,
        pixels: (0..24).map(|i| if i % 4 == 3 { 255 } else { i as u8 }).collect(),
    };
    let b = stripes();
    let merged = merge_rasters(&vec![pattern(2, 2), stripes()], MergeMode::Horizontal).unwrap();
    assert_eq!((merged.width, merged.height), (5, 2));
    let row = |r: &Raster, y: usize, from: usize, to: usize| {
        let w = r.width as usize;
        r.pixels[4 * (y * w + from)..4 * (y * w + to)].to_vec()
    };
    for y in 0..2 {
        assert_eq!(row(&merged, y, 0, 2), row(&a, y, 0, 2));
        assert_eq!(row(&merged, y, 2, 5), row(&b, y, 0, 3));
    }
}

#[test]
fn frame_delay_defaults_to_twenty_ms() {
    assert_eq!(frame_delay(None), Delay { numer: 20, denom: 1 });
    assert_eq!(frame_delay(Some(std::time::Duration::from_millis(70))), Delay { numer: 70, denom: 1 });
}
