//! The animation pipeline over GIF bytes: split, reverse, retime, and the
//! building of an animation from still images.
use vstd::prelude::*;
use std::sync::Arc;
use std::time::Duration;
use crate::animation::{
    Delay, Frame, FrameModel, all_wf, frames_view, retime_frames, retimed, reverse_frames,
};
use crate::codec::{
    decode_gif_frames, decoded_of, delay_from_duration, delay_of_duration, gif_frames_of, gif_of,
    png_of, resize_exact, resized_of, write_gif,
};
use crate::image::{ImageBuilder, builders_view, bytes_of, decode, encode};
use crate::raster::Picture;
use crate::types::{Error, Filter};

verus! {

/// The GIF bytes of a frame sequence, or `Encode` when the encoder rejects it.
pub open spec fn gif_encoded(frames: Seq<FrameModel>) -> Result<Seq<u8>, Error> {
    match gif_of(frames) {
        Some(b) => Ok(b),
        None => Err(Error::Encode),
    }
}

/// The frames of an animated GIF: `Decode` when the bytes are no GIF,
/// `Animation` when they hold at most one frame.
pub open spec fn animation_of(bytes: Seq<u8>) -> Result<Seq<FrameModel>, Error> {
    match gif_frames_of(bytes) {
        None => Err(Error::Decode),
        Some(f) => if f.len() <= 1 {
            Err(Error::Animation)
        } else {
            Ok(f)
        },
    }
}

/// One PNG per frame, in frame order.
pub open spec fn split_of(bytes: Seq<u8>) -> Result<Seq<Seq<u8>>, Error> {
    match animation_of(bytes) {
        Err(e) => Err(e),
        Ok(f) => if forall|i: int| 0 <= i < f.len() ==> (#[trigger] png_of(f[i].picture)) is Some {
            Ok(Seq::new(f.len(), |i: int| png_of(f[i].picture).unwrap()))
        } else {
            Err(Error::Encode)
        },
    }
}

/// The frames in reverse order, each with its own delay.
pub open spec fn reversed_of(bytes: Seq<u8>) -> Result<Seq<u8>, Error> {
    match animation_of(bytes) {
        Err(e) => Err(e),
        Ok(f) => gif_encoded(f.reverse()),
    }
}

/// The frames with one uniform delay.
pub open spec fn retimed_of(bytes: Seq<u8>, delay: Delay) -> Result<Seq<u8>, Error> {
    match animation_of(bytes) {
        Err(e) => Err(e),
        Ok(f) => gif_encoded(retimed(f, delay)),
    }
}

/// The delay that `gif_merge` gives each frame: the duration's, or 20 ms.
pub open spec fn merge_delay(duration: Option<Duration>) -> Delay {
    match duration {
        Some(d) => delay_of_duration(d),
        None => Delay { numer: 20, denom: 1 },
    }
}

/// The frame that `gif_frame` makes of a decoded picture.
pub open spec fn frame_of(p: Picture, width: u32, height: u32, delay: Delay) -> FrameModel {
    FrameModel { picture: resized_of(p, width, height, Filter::Lanczos3), left: 0, top: 0, delay }
}

/// An animation of the images, each resampled to the first one's size.
pub open spec fn gif_merged(images: Seq<Seq<u8>>, delay: Delay) -> Result<Seq<u8>, Error> {
    if images.len() == 0 {
        Err(Error::Input)
    } else if exists|i: int| 0 <= i < images.len() && decoded_of(#[trigger] images[i]) is None {
        Err(Error::Decode)
    } else {
        let first = decoded_of(images[0]).unwrap();
        gif_encoded(
            Seq::new(
                images.len(),
                |i: int| frame_of(decoded_of(images[i]).unwrap(), first.width, first.height, delay),
            ),
        )
    }
}

/// The byte strings of a list of results.
pub open spec fn byte_strings(v: Seq<Vec<u8>>) -> Seq<Seq<u8>> {
    v.map_values(|b: Vec<u8>| b@)
}

/// Encodes frames as an infinitely looping GIF, in the order given.
pub fn encode_gif(frames: Vec<Frame>) -> (r: Result<Vec<u8>, Error>)
    requires
        all_wf(frames_view(frames@)),
    ensures
        bytes_of(r) == gif_encoded(frames_view(frames@)),
{
    match write_gif(&frames) {
        Ok(b) => Ok(b),
        Err(_) => Err(Error::Encode),
    }
}

/// Encoded GIF bytes, on which the animation operations work.
#[derive(Clone)]
pub struct Gif(Arc<Vec<u8>>);

impl View for Gif {
    type V = Seq<u8>;

    closed spec fn view(&self) -> Seq<u8> {
        self.0@
    }
}

impl Gif {
    /// The animation held by a builder.
    pub fn new(image: ImageBuilder) -> (r: Gif)
        ensures
            r@ == image@,
    {
        Gif(image.shared())
    }

    fn frames(&self) -> (r: Result<Vec<Frame>, Error>)
        ensures
            r matches Ok(v) ==> animation_of(self@) == Ok::<Seq<FrameModel>, Error>(
                frames_view(v@),
            ) && all_wf(frames_view(v@)),
            r matches Err(e) ==> animation_of(self@) == Err::<Seq<FrameModel>, Error>(e),
    {
        match decode_gif_frames(self.0.as_slice()) {
            Ok(frames) => if frames.len() <= 1 {
                Err(Error::Animation)
            } else {
                Ok(frames)
            },
            Err(_) => Err(Error::Decode),
        }
    }

    /// One PNG image per frame, in frame order, offsets and delays dropped.
    /// Fails with `Animation` when there is at most one frame.
    pub fn split(&self) -> (r: Result<Vec<Vec<u8>>, Error>)
        ensures
            r matches Ok(v) ==> split_of(self@) == Ok::<Seq<Seq<u8>>, Error>(byte_strings(v@))
                && v@.len() == gif_frames_of(self@).unwrap().len(),
            r matches Err(e) ==> split_of(self@) == Err::<Seq<Seq<u8>>, Error>(e),
    {
        let frames = self.frames()?;
        let ghost f = frames_view(frames@);
        let n = frames.len();
        let mut out: Vec<Vec<u8>> = Vec::new();
        let mut i: usize = 0;
        while i < n
            invariant
                n == frames@.len(),
                f == frames_view(frames@),
                animation_of(self@) == Ok::<Seq<FrameModel>, Error>(f),
                all_wf(f),
                i <= n,
                out@.len() == i,
                forall|j: int|
                    0 <= j < i ==> png_of(#[trigger] f[j].picture) == Some(out@[j]@),
            decreases n - i,
        {
            proof {
                assert(f[i as int].wf());
            }
            match encode(&frames[i].image) {
                Ok(b) => out.push(b),
                Err(e) => {
                    proof {
                        assert(png_of(f[i as int].picture) is None);
                        assert(e == Error::Encode);
                    }
                    return Err(e);
                },
            }
            i += 1;
        }
        proof {
            assert(byte_strings(out@) =~= Seq::new(f.len(), |j: int| png_of(f[j].picture).unwrap()));
        }
        Ok(out)
    }

    /// The animation played backwards, each frame keeping its delay. Fails
    /// with `Animation` when there is at most one frame.
    pub fn reverse(&self) -> (r: Result<Vec<u8>, Error>)
        ensures
            bytes_of(r) == reversed_of(self@),
    {
        let frames = self.frames()?;
        let frames = reverse_frames(frames);
        proof {
            let f = frames_view(frames@);
            assert forall|i: int| 0 <= i < f.len() implies #[trigger] f[i].wf() by {
                let g = f.reverse();
                assert(g.reverse()[i] == g[g.len() - 1 - i]);
            }
        }
        encode_gif(frames)
    }

    /// The animation with every frame shown for `duration`; pixels and
    /// offsets kept. Fails with `Animation` when there is at most one frame.
    pub fn change_duration(&self, duration: Duration) -> (r: Result<Vec<u8>, Error>)
        ensures
            bytes_of(r) == retimed_of(self@, delay_of_duration(duration)),
    {
        let frames = self.frames()?;
        let ghost old_f = frames_view(frames@);
        let delay = delay_from_duration(duration);
        let frames = retime_frames(frames, delay);
        proof {
            let f = frames_view(frames@);
            assert forall|i: int| 0 <= i < f.len() implies #[trigger] f[i].wf() by {
                assert(old_f[i].wf());
                assert(f[i] == retimed(old_f, delay)[i]);
            }
        }
        encode_gif(frames)
    }
}

/// The delay that `gif_merge` gives each frame: the duration's, or 20 ms
/// when absent.
pub fn frame_delay(duration: Option<Duration>) -> (r: Delay)
    ensures
        r == merge_delay(duration),
        r.denom > 0,
{
    match duration {
        Some(d) => delay_from_duration(d),
        None => Delay { numer: 20, denom: 1 },
    }
}

/// One frame of a built animation: the image decoded, resampled to
/// `width` by `height` with a Lanczos filter, placed at the origin.
pub fn gif_frame(image: &ImageBuilder, width: u32, height: u32, delay: Delay) -> (r: Result<
    Frame,
    Error,
>)
    requires
        4 * (width * height) <= usize::MAX,
        delay.denom > 0,
    ensures
        decoded_of(image@) is None ==> r matches Err(Error::Decode),
        decoded_of(image@) matches Some(p) ==> (r matches Ok(f) && f@ == frame_of(
            p,
            width,
            height,
            delay,
        ) && f.wf()),
{
    let decoded = decode(image.data().as_slice())?;
    let resized = resize_exact(&decoded, width, height, Filter::Lanczos3);
    Ok(Frame { image: resized, left: 0, top: 0, delay })
}

/// Builds an infinitely looping GIF with one frame per image, in input
/// order, each resampled to the first image's size and shown for `duration`
/// (20 ms when absent). Fails with `Input` on an empty list.
pub fn gif_merge(images: Vec<ImageBuilder>, duration: Option<Duration>) -> (r: Result<
    Vec<u8>,
    Error,
>)
    ensures
        bytes_of(r) == gif_merged(builders_view(images@), merge_delay(duration)),
{
    let ghost bs = builders_view(images@);
    if images.len() == 0 {
        return Err(Error::Input);
    }
    let delay = frame_delay(duration);
    let first = decode(images[0].data().as_slice());
    let first = match first {
        Ok(f) => f,
        Err(e) => {
            proof {
                assert(decoded_of(bs[0]) is None);
            }
            return Err(e);
        },
    };
    let (width, height) = (first.width, first.height);
    let first_len = first.pixels.len();
    proof {
        assert(first_len == 4 * (width * height));
    }
    let n = images.len();
    let mut frames: Vec<Frame> = Vec::new();
    let mut i: usize = 0;
    while i < n
        invariant
            n == images@.len(),
            bs == builders_view(images@),
            delay == merge_delay(duration),
            delay.denom > 0,
            decoded_of(bs[0]) == Some(first@),
            width == first.width,
            height == first.height,
            4 * (width * height) <= usize::MAX,
            i <= n,
            frames@.len() == i,
            forall|j: int| 0 <= j < i ==> decoded_of(#[trigger] bs[j]) is Some,
            forall|j: int|
                0 <= j < i ==> #[trigger] frames@[j]@ == frame_of(
                    decoded_of(bs[j]).unwrap(),
                    width,
                    height,
                    delay,
                ) && frames@[j].wf(),
        decreases n - i,
    {
        match gif_frame(&images[i], width, height, delay) {
            Ok(f) => frames.push(f),
            Err(e) => {
                proof {
                    assert(decoded_of(bs[i as int]) is None);
                }
                return Err(e);
            },
        }
        i += 1;
    }
    proof {
        let first_p = decoded_of(bs[0]).unwrap();
        assert(frames_view(frames@) =~= Seq::new(
            bs.len(),
            |j: int| frame_of(decoded_of(bs[j]).unwrap(), first_p.width, first_p.height, delay),
        ));
        assert forall|j: int| 0 <= j < frames@.len() implies #[trigger] frames_view(frames@)[j].wf() by {
            assert(frames@[j].wf());
        }
    }
    encode_gif(frames)
}

} // verus!
