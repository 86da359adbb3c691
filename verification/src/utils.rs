//! File types, fetched replies, and the resizing of animated images.
//!
//! An animated image is handled as a list of frames, each a square grid of
//! RGBA pixels held as plain bytes. Decoding, resampling and encoding are
//! done by the `image` crate; what is decided round them is verified here.

use crate::text::{ascii_lowercase, same_text, to_ascii_lowercase};
use image::codecs::gif::{GifDecoder, GifEncoder, Repeat};
use image::imageops::FilterType;
use image::{AnimationDecoder, Delay, Frame, ImageError, RgbaImage};
use std::io::Cursor;
use std::time::Duration;
use vstd::prelude::*;

verus! {

// ---------------------------------------------------------------------------
// File types
// ---------------------------------------------------------------------------

/// The media type that belongs to a file extension, whatever its case:
/// `image/gif` for `gif`, `image/png` for `png`, none for anything else.
pub open spec fn mime_type_of(ext: Seq<char>) -> Option<Seq<char>> {
    if ascii_lowercase(ext) == "gif"@ {
        Some("image/gif"@)
    } else if ascii_lowercase(ext) == "png"@ {
        Some("image/png"@)
    } else {
        None
    }
}

/// The media type of a file with the extension `ext`. Only `gif` and `png`
/// are known; every other extension gives `None`.
pub fn mime_type_from_extension(ext: &str) -> (r: Option<String>)
    ensures
        match r {
            Some(mime) => mime_type_of(ext@) == Some(mime@),
            None => mime_type_of(ext@) is None,
        },
        r is Some <==> ascii_lowercase(ext@) == "gif"@ || ascii_lowercase(ext@) == "png"@,
{
    let lowered = to_ascii_lowercase(ext);
    if same_text(lowered.as_str(), "gif") {
        Some(String::from_str("image/gif"))
    } else if same_text(lowered.as_str(), "png") {
        Some(String::from_str("image/png"))
    } else {
        None
    }
}

// ---------------------------------------------------------------------------
// Replies
// ---------------------------------------------------------------------------

/// Whether an HTTP status code reports success: 200 to 299.
pub open spec fn success_status(status: u16) -> bool {
    200 <= status < 300
}

/// Whether the HTTP status code `status` reports success.
pub fn is_success(status: u16) -> (r: bool)
    ensures
        r == success_status(status),
{
    200 <= status && status < 300
}

// ---------------------------------------------------------------------------
// Frames
// ---------------------------------------------------------------------------

/// One frame of an animation: `width` times `height` pixels, row by row,
/// four bytes (red, green, blue, alpha) to a pixel.
#[derive(Debug)]
pub struct AnimationFrame {
    pub width: u32,
    pub height: u32,
    pub pixels: Vec<u8>,
}

/// What an [`AnimationFrame`] holds, as plain values.
pub struct FrameView {
    pub width: nat,
    pub height: nat,
    pub pixels: Seq<u8>,
}

impl View for AnimationFrame {
    type V = FrameView;

    open spec fn view(&self) -> FrameView {
        FrameView {
            width: self.width as nat,
            height: self.height as nat,
            pixels: self.pixels@,
        }
    }
}

impl FrameView {
    /// Whether the frame holds exactly the bytes of its pixels.
    pub open spec fn well_formed(self) -> bool {
        self.pixels.len() == 4 * self.width * self.height
    }
}

/// The views of a list of frames, in order.
pub open spec fn frame_views(frames: Seq<AnimationFrame>) -> Seq<FrameView> {
    Seq::new(frames.len(), |i: int| frames[i]@)
}

/// Whether every frame of the list holds exactly the bytes of its pixels.
pub open spec fn all_well_formed(frames: Seq<FrameView>) -> bool {
    forall|i: int| 0 <= i < frames.len() ==> (#[trigger] frames[i]).well_formed()
}

/// The frames that the `image` crate decodes from a GIF payload, each
/// composed over the whole canvas; `None` where it reports an error.
pub uninterp spec fn gif_frames(payload: Seq<u8>) -> Option<Seq<FrameView>>;

/// The pixels that the `image` crate gives for a grid of `width` times
/// `height` pixels resampled to `new_width` times `new_height` with its
/// nearest-neighbour filter.
pub uninterp spec fn resized_pixels(
    pixels: Seq<u8>,
    width: nat,
    height: nat,
    new_width: nat,
    new_height: nat,
) -> Seq<u8>;

/// The bytes of the GIF that the `image` crate encodes from the frames:
/// looping without end, every frame placed at the origin and shown for
/// `delay_ms` milliseconds. `None` where it reports an error.
pub uninterp spec fn gif_bytes(frames: Seq<FrameView>, delay_ms: nat) -> Option<Seq<u8>>;

/// An error of the `image` crate.
#[verifier::external_type_specification]
#[verifier::external_body]
pub struct ExImageError(image::ImageError);

/// Decodes all frames of a GIF.
///
/// Trusted: `GifDecoder::new` on a cursor over the payload, then
/// `AnimationDecoder::into_frames` and `Frames::collect_frames` of the
/// `image` crate. The decoder hands out every frame as an RGBA buffer of
/// exactly `4 * width * height` bytes; these are moved into frames of this
/// library unchanged. The outcome depends on the payload alone.
#[verifier::external_body]
fn decode_gif(payload: &[u8]) -> (r: Result<Vec<AnimationFrame>, ImageError>)
    ensures
        match r {
            Ok(frames) => gif_frames(payload@) == Some(frame_views(frames@)) && all_well_formed(
                frame_views(frames@),
            ),
            Err(_) => gif_frames(payload@) is None,
        },
{
    let decoder = GifDecoder::new(Cursor::new(payload))?;
    let frames = decoder.into_frames().collect_frames()?;
    let own = frames.into_iter().map(|f| {
        let (width, height) = f.buffer().dimensions();
        AnimationFrame { width, height, pixels: f.into_buffer().into_raw() }
    });
    Ok(own.collect())
}

/// Resamples a grid of pixels with the nearest-neighbour filter.
///
/// Trusted: `imageops::resize` of the `image` crate with
/// `FilterType::Nearest`, on an image buffer made of the given bytes. The
/// result has exactly `4 * new_width * new_height` bytes and depends on the
/// arguments alone. The crate stops the program where one of its buffers
/// would be larger than a vector can be: the buffer of the result, of four
/// bytes to a pixel, and a working buffer of `width` times `new_height`
/// pixels of sixteen bytes each. The `requires` leaves those sizes out.
#[verifier::external_body]
fn resize_nearest(pixels: &Vec<u8>, width: u32, height: u32, new_width: u32, new_height: u32) -> (r:
    Vec<u8>)
    requires
        pixels@.len() == 4 * width * height,
        16 * width * new_height <= isize::MAX,
        4 * new_width * new_height <= isize::MAX,
    ensures
        r@ == resized_pixels(
            pixels@,
            width as nat,
            height as nat,
            new_width as nat,
            new_height as nat,
        ),
        r@.len() == 4 * new_width * new_height,
{
    let source = RgbaImage::from_raw(width, height, pixels.clone()).unwrap();
    image::imageops::resize(&source, new_width, new_height, FilterType::Nearest).into_raw()
}

/// Encodes frames as a GIF that loops without end.
///
/// Trusted: `GifEncoder::new` on a vector, `GifEncoder::set_repeat` with
/// `Repeat::Infinite` and `GifEncoder::encode_frames` of the `image` crate,
/// on frames made by `Frame::from_parts` at the origin with the delay that
/// `Delay::from_saturating_duration` gives for `delay_ms` milliseconds. The
/// outcome depends on the arguments alone. The encoder stops the program on
/// a frame that does not hold exactly the bytes of its pixels; the
/// `requires` leaves such frames out.
#[verifier::external_body]
fn encode_looping_gif(frames: &Vec<AnimationFrame>, delay_ms: u32) -> (r: Result<
    Vec<u8>,
    ImageError,
>)
    requires
        all_well_formed(frame_views(frames@)),
    ensures
        match r {
            Ok(bytes) => gif_bytes(frame_views(frames@), delay_ms as nat) == Some(bytes@),
            Err(_) => gif_bytes(frame_views(frames@), delay_ms as nat) is None,
        },
{
    let delay = Delay::from_saturating_duration(Duration::from_millis(delay_ms.into()));
    let parts = frames.iter().map(|f| {
        let buffer = RgbaImage::from_raw(f.width, f.height, f.pixels.clone()).unwrap();
        Frame::from_parts(buffer, 0, 0, delay)
    });
    let mut out: Vec<u8> = Vec::new();
    let mut encoder = GifEncoder::new(&mut out);
    encoder.set_repeat(Repeat::Infinite)?;
    encoder.encode_frames(parts)?;
    drop(encoder);
    Ok(out)
}

/// The text of an error of the `image` crate.
///
/// Trusted: the `Display` form of `image::ImageError`. Nothing is claimed of
/// the text.
#[verifier::external_body]
fn image_error_text(error: &ImageError) -> String {
    error.to_string()
}

// ---------------------------------------------------------------------------
// Resizing
// ---------------------------------------------------------------------------

/// How long every frame of a resized animation is shown, in milliseconds.
pub const FRAME_DELAY_MS: u32 = 30;

/// How long every frame of a resized animation is shown, in milliseconds.
pub open spec fn frame_delay_ms() -> nat {
    FRAME_DELAY_MS as nat
}

/// Whether a frame can be resampled to a square of `size` pixels: both the
/// buffer of the result and the working buffer of the resampling are no
/// larger than a vector can be.
pub open spec fn resizable(frame: FrameView, size: nat) -> bool {
    16 * frame.width * size <= isize::MAX && 4 * size * size <= isize::MAX
}

/// Whether every frame of the list can be resampled to a square of `size`
/// pixels.
pub open spec fn all_resizable(frames: Seq<FrameView>, size: nat) -> bool {
    forall|i: int| 0 <= i < frames.len() ==> resizable(#[trigger] frames[i], size)
}

/// A frame resampled to a square of `size` pixels.
pub open spec fn resized_frame(frame: FrameView, size: nat) -> FrameView {
    FrameView {
        width: size,
        height: size,
        pixels: resized_pixels(frame.pixels, frame.width, frame.height, size, size),
    }
}

/// Every frame of the list resampled to a square of `size` pixels.
pub open spec fn resized_frames(frames: Seq<FrameView>, size: nat) -> Seq<FrameView> {
    Seq::new(frames.len(), |i: int| resized_frame(frames[i], size))
}

/// Why an animation could not be resized.
#[derive(Debug)]
pub enum TransformError {
    /// The payload could not be decoded; the decoder's words.
    Decode(String),
    /// A frame is too large to be resampled to the wanted size.
    TooLarge,
    /// The resized frames could not be encoded; the encoder's words.
    Encode(String),
}

/// The kind of a [`TransformError`].
pub enum TransformFailure {
    Decode,
    TooLarge,
    Encode,
}

impl View for TransformError {
    type V = TransformFailure;

    open spec fn view(&self) -> TransformFailure {
        match self {
            TransformError::Decode(_) => TransformFailure::Decode,
            TransformError::TooLarge => TransformFailure::TooLarge,
            TransformError::Encode(_) => TransformFailure::Encode,
        }
    }
}

impl TransformError {
    /// The words that describe the failure.
    pub fn detail(&self) -> (r: String)
        ensures
            match self {
                TransformError::Decode(text) => r@ == text@,
                TransformError::TooLarge => r@ == "frame too large to resize"@,
                TransformError::Encode(text) => r@ == text@,
            },
    {
        match self {
            TransformError::Decode(text) => text.clone(),
            TransformError::TooLarge => String::from_str("frame too large to resize"),
            TransformError::Encode(text) => text.clone(),
        }
    }
}

/// The outcome of encoding the frames as they stand after resizing, each
/// shown for [`frame_delay_ms`] in an endless loop.
pub open spec fn encoded_animation(resized: Seq<FrameView>) -> Result<Seq<u8>, TransformFailure> {
    match gif_bytes(resized, frame_delay_ms()) {
        Some(bytes) => Ok(bytes),
        None => Err(TransformFailure::Encode),
    }
}

/// The outcome of resizing the decoded frames to squares of `size` pixels
/// and encoding them: `TooLarge` where a frame cannot be resampled.
pub open spec fn resized_from_frames(frames: Seq<FrameView>, size: nat) -> Result<
    Seq<u8>,
    TransformFailure,
> {
    if all_resizable(frames, size) {
        encoded_animation(resized_frames(frames, size))
    } else {
        Err(TransformFailure::TooLarge)
    }
}

/// The outcome of resizing an animated image to squares of `size` pixels:
/// the payload is decoded, every frame is resampled, and the frames are
/// encoded again.
pub open spec fn resized_animation(payload: Seq<u8>, size: nat) -> Result<
    Seq<u8>,
    TransformFailure,
> {
    match gif_frames(payload) {
        None => Err(TransformFailure::Decode),
        Some(frames) => resized_from_frames(frames, size),
    }
}

/// Decodes the frames of the animated image in `payload`, each composed
/// over the whole canvas.
pub fn decode_animation(payload: &[u8]) -> (r: Result<Vec<AnimationFrame>, TransformError>)
    ensures
        match r {
            Ok(frames) => gif_frames(payload@) == Some(frame_views(frames@)) && all_well_formed(
                frame_views(frames@),
            ),
            Err(e) => gif_frames(payload@) is None && e is Decode,
        },
{
    match decode_gif(payload) {
        Ok(frames) => Ok(frames),
        Err(e) => Err(TransformError::Decode(image_error_text(&e))),
    }
}

/// Whether `frame` can be resampled to a square of `size` pixels.
pub fn can_resize(frame: &AnimationFrame, size: u32) -> (r: bool)
    ensures
        r == resizable(frame@, size as nat),
{
    let limit: u128 = (usize::MAX / 2) as u128;
    let width: u64 = frame.width as u64;
    let side: u64 = size as u64;
    assert(width * side <= 0xffff_ffff * 0xffff_ffff) by (nonlinear_arith)
        requires
            width <= 0xffff_ffff,
            side <= 0xffff_ffff,
    ;
    assert(side * side <= 0xffff_ffff * 0xffff_ffff) by (nonlinear_arith)
        requires
            side <= 0xffff_ffff,
    ;
    let working: u128 = 16u128 * ((width * side) as u128);
    let result: u128 = 4u128 * ((side * side) as u128);
    assert(16 * frame@.width * size == 16 * (width * side)) by (nonlinear_arith)
        requires
            frame@.width == width,
            size == side,
    ;
    assert(4 * size * size == 4 * (side * side)) by (nonlinear_arith)
        requires
            size == side,
    ;
    working <= limit && result <= limit
}

/// Resamples one frame to a square of `size` pixels.
pub fn resize_frame(frame: &AnimationFrame, size: u32) -> (r: AnimationFrame)
    requires
        frame@.well_formed(),
        resizable(frame@, size as nat),
    ensures
        r@ == resized_frame(frame@, size as nat),
        r@.well_formed(),
{
    let pixels = resize_nearest(&frame.pixels, frame.width, frame.height, size, size);
    AnimationFrame { width: size, height: size, pixels }
}

/// Resamples every frame to a square of `size` pixels, in order. `None`
/// where a frame is too large for that.
pub fn resize_frames(frames: &Vec<AnimationFrame>, size: u32) -> (r: Option<Vec<AnimationFrame>>)
    requires
        all_well_formed(frame_views(frames@)),
    ensures
        match r {
            Some(resized) => all_resizable(frame_views(frames@), size as nat) && frame_views(
                resized@,
            ) == resized_frames(frame_views(frames@), size as nat) && all_well_formed(
                frame_views(resized@),
            ),
            None => !all_resizable(frame_views(frames@), size as nat),
        },
{
    let mut out: Vec<AnimationFrame> = Vec::new();
    let mut i: usize = 0;
    while i < frames.len()
        invariant
            i <= frames@.len(),
            all_well_formed(frame_views(frames@)),
            out@.len() == i,
            forall|j: int|
                0 <= j < i ==> resizable(#[trigger] frame_views(frames@)[j], size as nat),
            forall|j: int|
                0 <= j < i ==> (#[trigger] out@[j])@ == resized_frame(frames@[j]@, size as nat),
            forall|j: int| 0 <= j < i ==> (#[trigger] out@[j])@.well_formed(),
        decreases frames@.len() - i,
    {
        let frame = &frames[i];
        proof {
            assert(frame_views(frames@)[i as int] == frame@);
        }
        if !can_resize(frame, size) {
            return None;
        }
        out.push(resize_frame(frame, size));
        i = i + 1;
    }
    proof {
        assert(frame_views(out@) =~= resized_frames(frame_views(frames@), size as nat));
    }
    Some(out)
}

/// Resizes every frame of the animated image in `payload` to a square of
/// `size` pixels and encodes the frames as an endlessly looping GIF in which
/// every frame is shown for 30 milliseconds.
pub fn resize_animation(payload: &[u8], size: u32) -> (r: Result<Vec<u8>, TransformError>)
    ensures
        match r {
            Ok(bytes) => resized_animation(payload@, size as nat) == Ok::<
                Seq<u8>,
                TransformFailure,
            >(bytes@),
            Err(e) => resized_animation(payload@, size as nat) == Err::<Seq<u8>, TransformFailure>(
                e@,
            ),
        },
{
    let frames = match decode_animation(payload) {
        Ok(frames) => frames,
        Err(e) => {
            return Err(e);
        },
    };
    let resized = match resize_frames(&frames, size) {
        Some(resized) => resized,
        None => {
            return Err(TransformError::TooLarge);
        },
    };
    match encode_looping_gif(&resized, FRAME_DELAY_MS) {
        Ok(bytes) => Ok(bytes),
        Err(e) => Err(TransformError::Encode(image_error_text(&e))),
    }
}

} // verus!
