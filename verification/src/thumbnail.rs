//! Turning gif (or still image) bytes into downscaled frames, and peeking
//! an image's dimensions from its header.

use crate::cache::{frame_size, frames_fit, frames_view, AnimationView, RawAnimation};
use crate::library::GifAnimation;
use vstd::prelude::*;

verus! {

/// A tile never renders larger than a few hundred pixels wide, so frames
/// are downscaled to fit this on their longest side.
pub const MAX_FRAME_DIMENSION: u32 = 480;

/// One side scaled by `MAX_FRAME_DIMENSION / longest`, rounded to the
/// nearest pixel (halves up), and at least one pixel.
pub open spec fn scaled_side(side: u32, longest: u32) -> u32 {
    let r = (2 * side * MAX_FRAME_DIMENSION + longest) / (2 * longest);
    if r < 1 {
        1
    } else {
        r as u32
    }
}

/// The dimensions a frame is stored at: unchanged when its longest side
/// fits [`MAX_FRAME_DIMENSION`]; otherwise scaled so that it does.
pub open spec fn downscaled(width: u32, height: u32) -> (u32, u32) {
    let longest = if width >= height {
        width
    } else {
        height
    };
    if longest <= MAX_FRAME_DIMENSION {
        (width, height)
    } else {
        (scaled_side(width, longest), scaled_side(height, longest))
    }
}

fn scale_side(side: u32, longest: u32) -> (r: u32)
    requires
        side <= longest,
        longest > MAX_FRAME_DIMENSION,
    ensures
        r == scaled_side(side, longest),
        1 <= r <= MAX_FRAME_DIMENSION,
{
    assert(2 * side * 480 + longest <= 961 * 0xffff_ffffu64) by (nonlinear_arith)
        requires
            side <= longest,
            longest <= 0xffff_ffffu64,
    ;
    let num: u64 = 2 * (side as u64) * (MAX_FRAME_DIMENSION as u64) + longest as u64;
    let den: u64 = 2 * (longest as u64);
    let q: u64 = num / den;
    assert(q <= 480) by (nonlinear_arith)
        requires
            q == num / den,
            num == 2 * side * 480 + longest,
            den == 2 * longest,
            side <= longest,
            longest > 480,
    ;
    if q < 1 {
        1
    } else {
        q as u32
    }
}

/// The dimensions a frame of `width` by `height` is stored at: see
/// [`downscaled`]. Both sides of the result are at most
/// [`MAX_FRAME_DIMENSION`] unless the frame already fit, and never zero
/// when scaled.
pub fn downscaled_dimensions(dimensions: (u32, u32)) -> (r: (u32, u32))
    ensures
        r == downscaled(dimensions.0, dimensions.1),
        dimensions.0 <= MAX_FRAME_DIMENSION && dimensions.1 <= MAX_FRAME_DIMENSION ==> r
            == dimensions,
        r.0 <= MAX_FRAME_DIMENSION && r.1 <= MAX_FRAME_DIMENSION,
        r != dimensions ==> r.0 >= 1 && r.1 >= 1,
{
    let (width, height) = dimensions;
    let longest = if width >= height {
        width
    } else {
        height
    };
    if longest <= MAX_FRAME_DIMENSION {
        return (width, height);
    }
    (scale_side(width, longest), scale_side(height, longest))
}

/// One frame as the gif decoder hands it out: its delay as a ratio of
/// milliseconds, its size, and its RGBA pixels.
pub struct DecodedFrame {
    pub delay_numer: u32,
    pub delay_denom: u32,
    pub width: u32,
    pub height: u32,
    pub pixels: Vec<u8>,
}

impl View for DecodedFrame {
    type V = (u32, u32, u32, u32, Seq<u8>);

    open spec fn view(&self) -> (u32, u32, u32, u32, Seq<u8>) {
        (self.delay_numer, self.delay_denom, self.width, self.height, self.pixels@)
    }
}

pub open spec fn decoded_view(frames: Seq<DecodedFrame>) -> Seq<(u32, u32, u32, u32, Seq<u8>)> {
    frames.map_values(|f: DecodedFrame| f@)
}

/// The frames that the `image` crate's gif decoder composites out of a gif
/// file's bytes, each as (delay numerator, delay denominator, width,
/// height, RGBA pixels); `None` when the bytes are not a decodable gif.
pub uninterp spec fn gif_frames(bytes: Seq<u8>) -> Option<Seq<(u32, u32, u32, u32, Seq<u8>)>>;

/// The RGBA pixels of a `width` by `height` image resampled with a
/// triangle filter to `new_width` by `new_height`.
pub uninterp spec fn resized_rgba(
    pixels: Seq<u8>,
    width: u32,
    height: u32,
    new_width: u32,
    new_height: u32,
) -> Seq<u8>;

/// A still image decoded in the format its file extension names, as
/// (width, height, RGBA pixels); `None` when the extension names no format
/// the `image` crate knows or the bytes do not decode in it.
pub uninterp spec fn still_image(bytes: Seq<u8>, extension: Seq<char>) -> Option<(u32, u32, Seq<u8>)>;

/// The canvas size a gif's header declares; `None` when the bytes do not
/// start a gif.
pub uninterp spec fn gif_header_dimensions(bytes: Seq<u8>) -> Option<(u32, u32)>;

/// The size an image's header declares, its format guessed from its first
/// bytes or else taken from the file extension.
pub uninterp spec fn probed_dimensions(bytes: Seq<u8>, extension: Option<Seq<char>>) -> Option<
    (u32, u32),
>;

/// What `std::path::Path::extension` gives for a path, when it is text.
pub uninterp spec fn path_extension(path: Seq<char>) -> Option<Seq<char>>;

pub open spec fn str_option(o: Option<&str>) -> Option<Seq<char>> {
    match o {
        Some(t) => Some(t@),
        None => None,
    }
}

pub open spec fn string_option(o: Option<String>) -> Option<Seq<char>> {
    match o {
        Some(t) => Some(t@),
        None => None,
    }
}

/// Every frame covers the same canvas, with exactly four bytes per pixel.
pub open spec fn frames_fit_canvas(frames: Seq<(u32, u32, u32, u32, Seq<u8>)>) -> bool {
    forall|i: int|
        0 <= i < frames.len() ==> {
            &&& (#[trigger] frames[i]).2 == frames[0].2
            &&& frames[i].3 == frames[0].3
            &&& frames[i].4.len() == 4 * frames[i].2 * frames[i].3
        }
}

/// Calls `GifDecoder::new` on the bytes and collects its frames
/// (`AnimationDecoder::into_frames`, `Frames::collect_frames`), reading
/// each frame's delay (`Delay::numer_denom_ms`), size and pixels. Claimed:
/// the result is [`gif_frames`] of the bytes, and every frame is composited
/// onto the whole canvas, `4 * width * height` bytes long; what the
/// decoded pixels are is left to the name.
#[verifier::external_body]
fn decode_gif_frames(bytes: &[u8]) -> (r: Option<Vec<DecodedFrame>>)
    ensures
        match r {
            Some(v) => gif_frames(bytes@) == Some(decoded_view(v@)) && frames_fit_canvas(
                decoded_view(v@),
            ),
            None => gif_frames(bytes@) is None,
        },
{
    let decoder = image::codecs::gif::GifDecoder::new(std::io::Cursor::new(bytes)).ok()?;
    let frames = image::AnimationDecoder::into_frames(decoder).collect_frames().ok()?;
    Some(frames.into_iter().map(|frame| {
        let (delay_numer, delay_denom) = frame.delay().numer_denom_ms();
        let (width, height) = frame.buffer().dimensions();
        let pixels = frame.into_buffer().into_raw();
        DecodedFrame { delay_numer, delay_denom, width, height, pixels }
    }).collect())
}

/// Calls `imageops::resize` with `FilterType::Triangle` on the pixels taken
/// as an `RgbaImage` (`ImageBuffer::from_raw`, which accepts them since
/// they hold at least `4 * width * height` bytes). `resize` first samples
/// into a `width` by `new_height` buffer of 16-byte pixels, which
/// `ImageBuffer::new` refuses beyond the largest vector: `requires` keeps
/// it within. Claimed: the result is [`resized_rgba`] of the arguments,
/// `4 * new_width * new_height` bytes long, as `resize` allocates a fresh
/// buffer of the new size.
#[verifier::external_body]
fn resize_rgba(pixels: Vec<u8>, width: u32, height: u32, new_width: u32, new_height: u32) -> (r:
    Vec<u8>)
    requires
        pixels@.len() >= 4 * width * height,
        new_width <= MAX_FRAME_DIMENSION,
        new_height <= MAX_FRAME_DIMENSION,
        16 * width * new_height <= isize::MAX,
    ensures
        r@ == resized_rgba(pixels@, width, height, new_width, new_height),
        r@.len() == 4 * new_width * new_height,
{
    let image = image::RgbaImage::from_raw(width, height, pixels).unwrap();
    image::imageops::resize(&image, new_width, new_height, image::imageops::FilterType::Triangle)
        .into_raw()
}

/// Looks the extension up with `ImageFormat::from_extension`, decodes the
/// bytes in that format (`load_from_memory_with_format`) and converts the
/// image to RGBA (`DynamicImage::to_rgba8`). Claimed: the result is
/// [`still_image`] of the arguments, with `4 * width * height` bytes of
/// pixels, as `to_rgba8` allocates a buffer of exactly that size.
#[verifier::external_body]
fn decode_still(bytes: &[u8], extension: &str) -> (r: Option<(u32, u32, Vec<u8>)>)
    ensures
        match r {
            Some(img) => still_image(bytes@, extension@) == Some((img.0, img.1, img.2@))
                && img.2@.len() == 4 * img.0 * img.1,
            None => still_image(bytes@, extension@) is None,
        },
{
    let format = image::ImageFormat::from_extension(extension)?;
    let rgba = image::load_from_memory_with_format(bytes, format).ok()?.to_rgba8();
    let (width, height) = rgba.dimensions();
    Some((width, height, rgba.into_raw()))
}

/// Calls `GifDecoder::new` on the bytes and reads its
/// `ImageDecoder::dimensions`. Claimed: the result is
/// [`gif_header_dimensions`] of the bytes.
#[verifier::external_body]
fn gif_dimensions(bytes: &[u8]) -> (r: Option<(u32, u32)>)
    ensures
        r == gif_header_dimensions(bytes@),
{
    let decoder = image::codecs::gif::GifDecoder::new(std::io::Cursor::new(bytes)).ok()?;
    Some(image::ImageDecoder::dimensions(&decoder))
}

/// Builds an `ImageReader` over the bytes, in the format that
/// `ImageFormat::from_extension` gives for the extension when there is
/// one, then calls `with_guessed_format` (a format recognised from the
/// first bytes wins over the extension) and `into_dimensions`. Claimed: the
/// result is [`probed_dimensions`] of the arguments.
#[verifier::external_body]
fn probe_dimensions(bytes: &[u8], extension: Option<&str>) -> (r: Option<(u32, u32)>)
    ensures
        r == probed_dimensions(bytes@, str_option(extension)),
{
    let cursor = std::io::Cursor::new(bytes);
    let reader = match extension.and_then(image::ImageFormat::from_extension) {
        Some(format) => image::ImageReader::with_format(cursor, format),
        None => image::ImageReader::new(cursor),
    };
    reader.with_guessed_format().ok()?.into_dimensions().ok()
}

/// Calls `std::path::Path::extension` and keeps the result when it is text.
/// Claimed: the result is [`path_extension`] of the path.
#[verifier::external_body]
pub(crate) fn extension_of(path: &str) -> (r: Option<String>)
    ensures
        string_option(r) == path_extension(path@),
{
    std::path::Path::new(path).extension().and_then(|e| e.to_str()).map(|e| e.to_string())
}

/// The delay a frame is played for, from its delay as a ratio of
/// milliseconds: a zero delay (or ratio without a denominator) means the
/// default speed of 100 ms, as viewers conventionally treat it, rather than
/// instant; anything else under 20 ms plays at 20 ms.
pub open spec fn frame_delay(numer: u32, denom: u32) -> u64 {
    let d: u32 = if numer == 0 || denom == 0 {
        100
    } else {
        numer / denom
    };
    if d < 20 {
        20
    } else {
        d as u64
    }
}

/// A frame's pixels at its stored size: unchanged when it already fits,
/// resampled otherwise.
pub open spec fn downscaled_pixels(pixels: Seq<u8>, width: u32, height: u32) -> Seq<u8> {
    let (w, h) = downscaled(width, height);
    if w == width && h == height {
        pixels
    } else {
        resized_rgba(pixels, width, height, w, h)
    }
}

/// The animation kept of decoded gif frames: sized by the first frame,
/// each frame with its delay and downscaled pixels; `None` without frames
/// or with a frame that cannot be resampled here (see [`resample_fits`]).
pub open spec fn gif_animation(frames: Seq<(u32, u32, u32, u32, Seq<u8>)>) -> Option<AnimationView> {
    if frames.len() == 0 || exists|i: int| 0 <= i < frames.len() && !resample_fits(
        #[trigger] frames[i].2,
        frames[i].3,
    ) {
        None
    } else {
        let (w, h) = downscaled(frames[0].2, frames[0].3);
        Some(
            AnimationView {
                width: w,
                height: h,
                frames: frames.map_values(
                    |f: (u32, u32, u32, u32, Seq<u8>)|
                        (frame_delay(f.0, f.1), downscaled_pixels(f.4, f.2, f.3)),
                ),
            },
        )
    }
}

/// The single-frame animation kept of a still image, shown for 100 ms.
pub open spec fn still_animation(image: (u32, u32, Seq<u8>)) -> AnimationView {
    let (w, h) = downscaled(image.0, image.1);
    AnimationView { width: w, height: h, frames: seq![(100u64, downscaled_pixels(image.2, image.0, image.1))] }
}


/// A frame can be resampled to its stored size: it needs none, or the
/// intermediate buffer that resampling goes through (`width` by the new
/// height, 16 bytes per pixel) fits in the largest vector, as it always
/// does on a 64-bit target.
pub open spec fn resample_fits(width: u32, height: u32) -> bool {
    let (w, h) = downscaled(width, height);
    (w == width && h == height) || 16 * width * h <= isize::MAX
}

/// The stored pixels of a `width` by `height` frame: see
/// [`downscaled_pixels`]; `None` when the frame cannot be resampled here
/// (see [`resample_fits`]). A frame of exactly `4 * width * height` bytes
/// comes out with exactly four bytes per pixel of its stored size.
pub fn downscale_if_needed(pixels: Vec<u8>, width: u32, height: u32) -> (r: Option<Vec<u8>>)
    requires
        pixels@.len() >= 4 * width * height,
    ensures
        resample_fits(width, height) ==> (r matches Some(p) && p@ == downscaled_pixels(
            pixels@,
            width,
            height,
        )),
        !resample_fits(width, height) ==> r is None,
        pixels@.len() == 4 * width * height ==> (r matches Some(p) ==> p@.len() == frame_size(
            downscaled(width, height).0,
            downscaled(width, height).1,
        )),
{
    let (new_width, new_height) = downscaled_dimensions((width, height));
    assert(4 * new_width * new_height == frame_size(new_width, new_height)) by (nonlinear_arith);
    if new_width == width && new_height == height {
        return Some(pixels);
    }
    assert((width as int) * (new_height as int) * 16 <= u64::MAX) by (nonlinear_arith)
        requires
            width <= u32::MAX,
            new_height <= 480,
    ;
    let buffer_bytes: u64 = width as u64 * new_height as u64 * 16;
    assert(buffer_bytes == 16 * width * new_height) by (nonlinear_arith)
        requires
            buffer_bytes == (width as int) * (new_height as int) * 16,
    ;
    if buffer_bytes > isize::MAX as u64 {
        return None;
    }
    Some(resize_rgba(pixels, width, height, new_width, new_height))
}

/// The delay a frame is played for: see [`frame_delay`].
pub fn frame_delay_ms(numer: u32, denom: u32) -> (r: u64)
    ensures
        r == frame_delay(numer, denom),
{
    let delay: u32 = if numer == 0 || denom == 0 {
        100
    } else {
        numer / denom
    };
    if delay < 20 {
        20
    } else {
        delay as u64
    }
}

/// The animation kept of decoded gif frames: see [`gif_animation`].
pub fn animation_from_gif_frames(frames: Vec<DecodedFrame>) -> (r: Option<RawAnimation>)
    requires
        forall|i: int|
            0 <= i < frames@.len() ==> (#[trigger] frames@[i]).pixels@.len() >= 4
                * frames@[i].width * frames@[i].height,
    ensures
        match gif_animation(decoded_view(frames@)) {
            Some(a) => r matches Some(raw) && raw@ == a,
            None => r is None,
        },
        frames_fit_canvas(decoded_view(frames@)) ==> match r {
            Some(raw) => frames_fit(raw@),
            None => true,
        },
{
    if frames.len() == 0 {
        return None;
    }
    let (width, height) = downscaled_dimensions((frames[0].width, frames[0].height));
    let ghost source = decoded_view(frames@);
    let ghost n = frames@.len();
    let mut raw_frames: Vec<(u64, Vec<u8>)> = Vec::new();
    let mut rest = frames;
    let ghost spec_frames = source.map_values(
        |f: (u32, u32, u32, u32, Seq<u8>)| (frame_delay(f.0, f.1), downscaled_pixels(f.4, f.2, f.3)),
    );
    while rest.len() > 0
        invariant
            n == source.len(),
            source == decoded_view(frames@),
            raw_frames@.len() + rest@.len() == n,
            forall|i: int|
                0 <= i < rest@.len() ==> #[trigger] rest@[i]@ == source[raw_frames@.len() + i],
            forall|i: int|
                0 <= i < rest@.len() ==> (#[trigger] rest@[i]).pixels@.len() >= 4
                    * rest@[i].width * rest@[i].height,
            frames_view(raw_frames@) == spec_frames.take(raw_frames@.len() as int),
            spec_frames.len() == n,
            (width, height) == downscaled(source[0].2, source[0].3),
            forall|j: int| 0 <= j < raw_frames@.len() ==> resample_fits(#[trigger] source[j].2, source[j].3),
            frames_fit_canvas(source) ==> forall|j: int|
                0 <= j < raw_frames@.len() ==> (#[trigger] raw_frames@[j]).1@.len() == frame_size(
                    width,
                    height,
                ),
            spec_frames == source.map_values(
                |f: (u32, u32, u32, u32, Seq<u8>)|
                    (frame_delay(f.0, f.1), downscaled_pixels(f.4, f.2, f.3)),
            ),
        decreases rest@.len(),
    {
        let frame = rest.remove(0);
        let ghost k = raw_frames@.len() as int;
        assert(frame@ == source[k]);
        let delay = frame_delay_ms(frame.delay_numer, frame.delay_denom);
        let pixels = match downscale_if_needed(frame.pixels, frame.width, frame.height) {
            Some(p) => p,
            None => {
                assert(!resample_fits(source[k].2, source[k].3));
                assert(gif_animation(source) is None);
                return None;
            },
        };
        let ghost before = frames_view(raw_frames@);
        proof {
            if frames_fit_canvas(source) {
                assert(frame@ == source[k]);
                assert(source[k].2 == source[0].2 && source[k].3 == source[0].3);
            }
        }
        raw_frames.push((delay, pixels));
        assert(frames_view(raw_frames@) =~= before.push((delay, pixels@)));
        assert(spec_frames.take(k + 1) =~= spec_frames.take(k).push(spec_frames[k]));
    }
    assert(spec_frames.take(n as int) =~= spec_frames);
    assert(!exists|i: int| 0 <= i < source.len() && !resample_fits(#[trigger] source[i].2, source[i].3));
    let r = RawAnimation { width, height, frames: raw_frames };
    Some(r)
}

/// The animation a gif file's bytes decode to: see [`gif_animation`].
pub open spec fn decoded_gif(bytes: Seq<u8>) -> Option<AnimationView> {
    match gif_frames(bytes) {
        Some(frames) => gif_animation(frames),
        None => None,
    }
}

/// The extension that picks a still image's format: the path's extension
/// when it has a non-empty one.
pub open spec fn image_extension(path: Seq<char>) -> Option<Seq<char>> {
    match path_extension(path) {
        Some(e) => if e.len() == 0 {
            None
        } else {
            Some(e)
        },
        None => None,
    }
}

/// The animation a still image decodes to, its format taken from the
/// path's extension.
pub open spec fn decoded_still(path: Seq<char>, bytes: Seq<u8>) -> Option<AnimationView> {
    match image_extension(path) {
        Some(e) => match still_image(bytes, e) {
            Some(image) => if resample_fits(image.0, image.1) {
                Some(still_animation(image))
            } else {
                None
            },
            None => None,
        },
        None => None,
    }
}

/// The animation a file decodes to: as a gif when it is one, else as a
/// still image.
pub open spec fn decoded(path: Seq<char>, bytes: Seq<u8>) -> Option<AnimationView> {
    match decoded_gif(bytes) {
        Some(a) => Some(a),
        None => decoded_still(path, bytes),
    }
}

/// A file's pixel size as its header declares it: a gif's canvas, or else
/// what the header of the image format recognised gives.
pub open spec fn peeked(path: Seq<char>, bytes: Seq<u8>) -> Option<(u32, u32)> {
    match gif_header_dimensions(bytes) {
        Some(d) => Some(d),
        None => probed_dimensions(bytes, image_extension(path)),
    }
}

pub open spec fn animation_option(r: Option<RawAnimation>) -> Option<AnimationView> {
    match r {
        Some(raw) => Some(raw@),
        None => None,
    }
}

fn image_extension_of(path: &str) -> (r: Option<String>)
    ensures
        string_option(r) == image_extension(path@),
{
    match extension_of(path) {
        Some(e) => if e.as_str().unicode_len() == 0 {
            None
        } else {
            Some(e)
        },
        None => None,
    }
}

/// Decodes a gif file's bytes into downscaled frames: see
/// [`decoded_gif`]. What it gives has exactly four bytes per pixel in every
/// frame.
pub fn decode_gif_raw(bytes: &[u8]) -> (r: Option<RawAnimation>)
    ensures
        animation_option(r) == decoded_gif(bytes@),
        r matches Some(raw) ==> frames_fit(raw@),
{
    match decode_gif_frames(bytes) {
        Some(frames) => {
            proof {
                let v = decoded_view(frames@);
                assert forall|i: int| 0 <= i < frames@.len() implies (#[trigger] frames@[i]).pixels@.len()
                    >= 4 * frames@[i].width * frames@[i].height by {
                    assert(v[i] == frames@[i]@);
                }
            }
            animation_from_gif_frames(frames)
        },
        None => None,
    }
}

/// The single-frame animation kept of a decoded still image: see
/// [`still_animation`]; `None` when it cannot be resampled here (see
/// [`resample_fits`]).
pub fn animation_from_still(width: u32, height: u32, pixels: Vec<u8>) -> (r: Option<RawAnimation>)
    requires
        pixels@.len() >= 4 * width * height,
    ensures
        resample_fits(width, height) ==> (r matches Some(raw) && raw@ == still_animation(
            (width, height, pixels@),
        )),
        !resample_fits(width, height) ==> r is None,
        pixels@.len() == 4 * width * height ==> (r matches Some(raw) ==> frames_fit(raw@)),
{
    let (new_width, new_height) = downscaled_dimensions((width, height));
    let scaled = match downscale_if_needed(pixels, width, height) {
        Some(p) => p,
        None => return None,
    };
    let mut frames: Vec<(u64, Vec<u8>)> = Vec::new();
    frames.push((100, scaled));
    let r = RawAnimation { width: new_width, height: new_height, frames };
    assert(frames_view(r.frames@) =~= seq![(100u64, scaled@)]);
    Some(r)
}

/// Decodes a still image's bytes, in the format its path's extension
/// names: see [`decoded_still`].
pub fn decode_static_raw(path: &str, bytes: &[u8]) -> (r: Option<RawAnimation>)
    ensures
        animation_option(r) == decoded_still(path@, bytes@),
        r matches Some(raw) ==> frames_fit(raw@),
{
    let extension = match image_extension_of(path) {
        Some(e) => e,
        None => return None,
    };
    match decode_still(bytes, extension.as_str()) {
        Some((width, height, pixels)) => animation_from_still(width, height, pixels),
        None => None,
    }
}

/// Decodes a file's bytes for playback: as a gif when they are one, else
/// as a still image in the format the path's extension names; see
/// [`decoded`].
pub fn decode_raw(path: &str, bytes: &[u8]) -> (r: Option<RawAnimation>)
    ensures
        animation_option(r) == decoded(path@, bytes@),
        r matches Some(raw) ==> frames_fit(raw@),
        decoded_gif(bytes@) is Some ==> animation_option(r) == decoded_gif(bytes@),
        gif_frames(bytes@) is Some && decoded_gif(bytes@) is Some ==> {
            &&& r is Some
            &&& r->0@.frames.len() == gif_frames(bytes@)->0.len()
            &&& forall|i: int|
                0 <= i < r->0@.frames.len() ==> (#[trigger] r->0@.frames[i]).0 == frame_delay(
                    gif_frames(bytes@)->0[i].0,
                    gif_frames(bytes@)->0[i].1,
                )
        },
{
    match decode_gif_raw(bytes) {
        Some(a) => Some(a),
        None => decode_static_raw(path, bytes),
    }
}

/// A file's pixel size from its header alone, without decoding any frame:
/// see [`peeked`].
pub fn peek_dimensions(path: &str, bytes: &[u8]) -> (r: Option<(u32, u32)>)
    ensures
        r == peeked(path@, bytes@),
{
    match gif_dimensions(bytes) {
        Some(d) => Some(d),
        None => {
            let extension = image_extension_of(path);
            match extension {
                Some(e) => probe_dimensions(bytes, Some(e.as_str())),
                None => probe_dimensions(bytes, None),
            }
        },
    }
}

/// Bytes that decode as a gif play as that gif, whatever the file is
/// called: two paths give the same animation, the gif's.
pub proof fn lemma_gif_bytes_decode_alike(path: Seq<char>, other: Seq<char>, bytes: Seq<u8>)
    requires
        decoded_gif(bytes) is Some,
    ensures
        decoded(path, bytes) == decoded(other, bytes),
        decoded(path, bytes) == decoded_gif(bytes),
{
}

/// A gif plays every one of its frames, in order, each for its own delay:
/// the decoded animation has as many frames as the gif decoder composites,
/// the `i`-th shown for the `i`-th frame's delay (see [`frame_delay`]).
pub proof fn lemma_gif_plays_every_frame(path: Seq<char>, bytes: Seq<u8>)
    requires
        gif_frames(bytes) is Some,
        decoded_gif(bytes) is Some,
    ensures
        decoded(path, bytes) is Some,
        decoded(path, bytes)->0.frames.len() == gif_frames(bytes)->0.len(),
        forall|i: int|
            0 <= i < decoded(path, bytes)->0.frames.len() ==> (#[trigger] decoded(
                path,
                bytes,
            )->0.frames[i]).0 == frame_delay(gif_frames(bytes)->0[i].0, gif_frames(bytes)->0[i].1),
{
}

/// Every frame of a decoded animation plays for at least 20 ms, so
/// playback always moves on.
pub proof fn lemma_decoded_delays(path: Seq<char>, bytes: Seq<u8>)
    requires
        decoded(path, bytes) is Some,
    ensures
        forall|i: int|
            0 <= i < decoded(path, bytes)->0.frames.len() ==> #[trigger] decoded(
                path,
                bytes,
            )->0.frames[i].0 >= 20,
{
    let a = decoded(path, bytes)->0;
    assert forall|i: int| 0 <= i < a.frames.len() implies #[trigger] a.frames[i].0 >= 20 by {
        match decoded_gif(bytes) {
            Some(g) => {
                let frames = gif_frames(bytes)->0;
                let f = frames[i];
                assert(a.frames[i] == (frame_delay(f.0, f.1), downscaled_pixels(f.4, f.2, f.3)));
            },
            None => {},
        }
    }
}

/// The frames' pixels and delays, in order, are those of `frames`.
pub open spec fn splits(animation: GifAnimation<Vec<u8>>, frames: Seq<(u64, Seq<u8>)>) -> bool {
    &&& animation.frames@.len() == frames.len()
    &&& animation.delays_ms@.len() == frames.len()
    &&& forall|i: int|
        0 <= i < frames.len() ==> (#[trigger] animation.frames@[i])@ == frames[i].1
            && animation.delays_ms@[i] == frames[i].0
}

impl RawAnimation {
    /// Splits the animation into its frames' pixels and their delays, in
    /// order, ready to be turned into images for playback.
    pub fn into_gif_animation(self) -> (r: GifAnimation<Vec<u8>>)
        ensures
            splits(r, self@.frames),
    {
        let ghost source = self@.frames;
        let mut rest = self.frames;
        let mut frames: Vec<Vec<u8>> = Vec::new();
        let mut delays_ms: Vec<u64> = Vec::new();
        while rest.len() > 0
            invariant
                frames@.len() == delays_ms@.len(),
                frames@.len() + rest@.len() == source.len(),
                forall|i: int|
                    0 <= i < rest@.len() ==> (#[trigger] rest@[i]).0 == source[frames@.len() + i].0
                        && rest@[i].1@ == source[frames@.len() + i].1,
                forall|i: int|
                    0 <= i < frames@.len() ==> (#[trigger] frames@[i])@ == source[i].1
                        && delays_ms@[i] == source[i].0,
            decreases rest@.len(),
        {
            let (delay_ms, pixels) = rest.remove(0);
            delays_ms.push(delay_ms);
            frames.push(pixels);
        }
        let r = GifAnimation { frames, delays_ms };
        assert(splits(r, source));
        r
    }
}

} // verus!
