//! Decisions and pixel work of the ImageIO / CoreGraphics path.
use vstd::prelude::*;
use crate::error::Error;
use crate::format::ImageFormat;
use crate::orientation::{apply_exif_orientation_rgba, spec_apply_orientation};

verus! {

/// Byte `i` after swapping bytes 0 and 2 of every whole 4-byte pixel
/// (BGRA <-> RGBA); bytes past the last whole pixel stay where they are.
pub open spec fn swapped_byte(s: Seq<u8>, i: int) -> u8 {
    if i < (s.len() / 4) * 4 && i % 4 == 0 {
        s[i + 2]
    } else if i < (s.len() / 4) * 4 && i % 4 == 2 {
        s[i - 2]
    } else {
        s[i]
    }
}

pub open spec fn spec_swap_red_blue(s: Seq<u8>) -> Seq<u8> {
    Seq::new(s.len(), |i: int| swapped_byte(s, i))
}

/// Swaps the first and third byte of every whole 4-byte pixel, turning BGRA
/// into RGBA and back.
pub fn swap_red_blue(pixels: Vec<u8>) -> (res: Vec<u8>)
    ensures
        res@ == spec_swap_red_blue(pixels@),
{
    let mut out = pixels;
    let ghost orig = out@;
    let n = out.len() / 4;
    let mut k: usize = 0;
    while k < n
        invariant
            n == orig.len() / 4,
            k <= n,
            out@.len() == orig.len(),
            forall|i: int| 0 <= i < 4 * k ==> #[trigger] out@[i] == swapped_byte(orig, i),
            forall|i: int| 4 * k <= i < orig.len() ==> #[trigger] out@[i] == orig[i],
        decreases n - k,
    {
        assert(4 * k + 3 < out.len()) by (nonlinear_arith)
            requires k < n, n == out@.len() / 4;
        assert((n as int) * 4 <= orig.len()) by (nonlinear_arith)
            requires n == orig.len() / 4;
        let first = out[4 * k];
        let third = out[4 * k + 2];
        out.set(4 * k, third);
        out.set(4 * k + 2, first);
        assert forall|i: int| 4 * k <= i < 4 * k + 4 implies #[trigger] out@[i] == swapped_byte(orig, i) by {
            assert(i / 4 == k as int);
            assert(i < n * 4);
        }
        k = k + 1;
    }
    proof {
        assert forall|i: int| 4 * n <= i < orig.len() implies out@[i] == swapped_byte(orig, i) by {
            assert((orig.len() / 4) * 4 == 4 * n);
        }
    }
    assert(out@ =~= spec_swap_red_blue(orig));
    out
}

/// The EXIF orientation of a frame from its metadata: `None` when the
/// properties or the value are missing; a value is read as unsigned 32-bit
/// (so a negative one becomes very large) and clamped to `1..=8`.
pub open spec fn spec_frame_orientation(value: Option<i32>) -> u32 {
    match value {
        None => 1,
        Some(v) => if v < 0 { 8 } else if v < 1 { 1 } else if v > 8 { 8 } else { v as u32 },
    }
}

pub fn frame_orientation(value: Option<i32>) -> (res: u32)
    ensures
        res == spec_frame_orientation(value),
        1 <= res <= 8,
{
    match value {
        None => 1,
        Some(v) => {
            let word: u32 = if v < 0 { (v as i64 + 0x1_0000_0000i64) as u32 } else { v as u32 };
            if word < 1 { 1 } else if word > 8 { 8 } else { word }
        },
    }
}

/// A decoded frame as CoreGraphics hands it over (BGRA, `w x h`), turned into
/// upright RGBA: the colour bytes are swapped, then the orientation applied.
pub fn decoded_frame_to_rgba(bgra: Vec<u8>, w: u32, h: u32, orientation: u32) -> (res: (Vec<u8>, u32, u32))
    requires
        bgra@.len() == w * h * 4,
        w * h * 4 <= u32::MAX,
    ensures
        (res.0@, res.1, res.2) == spec_apply_orientation(spec_swap_red_blue(bgra@), w, h, orientation),
{
    let rgba = swap_red_blue(bgra);
    apply_exif_orientation_rgba(rgba, w, h, orientation)
}

/// What the ImageIO path does with an image source.
#[derive(Debug, Clone, Copy, PartialEq, Eq, Structural)]
pub enum AppleRoute {
    /// Every frame is decoded and re-encoded as an animated GIF.
    TranscodeGif,
    /// The first frame is decoded and encoded as JPEG (a poster frame when
    /// the source is animated).
    FirstFrameJpeg,
}

/// Chooses the route for an image source with `frame_count` frames: a source
/// without frames is an error, detected GIF input is transcoded, anything
/// else becomes a JPEG of its first frame.
pub fn apple_route(detected: Option<ImageFormat>, frame_count: usize) -> (res: Result<AppleRoute, Error>)
    ensures
        frame_count == 0 <==> (res matches Err(Error::DecodeError(m)) && m@ == "Image source has no frames"@),
        frame_count > 0 && detected == Some(ImageFormat::Gif) ==> res == Ok::<AppleRoute, Error>(AppleRoute::TranscodeGif),
        frame_count > 0 && detected != Some(ImageFormat::Gif) ==> res == Ok::<AppleRoute, Error>(AppleRoute::FirstFrameJpeg),
{
    if frame_count == 0 {
        return Err(Error::DecodeError(String::from_str("Image source has no frames")));
    }
    match detected {
        Some(ImageFormat::Gif) => Ok(AppleRoute::TranscodeGif),
        _ => Ok(AppleRoute::FirstFrameJpeg),
    }
}

} // verus!
