//! Decoding a still image with the `image` crate.
use vstd::prelude::*;
use crate::error::Error;
use image::DynamicImage;

verus! {

/// How the bytes of a decoded image are laid out.
#[derive(Debug, Clone, Copy, PartialEq, Eq, Structural)]
pub enum PixelLayout {
    /// 8-bit red, green, blue.
    Rgb8,
    /// 8-bit red, green, blue, alpha.
    Rgba8,
    /// Any other layout; its pixels are not carried.
    Other,
}

/// A decoded image: its size, layout and raw bytes (empty for `Other`).
#[derive(Debug)]
pub struct DecodedImage {
    pub width: u32,
    pub height: u32,
    pub layout: PixelLayout,
    pub pixels: Vec<u8>,
}

/// The number of a layout as `image_decoded` reports it.
pub open spec fn layout_code(layout: PixelLayout) -> u8 {
    match layout {
        PixelLayout::Rgb8 => 0,
        PixelLayout::Rgba8 => 1,
        PixelLayout::Other => 2,
    }
}

/// What `image::load_from_memory` gives for `data`: the width, height,
/// layout (0: RGB8, 1: RGBA8, 2: any other, reported as 0 x 0 without
/// pixels) and raw bytes of the image; or the text of the error.
pub uninterp spec fn image_decoded(data: Seq<u8>) -> Result<(u32, u32, u8, Seq<u8>), Seq<char>>;

/// `image::load_from_memory`, the decoded image taken apart by layout.
#[verifier::external_body]
fn image_load(data: &[u8]) -> (res: Result<(u32, u32, u8, Vec<u8>), String>)
    ensures
        res is Ok <==> image_decoded(data@) is Ok,
        res matches Err(s) ==> (image_decoded(data@) matches Err(e) && e == s@),
        res matches Ok(v) ==> (image_decoded(data@) matches Ok(d) && d == (v.0, v.1, v.2, v.3@)) && v.2 <= 2,
{
    match image::load_from_memory(data) {
        Ok(DynamicImage::ImageRgb8(b)) => Ok((b.width(), b.height(), 0, b.into_raw())),
        Ok(DynamicImage::ImageRgba8(b)) => Ok((b.width(), b.height(), 1, b.into_raw())),
        Ok(DynamicImage::ImageLuma8(_) | DynamicImage::ImageLumaA8(_) | DynamicImage::ImageLuma16(_)
            | DynamicImage::ImageLumaA16(_) | DynamicImage::ImageRgb16(_) | DynamicImage::ImageRgba16(_)) => {
            Ok((0, 0, 2, Vec::new()))
        },
        // The 32-bit float layouts, and variants of this non-exhaustive enum added later.
        Ok(_) => Ok((0, 0, 2, Vec::new())),
        Err(e) => Err(e.to_string()),
    }
}

/// Decodes a still image: a decoder failure is a decode error with the
/// decoder's text; otherwise the image as the decoder gives it.
pub fn decode_static(input: &[u8]) -> (res: Result<DecodedImage, Error>)
    ensures
        image_decoded(input@) matches Err(e) ==> (res matches Err(Error::DecodeError(s)) && s@ == e),
        image_decoded(input@) matches Ok(d) ==> (res matches Ok(img) && img.width == d.0 && img.height == d.1
            && layout_code(img.layout) == d.2 && img.pixels@ == d.3),
{
    match image_load(input) {
        Err(e) => Err(Error::DecodeError(e)),
        Ok((width, height, code, pixels)) => {
            let layout = if code == 0 {
                PixelLayout::Rgb8
            } else if code == 1 {
                PixelLayout::Rgba8
            } else {
                PixelLayout::Other
            };
            Ok(DecodedImage { width, height, layout, pixels })
        },
    }
}

} // verus!
