//! Decisions and pixel work of the Android decoding path.
pub mod a_image_decoder;
pub mod gif_codec;
pub mod gif_encode;
pub mod jni_bitmap_factory;

use vstd::prelude::*;
use crate::error::Error;
use crate::text::{decimal, signed_decimal, spec_decimal, spec_signed_decimal};

verus! {

/// `AImageDecoder` result code for a format the device cannot decode.
pub const ANDROID_IMAGE_DECODER_UNSUPPORTED_FORMAT: i32 = -6;

/// A decode error naming what failed and the result code: `"{what}: {code}"`.
pub fn decode_error_with_code(what: &str, code: i32) -> (res: Error)
    ensures
        res matches Error::DecodeError(m) && m@ == what@ + ": "@ + spec_signed_decimal(code as int),
{
    Error::DecodeError(String::from_str(what).concat(": ").concat(signed_decimal(code as i64).as_str()))
}

/// The error for a failed `AImageDecoder` call: an unsupported format means
/// the platform cannot decode this input; any other code is a decode error
/// naming the call and the code.
pub fn decoder_failure(what: &str, code: i32) -> (res: Error)
    ensures
        code == ANDROID_IMAGE_DECODER_UNSUPPORTED_FORMAT ==> (res matches Error::PlatformNotSupported(m)
            && m@ == "format not supported by AImageDecoder on this device"@),
        code != ANDROID_IMAGE_DECODER_UNSUPPORTED_FORMAT ==> (res matches Error::DecodeError(m)
            && m@ == what@ + ": "@ + spec_signed_decimal(code as int)),
{
    if code == ANDROID_IMAGE_DECODER_UNSUPPORTED_FORMAT {
        Error::PlatformNotSupported(String::from_str("format not supported by AImageDecoder on this device"))
    } else {
        decode_error_with_code(what, code)
    }
}

/// EXIF orientation read from metadata: values outside `1..=8` mean normal (1).
pub open spec fn spec_normalize_orientation(value: i32) -> u32 {
    if 1 <= value <= 8 { value as u32 } else { 1 }
}

pub fn normalize_orientation(value: i32) -> (res: u32)
    ensures
        res == spec_normalize_orientation(value),
{
    if 1 <= value && value <= 8 { value as u32 } else { 1 }
}

/// The 32-bit ARGB word of an RGBA pixel, as the signed `int` a Java
/// `Bitmap` takes.
pub open spec fn argb_word(r: u8, g: u8, b: u8, a: u8) -> i32 {
    ((a as int) * 0x100_0000 + (r as int) * 0x1_0000 + (g as int) * 0x100 + (b as int)) as i32
}

/// RGBA bytes packed into ARGB words, one per whole pixel.
pub open spec fn spec_pack_argb(rgba: Seq<u8>) -> Seq<i32> {
    Seq::new(rgba.len() / 4, |k: int| argb_word(rgba[4 * k], rgba[4 * k + 1], rgba[4 * k + 2], rgba[4 * k + 3]))
}

pub fn pack_argb(rgba: &[u8]) -> (res: Vec<i32>)
    ensures
        res@ == spec_pack_argb(rgba@),
{
    let n = rgba.len() / 4;
    let mut out: Vec<i32> = Vec::new();
    let mut k: usize = 0;
    while k < n
        invariant
            n == rgba@.len() / 4,
            k <= n,
            out@.len() == k,
            forall|j: int| 0 <= j < k ==> #[trigger] out@[j] == spec_pack_argb(rgba@)[j],
        decreases n - k,
    {
        assert(4 * k + 3 < rgba.len()) by (nonlinear_arith)
            requires k < n, n == rgba.len() / 4;
        let r = rgba[4 * k];
        let g = rgba[4 * k + 1];
        let b = rgba[4 * k + 2];
        let a = rgba[4 * k + 3];
        let word: u32 = ((a as u32) << 24) | ((r as u32) << 16) | ((g as u32) << 8) | (b as u32);
        assert(word == (a as u32) * 0x100_0000 + (r as u32) * 0x1_0000 + (g as u32) * 0x100 + (b as u32)) by (bit_vector)
            requires word == ((a as u32) << 24) | ((r as u32) << 16) | ((g as u32) << 8) | (b as u32);
        out.push(#[verifier::truncate] (word as i32));
        k = k + 1;
    }
    assert(out@ =~= spec_pack_argb(rgba@));
    out
}

/// Validation before JPEG encoding through the Java `Bitmap`: both sides
/// must be positive and the buffer must hold `w * h` RGBA pixels.
pub fn check_jpeg_input(rgba_len: usize, w: u32, h: u32) -> (res: Result<(), Error>)
    ensures
        (w == 0 || h == 0) ==> (res matches Err(Error::EncodeError(m)) && m@ == "invalid image dimensions"@),
        w > 0 && h > 0 && rgba_len != w * h * 4 ==> (res matches Err(Error::EncodeError(m))
            && m@ == "invalid RGBA buffer length: got "@ + spec_decimal(rgba_len as nat) + ", expected "@
                + spec_decimal((w * h * 4) as nat)),
        w > 0 && h > 0 && rgba_len == w * h * 4 ==> res is Ok,
{
    if w == 0 || h == 0 {
        return Err(Error::EncodeError(String::from_str("invalid image dimensions")));
    }
    proof {
        assert((w as int) * (h as int) <= 0xffff_ffffint * 0xffff_ffffint) by (nonlinear_arith)
            requires w <= 0xffff_ffff, h <= 0xffff_ffff;
    }
    let expected: u128 = (w as u128) * (h as u128) * 4;
    if rgba_len as u128 != expected {
        let msg = String::from_str("invalid RGBA buffer length: got ")
            .concat(decimal(rgba_len as u128).as_str())
            .concat(", expected ")
            .concat(decimal(expected).as_str());
        return Err(Error::EncodeError(msg));
    }
    Ok(())
}

/// Whether the outcome of the `AImageDecoder` path sends the input on to
/// `BitmapFactory`: only a refusal by the platform does; any other outcome
/// is final.
pub fn falls_back_to_bitmap_factory(outcome: &Result<Vec<u8>, Error>) -> (res: bool)
    ensures
        res <==> (outcome matches Err(Error::PlatformNotSupported(_))),
{
    match outcome {
        Err(Error::PlatformNotSupported(_)) => true,
        _ => false,
    }
}

} // verus!
