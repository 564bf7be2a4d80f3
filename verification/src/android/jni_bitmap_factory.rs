use vstd::prelude::*;
use crate::error::Error;
use crate::text::{signed_decimal, spec_signed_decimal};
use crate::format::ImageFormat;

verus! {

/// Why the fallback decoder cannot decode: HEIC and TIFF are named as
/// unsupported formats, anything else carries the reason given.
pub open spec fn unsupported_message(fmt: Option<ImageFormat>, reason: Seq<char>) -> Seq<char> {
    match fmt {
        Some(ImageFormat::Heic) => "HEIC is not supported by Android JNI fallback decoder"@,
        Some(ImageFormat::Tiff) => "TIFF is not supported by Android JNI fallback decoder"@,
        _ => "Android JNI fallback decoder unavailable: "@ + reason,
    }
}

/// The error reported when the fallback decoder cannot decode the input.
pub fn unsupported_for_format(fmt: Option<ImageFormat>, reason: &str) -> (res: Result<(Vec<u8>, u32, u32), Error>)
    ensures
        res matches Err(Error::PlatformNotSupported(msg)) && msg@ == unsupported_message(fmt, reason@),
{
    let msg = match fmt {
        Some(ImageFormat::Heic) => String::from_str("HEIC is not supported by Android JNI fallback decoder"),
        Some(ImageFormat::Tiff) => String::from_str("TIFF is not supported by Android JNI fallback decoder"),
        _ => String::from_str("Android JNI fallback decoder unavailable: ").concat(reason),
    };
    Err(Error::PlatformNotSupported(msg))
}

/// `AndroidBitmap_getInfo` success code.
pub const ANDROID_BITMAP_RESULT_SUCCESS: i32 = 0;

/// `ANDROID_BITMAP_FORMAT_RGBA_8888`.
pub const ANDROID_BITMAP_FORMAT_RGBA_8888: i32 = 1;

/// Checks what `AndroidBitmap_getInfo` reported: the call must succeed and
/// the bitmap must hold RGBA_8888 pixels.
pub fn check_bitmap_info(info_ret: i32, format: i32) -> (res: Result<(), Error>)
    ensures
        info_ret != ANDROID_BITMAP_RESULT_SUCCESS ==> (res matches Err(Error::DecodeError(m))
            && m@ == "AndroidBitmap_getInfo failed: "@ + spec_signed_decimal(info_ret as int)),
        info_ret == ANDROID_BITMAP_RESULT_SUCCESS && format != ANDROID_BITMAP_FORMAT_RGBA_8888 ==> (res matches Err(
            Error::DecodeError(m)) && m@ == "unsupported Android bitmap format: "@ + spec_signed_decimal(format as int)),
        info_ret == ANDROID_BITMAP_RESULT_SUCCESS && format == ANDROID_BITMAP_FORMAT_RGBA_8888 ==> res is Ok,
{
    if info_ret != ANDROID_BITMAP_RESULT_SUCCESS {
        return Err(Error::DecodeError(String::from_str("AndroidBitmap_getInfo failed: ").concat(signed_decimal(info_ret as i64).as_str())));
    }
    if format != ANDROID_BITMAP_FORMAT_RGBA_8888 {
        return Err(Error::DecodeError(String::from_str("unsupported Android bitmap format: ").concat(signed_decimal(format as i64).as_str())));
    }
    Ok(())
}

} // verus!
