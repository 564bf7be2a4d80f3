//! Decoding through the platform's own image library.
use vstd::prelude::*;
use crate::error::Error;
use crate::format::ImageFormat;

verus! {

/// The name of a format as it appears in messages.
pub open spec fn format_name(format: ImageFormat) -> Seq<char> {
    match format {
        ImageFormat::Jpeg => "Jpeg"@,
        ImageFormat::Png => "Png"@,
        ImageFormat::Gif => "Gif"@,
        ImageFormat::Bmp => "Bmp"@,
        ImageFormat::Webp => "Webp"@,
        ImageFormat::Heic => "Heic"@,
        ImageFormat::Tiff => "Tiff"@,
    }
}

pub fn format_name_str(format: ImageFormat) -> (res: &'static str)
    ensures
        res@ == format_name(format),
{
    match format {
        ImageFormat::Jpeg => "Jpeg",
        ImageFormat::Png => "Png",
        ImageFormat::Gif => "Gif",
        ImageFormat::Bmp => "Bmp",
        ImageFormat::Webp => "Webp",
        ImageFormat::Heic => "Heic",
        ImageFormat::Tiff => "Tiff",
    }
}

/// Native decoding exists only on iOS and macOS; elsewhere every format is
/// refused with this error.
pub fn native_decode_unsupported(format: ImageFormat) -> (res: Error)
    ensures
        res matches Error::PlatformNotSupported(m)
            && m@ == format_name(format) + " decoding is only supported on iOS/macOS"@,
{
    Error::PlatformNotSupported(String::from_str(format_name_str(format)).concat(" decoding is only supported on iOS/macOS"))
}

} // verus!
