//! The platform-independent steps of `compress_image`: which inputs are
//! accepted, and which bytes are handed back once a platform has compressed.
use vstd::prelude::*;
use crate::error::Error;
use crate::format::{spec_detect, spec_keeps_original_if_larger, ImageFormat};

verus! {

/// The message for an input whose magic bytes match no supported format.
pub open spec fn undetected_message() -> Seq<char> {
    "Cannot detect image format from magic bytes"@
}

/// The message for GIF input, which `compress_image` does not compress.
pub open spec fn gif_message() -> Seq<char> {
    "GIF compression is not supported"@
}

/// Detects the format of `input` and refuses what `compress_image` does not
/// take: undetectable data, and GIF.
pub fn check_input(input: &[u8]) -> (res: Result<ImageFormat, Error>)
    ensures
        res matches Ok(f) ==> spec_detect(input@) == Some(f) && f != ImageFormat::Gif,
        spec_detect(input@) is None <==> (res matches Err(Error::UnsupportedFormat(m))
            && m@ == undetected_message()),
        spec_detect(input@) == Some(ImageFormat::Gif) <==> (res matches Err(Error::UnsupportedFormat(m))
            && m@ == gif_message()),
        res is Ok || spec_detect(input@) is None || spec_detect(input@) == Some(ImageFormat::Gif),
{
    proof {
        reveal_strlit("Cannot detect image format from magic bytes");
        reveal_strlit("GIF compression is not supported");
        assert(undetected_message().len() != gif_message().len());
    }
    match ImageFormat::detect(input) {
        None => {
            let m = String::from_str("Cannot detect image format from magic bytes");
            Err(Error::UnsupportedFormat(m))
        },
        Some(ImageFormat::Gif) => {
            let m = String::from_str("GIF compression is not supported");
            Err(Error::UnsupportedFormat(m))
        },
        Some(f) => Ok(f),
    }
}

/// The bytes handed back for a successful compression: the original when the
/// format may already be well compressed and the output came out larger.
pub open spec fn spec_select_output(format: ImageFormat, input: Seq<u8>, compressed: Seq<u8>) -> Seq<u8> {
    if spec_keeps_original_if_larger(format) && compressed.len() > input.len() {
        input
    } else {
        compressed
    }
}

/// Whether the original bytes are handed back in place of an output of
/// `output_len` bytes: only for a detected format that may already be well
/// compressed, and only when the output is larger.
pub open spec fn spec_prefers_original(format: Option<ImageFormat>, input_len: nat, output_len: nat) -> bool {
    format matches Some(f) && spec_keeps_original_if_larger(f) && output_len > input_len
}

pub fn prefers_original(format: Option<ImageFormat>, input_len: usize, output_len: usize) -> (res: bool)
    ensures
        res == spec_prefers_original(format, input_len as nat, output_len as nat),
{
    match format {
        Some(f) => f.should_use_original_if_larger() && output_len > input_len,
        None => false,
    }
}

/// Chooses between the platform's output and the original bytes.
pub fn select_output(format: ImageFormat, input: &[u8], compressed: Vec<u8>) -> (res: Vec<u8>)
    ensures
        res@ == spec_select_output(format, input@, compressed@),
        spec_keeps_original_if_larger(format) ==> res@.len() <= input@.len(),
        compressed@.len() <= input@.len() ==> res@ == compressed@,
        res@ != compressed@ ==> res@ == input@ && compressed@.len() > input@.len()
            && (format == ImageFormat::Jpeg || format == ImageFormat::Png || format == ImageFormat::Webp),
{
    if prefers_original(Some(format), input.len(), compressed.len()) {
        vstd::slice::slice_to_vec(input)
    } else {
        compressed
    }
}

/// The last step of `compress_image`: a platform error is passed on as it is,
/// and a platform output goes through [`select_output`].
pub fn finish_compression(format: ImageFormat, input: &[u8], compressed: Result<Vec<u8>, Error>) -> (res: Result<Vec<u8>, Error>)
    ensures
        compressed is Err ==> res == compressed,
        compressed matches Ok(c) ==> (res matches Ok(out) && out@ == spec_select_output(format, input@, c@)),
{
    match compressed {
        Ok(c) => Ok(select_output(format, input, c)),
        Err(e) => Err(e),
    }
}

/// For JPEG, PNG and WebP input, `compress_image` never hands back more bytes
/// than it was given.
pub proof fn lemma_output_never_larger(format: ImageFormat, input: Seq<u8>, compressed: Seq<u8>)
    requires
        spec_keeps_original_if_larger(format),
    ensures
        spec_select_output(format, input, compressed).len() <= input.len(),
        spec_select_output(format, input, compressed) == input
            || spec_select_output(format, input, compressed) == compressed,
{
}

/// The compressed output is handed back whenever it is not larger than the
/// input, whatever the format; the original bytes come back only in place of
/// a larger output of JPEG, PNG or WebP input; other formats always get the
/// compressed output.
pub proof fn lemma_output_is_compressed_unless_larger(format: ImageFormat, input: Seq<u8>, compressed: Seq<u8>)
    ensures
        compressed.len() <= input.len() ==> spec_select_output(format, input, compressed) == compressed,
        !(format == ImageFormat::Jpeg || format == ImageFormat::Png || format == ImageFormat::Webp)
            ==> spec_select_output(format, input, compressed) == compressed,
        spec_select_output(format, input, compressed) != compressed ==> spec_select_output(format, input, compressed)
            == input && compressed.len() > input.len(),
{
}

/// The synchronous entry point on the Web platform refuses every input:
/// there the asynchronous browser path is used.
pub fn web_sync_unsupported() -> (res: Error)
    ensures
        res matches Error::PlatformNotSupported(m) && m@ == "Use compress_image_js() (async) on the Web platform"@,
{
    Error::PlatformNotSupported(String::from_str("Use compress_image_js() (async) on the Web platform"))
}

} // verus!
