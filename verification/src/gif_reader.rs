//! Reading GIF frames through the `gif` crate.
use vstd::prelude::*;

verus! {

/// A `gif::Decoder` set to RGBA output, reading from its own copy of the
/// input bytes. Verus cannot declare the decoder type itself (its `Read`
/// bound), so it is held here, opaque.
#[verifier::external_body]
pub struct GifReader {
    decoder: gif::Decoder<std::io::Cursor<Vec<u8>>>,
}

/// The bytes a reader decodes.
pub uninterp spec fn gif_reader_source(reader: GifReader) -> Seq<u8>;

/// How many times `read_next_frame` has been called on a reader.
pub uninterp spec fn gif_reader_position(reader: GifReader) -> nat;

/// The text of the error with which `DecodeOptions::read_info` (RGBA output,
/// default limits) refuses `data`, if it does.
pub uninterp spec fn gif_open_error(data: Seq<u8>) -> Option<Seq<char>>;

/// The logical screen size that the header of `data` declares.
pub uninterp spec fn gif_screen_size(data: Seq<u8>) -> (u16, u16);

/// What the call of `read_next_frame` numbered `index` (from 0) on a decoder
/// of `data` gives when the earlier calls all gave a frame: the frame's RGBA
/// buffer and its delay (hundredths of a second), `None` at the end of the
/// stream, or the error's text.
pub uninterp spec fn gif_frame_at(data: Seq<u8>, index: nat) -> Result<Option<(Seq<u8>, u16)>, Seq<char>>;

/// `gif::DecodeOptions::new()`, `set_color_output(ColorOutput::RGBA)` and
/// `read_info` over a copy of `data`: a reader at the start of `data`, or
/// the error's text.
#[verifier::external_body]
pub(crate) fn gif_open(data: &[u8]) -> (res: Result<GifReader, String>)
    ensures
        res is Ok <==> gif_open_error(data@) is None,
        res matches Ok(r) ==> gif_reader_source(r) == data@ && gif_reader_position(r) == 0,
        res matches Err(s) ==> gif_open_error(data@) == Some(s@),
{
    let mut options = gif::DecodeOptions::new();
    options.set_color_output(gif::ColorOutput::RGBA);
    match options.read_info(std::io::Cursor::new(data.to_vec())) {
        Ok(decoder) => Ok(GifReader { decoder }),
        Err(e) => Err(e.to_string()),
    }
}

/// `Decoder::width`: the logical screen width from the header.
#[verifier::external_body]
pub(crate) fn gif_width(reader: &GifReader) -> (res: u16)
    ensures
        res == gif_screen_size(gif_reader_source(*reader)).0,
{
    reader.decoder.width()
}

/// `Decoder::height`: the logical screen height from the header.
#[verifier::external_body]
pub(crate) fn gif_height(reader: &GifReader) -> (res: u16)
    ensures
        res == gif_screen_size(gif_reader_source(*reader)).1,
{
    reader.decoder.height()
}

/// `Decoder::read_next_frame`, the frame taken as its buffer and delay.
/// Each frame the decoder returns has consumed an image descriptor of the
/// input, so there are fewer frames than input bytes; and with the default
/// memory limit a frame buffer holds at most 50,000,000 bytes.
#[verifier::external_body]
pub(crate) fn gif_read_next_frame(reader: &mut GifReader) -> (res: Result<Option<(Vec<u8>, u16)>, String>)
    ensures
        gif_reader_source(*final(reader)) == gif_reader_source(*old(reader)),
        gif_reader_position(*final(reader)) == gif_reader_position(*old(reader)) + 1,
        match gif_frame_at(gif_reader_source(*old(reader)), gif_reader_position(*old(reader))) {
            Ok(None) => res matches Ok(None),
            Ok(Some((buffer, delay))) => res matches Ok(Some((b, d))) && b@ == buffer && d == delay,
            Err(e) => res matches Err(s) && s@ == e,
        },
        res matches Ok(Some((b, _))) ==> b@.len() <= 50_000_000
            && gif_reader_position(*old(reader)) < gif_reader_source(*old(reader)).len(),
{
    match reader.decoder.read_next_frame() {
        Ok(Some(frame)) => Ok(Some((frame.buffer.to_vec(), frame.delay))),
        Ok(None) => Ok(None),
        Err(e) => Err(e.to_string()),
    }
}

} // verus!
