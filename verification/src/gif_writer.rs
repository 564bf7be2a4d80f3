//! Writing GIF streams through the `gif` crate.
use vstd::prelude::*;

verus! {

/// A `gif::Encoder` writing into a byte vector. Verus cannot declare the
/// encoder type itself (its `Write` bound), so it is held here, opaque.
#[verifier::external_body]
pub struct GifStream {
    encoder: gif::Encoder<Vec<u8>>,
}

#[verifier::external_type_specification]
#[verifier::external_body]
pub struct ExGifEncodingError(gif::EncodingError);

#[verifier::external_type_specification]
#[verifier::external_body]
pub struct ExIoError(std::io::Error);

/// The bytes an encoder has written so far.
pub uninterp spec fn gif_written(stream: GifStream) -> Seq<u8>;

/// The size field of a colour table of `n` entries: the table is padded to
/// `2 << field` entries, the smallest such power of two (at least 2).
pub open spec fn color_table_field(n: nat) -> nat {
    if n <= 2 { 0 } else if n <= 4 { 1 } else if n <= 8 { 2 } else if n <= 16 { 3 }
    else if n <= 32 { 4 } else if n <= 64 { 5 } else if n <= 128 { 6 } else { 7 }
}

/// Two to the power `k`.
pub open spec fn pow2(k: nat) -> nat
    decreases k,
{
    if k == 0 { 1 } else { 2 * pow2((k - 1) as nat) }
}

/// `count` zero bytes.
pub open spec fn zeros(count: nat) -> Seq<u8> {
    Seq::new(count, |i: int| 0u8)
}

/// Header, logical screen descriptor and global colour table that
/// `gif::Encoder::new` writes for a `width x height` canvas: `GIF89a`, the
/// sides little-endian, the flags (table present, colour resolution and
/// table size both set to the size field), background index and aspect ratio
/// 0, then the palette's whole `r, g, b` entries padded with black entries to
/// `2 << field` of them.
pub open spec fn gif_header(width: u16, height: u16, palette: Seq<u8>) -> Seq<u8> {
    let n = palette.len() / 3;
    let field = color_table_field(n);
    seq![0x47u8, 0x49u8, 0x46u8, 0x38u8, 0x39u8, 0x61u8,
        (width % 256) as u8, (width / 256) as u8, (height % 256) as u8, (height / 256) as u8,
        (0x80 + 16 * field + field) as u8, 0u8, 0u8]
        + palette.subrange(0, 3 * n as int)
        + zeros(3 * ((2 * pow2(field)) - n) as nat)
}

/// Graphic control extension and image block that `Encoder::write_frame`
/// writes for a frame kept on the canvas after display (the default disposal),
/// with an optional local colour table.
pub uninterp spec fn gif_frame_block(
    left: u16,
    top: u16,
    width: u16,
    height: u16,
    delay: u16,
    transparent: Option<u8>,
    palette: Option<Seq<u8>>,
    pixels: Seq<u8>,
) -> Seq<u8>;

/// The NETSCAPE2.0 application extension for a loop count (`None`: loop
/// forever). A finite count of 0 writes nothing.
pub open spec fn netscape_loop_block(count: Option<u16>) -> Seq<u8> {
    let n: u16 = match count {
        Some(c) => c,
        None => 0,
    };
    if count == Some(0u16) {
        Seq::empty()
    } else {
        seq![0x21u8, 0xffu8, 0x0bu8,
            0x4eu8, 0x45u8, 0x54u8, 0x53u8, 0x43u8, 0x41u8, 0x50u8, 0x45u8, 0x32u8, 0x2eu8, 0x30u8,
            0x03u8, 0x01u8, (n % 256) as u8, (n / 256) as u8, 0x00u8]
    }
}

/// The GIF trailer byte.
pub open spec fn gif_trailer() -> Seq<u8> {
    seq![0x3bu8]
}

/// `gif::Encoder::new` over a fresh byte vector: on success it has written
/// the header with the global palette (which has at most 256 entries; more
/// are refused).
#[verifier::external_body]
pub(crate) fn gif_encoder_new(width: u16, height: u16, palette: &[u8])
    -> (res: Result<GifStream, gif::EncodingError>)
    ensures
        res matches Ok(e) ==> gif_written(e) == gif_header(width, height, palette@),
{
    gif::Encoder::new(Vec::new(), width, height, palette).map(|encoder| GifStream { encoder })
}

/// `Encoder::set_repeat` (`None`: `Repeat::Infinite`, `Some(n)`:
/// `Repeat::Finite(n)`): on success the loop extension is appended.
#[verifier::external_body]
pub(crate) fn gif_set_repeat(stream: &mut GifStream, count: Option<u16>) -> (res: Result<(), gif::EncodingError>)
    ensures
        res is Ok ==> gif_written(*final(stream)) == gif_written(*old(stream)) + netscape_loop_block(count),
{
    let repeat = match count {
        Some(n) => gif::Repeat::Finite(n),
        None => gif::Repeat::Infinite,
    };
    stream.encoder.set_repeat(repeat)
}

/// `Encoder::write_frame` for a frame built from its fields (other fields at
/// `Frame::default()`): on success the frame's blocks are appended. The
/// encoder asserts (in debug builds) that a frame without area has no
/// pixels, so such a frame is not taken.
#[verifier::external_body]
pub(crate) fn gif_write_frame(
    stream: &mut GifStream,
    left: u16,
    top: u16,
    width: u16,
    height: u16,
    delay: u16,
    transparent: Option<u8>,
    palette: Option<&[u8]>,
    pixels: &[u8],
) -> (res: Result<(), gif::EncodingError>)
    requires
        (width > 0 && height > 0) || pixels@.len() == 0,
    ensures
        res is Ok ==> gif_written(*final(stream)) == gif_written(*old(stream)) + gif_frame_block(
            left, top, width, height, delay, transparent,
            match palette { Some(p) => Some(p@), None => None }, pixels@),
{
    let frame = gif::Frame {
        left,
        top,
        width,
        height,
        delay,
        transparent,
        palette: palette.map(|p| p.to_vec()),
        buffer: std::borrow::Cow::Borrowed(pixels),
        ..gif::Frame::default()
    };
    stream.encoder.write_frame(&frame)
}

/// `Encoder::into_inner`: writes the trailer and hands back the bytes.
#[verifier::external_body]
pub(crate) fn gif_finish(stream: GifStream) -> (res: Result<Vec<u8>, std::io::Error>)
    ensures
        res matches Ok(bytes) ==> bytes@ == gif_written(stream) + gif_trailer(),
{
    stream.encoder.into_inner()
}

/// The text of a `gif::EncodingError` (its `Display`). Nothing is claimed of it.
#[verifier::external_body]
pub(crate) fn gif_error_text(e: &gif::EncodingError) -> (res: String) {
    e.to_string()
}

/// The text of a `std::io::Error` (its `Display`). Nothing is claimed of it.
#[verifier::external_body]
pub(crate) fn io_error_text(e: &std::io::Error) -> (res: String) {
    e.to_string()
}

} // verus!
