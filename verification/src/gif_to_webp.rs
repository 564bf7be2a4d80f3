//! Decoding a GIF into the frames and timestamps of an animated WebP.
use vstd::prelude::*;
use image::AnimationDecoder;
use crate::error::Error;
use crate::webp_encode::{delay_prefix_sum, frame_timestamps, timestamps_fit};

verus! {

/// A frame delay given as the ratio `numer / denom` milliseconds: a zero
/// denominator means 100 ms; the quotient is taken as a 32-bit signed value
/// (wrapping above `i32::MAX`).
pub open spec fn spec_delay_ms_from_ratio(numer: u32, denom: u32) -> i32 {
    let q: u32 = if denom == 0 { 100 } else { numer / denom };
    q as i32
}

pub fn delay_ms_from_ratio(numer: u32, denom: u32) -> (res: i32)
    ensures
        res == spec_delay_ms_from_ratio(numer, denom),
        denom != 0 && numer / denom <= i32::MAX ==> res == numer / denom,
        denom == 0 ==> res == 100,
{
    let q: u32 = if denom == 0 { 100 } else { numer / denom };
    let r: i32 = #[verifier::truncate] (q as i32);
    proof {
        if q <= 0x7fff_ffff {
            assert(q as i32 == q) by (bit_vector)
                requires q <= 0x7fff_ffffu32;
        }
    }
    r
}

/// The frames that `image`'s GIF decoder composes from `data`, each as its
/// RGBA canvas, width, height and delay ratio `(numer, denom)` in
/// milliseconds; or the text of the decoder's error.
pub uninterp spec fn image_gif_frames(data: Seq<u8>) -> Result<Seq<(Seq<u8>, u32, u32, u32, u32)>, Seq<char>>;

/// `GifDecoder::new` over `data`, then `into_frames().collect_frames()`,
/// each frame taken as its raw RGBA buffer, its dimensions and
/// `delay().numer_denom_ms()`.
#[verifier::external_body]
fn image_decode_gif_frames(data: &[u8]) -> (res: Result<Vec<(Vec<u8>, u32, u32, u32, u32)>, String>)
    ensures
        res is Ok <==> image_gif_frames(data@) is Ok,
        res matches Err(s) ==> (image_gif_frames(data@) matches Err(e) && e == s@),
        res matches Ok(v) ==> image_gif_frames(data@) matches Ok(fs) && v@.len() == fs.len()
            && forall|k: int| 0 <= k < v@.len() ==> (#[trigger] v@[k]).0@ == fs[k].0 && v@[k].1 == fs[k].1
                && v@[k].2 == fs[k].2 && v@[k].3 == fs[k].3 && v@[k].4 == fs[k].4,
{
    let decoder = image::codecs::gif::GifDecoder::new(std::io::Cursor::new(data)).map_err(|e| e.to_string())?;
    let frames = decoder.into_frames().collect_frames().map_err(|e| e.to_string())?;
    Ok(frames.into_iter().map(|f| {
        let (numer, denom) = f.delay().numer_denom_ms();
        let (w, h) = f.buffer().dimensions();
        (f.into_buffer().into_raw(), w, h, numer, denom)
    }).collect())
}

/// The delays in milliseconds of decoded frames.
pub open spec fn frame_delays_ms(fs: Seq<(Seq<u8>, u32, u32, u32, u32)>) -> Seq<i32> {
    fs.map_values(|f: (Seq<u8>, u32, u32, u32, u32)| spec_delay_ms_from_ratio(f.3, f.4))
}

/// The message when a timestamp of the animation leaves the 32-bit range.
pub open spec fn timestamp_overflow_message() -> Seq<char> {
    "animation timestamps exceed the 32-bit range"@
}

/// Decodes a GIF for re-encoding as an animated WebP: the frames' RGBA
/// canvases with the timestamp (ms) at which each starts, and the size of
/// the first frame, which every frame is encoded at.
pub fn decode_gif_for_webp(input: &[u8]) -> (res: Result<(Vec<(Vec<u8>, i32)>, u32, u32), Error>)
    ensures
        image_gif_frames(input@) matches Err(e) ==> (res matches Err(Error::DecodeError(s)) && s@ == e),
        image_gif_frames(input@) matches Ok(fs) ==> {
            if fs.len() == 0 {
                res matches Err(Error::DecodeError(s)) && s@ == "GIF has no frames"@
            } else if !timestamps_fit(frame_delays_ms(fs)) {
                res matches Err(Error::EncodeError(s)) && s@ == timestamp_overflow_message()
            } else {
                res matches Ok((frames, w, h)) && w == fs[0].1 && h == fs[0].2 && frames@.len() == fs.len()
                    && forall|k: int| 0 <= k < fs.len() ==> (#[trigger] frames@[k]).0@ == fs[k].0
                        && frames@[k].1 as int == delay_prefix_sum(frame_delays_ms(fs), k)
            }
        },
{
    let decoded = match image_decode_gif_frames(input) {
        Ok(v) => v,
        Err(e) => return Err(Error::DecodeError(e)),
    };
    let ghost fs = match image_gif_frames(input@) { Ok(fs) => fs, Err(_) => Seq::empty() };
    if decoded.len() == 0 {
        return Err(Error::DecodeError(String::from_str("GIF has no frames")));
    }
    let width = decoded[0].1;
    let height = decoded[0].2;
    let mut delays: Vec<i32> = Vec::new();
    let mut k: usize = 0;
    while k < decoded.len()
        invariant
            k <= decoded@.len(),
            decoded@.len() == fs.len(),
            forall|j: int| 0 <= j < decoded@.len() ==> (#[trigger] decoded@[j]).3 == fs[j].3 && decoded@[j].4 == fs[j].4,
            delays@ == frame_delays_ms(fs).take(k as int),
        decreases decoded@.len() - k,
    {
        delays.push(delay_ms_from_ratio(decoded[k].3, decoded[k].4));
        k = k + 1;
        assert(delays@ =~= frame_delays_ms(fs).take(k as int));
    }
    assert(delays@ =~= frame_delays_ms(fs));
    let stamps = match frame_timestamps(&delays) {
        Some(t) => t,
        None => {
            return Err(Error::EncodeError(String::from_str("animation timestamps exceed the 32-bit range")));
        },
    };
    let mut frames: Vec<(Vec<u8>, i32)> = Vec::new();
    let ghost all = decoded@;
    for f in it: decoded.into_iter()
        invariant
            it.seq() == all,
            all.len() == fs.len(),
            stamps@.len() == fs.len(),
            forall|j: int| 0 <= j < all.len() ==> (#[trigger] all[j]).0@ == fs[j].0,
            forall|j: int| 0 <= j < stamps@.len() ==> #[trigger] stamps@[j] as int == delay_prefix_sum(frame_delays_ms(fs), j),
            frames@.len() == it.index(),
            forall|j: int| 0 <= j < frames@.len() ==> (#[trigger] frames@[j]).0@ == fs[j].0
                && frames@[j].1 as int == delay_prefix_sum(frame_delays_ms(fs), j),
    {
        let (pixels, _, _, _, _) = f;
        let i = frames.len();
        frames.push((pixels, stamps[i]));
    }
    Ok((frames, width, height))
}

} // verus!
