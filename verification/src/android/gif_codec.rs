//! GIF to GIF transcoding on Android: frames are decoded with the `gif`
//! crate, resized to the target size, merged to a minimum delay and
//! re-encoded with one shared palette.
use vstd::prelude::*;
use crate::dimensions::{compute_target_dimensions, lemma_target_dimensions_bounds, spec_target_dimensions};
use crate::encode::{frames_match, merge_fits, merge_fits_i32, merge_frames_min_delay, spec_merge_frames};
use crate::error::Error;
use crate::gif_imagequant_encode::{encode_gif, gif_encode_outcome};
use crate::gif_reader::{
    gif_frame_at, gif_height, gif_open, gif_open_error, gif_read_next_frame, gif_reader_position,
    gif_reader_source, gif_screen_size, gif_width,
};
use crate::resize::{resize_rgba_nearest, spec_resize};

verus! {

/// Delay given to a frame whose GIF delay is 0.
pub const DEFAULT_DELAY_MS: i32 = 100;

/// A GIF delay (hundredths of a second) in milliseconds; 0 means the default.
pub open spec fn frame_delay_ms(delay: u16) -> i32 {
    if delay == 0 { DEFAULT_DELAY_MS } else { (delay * 10) as i32 }
}

/// A read that gave a frame.
pub open spec fn frame_ok(r: Result<Option<(Seq<u8>, u16)>, Seq<char>>) -> bool {
    r matches Ok(Some(_))
}

pub open spec fn frame_pixels(data: Seq<u8>, i: nat) -> Seq<u8> {
    match gif_frame_at(data, i) {
        Ok(Some((p, _))) => p,
        _ => Seq::empty(),
    }
}

pub open spec fn frame_delay(data: Seq<u8>, i: nat) -> u16 {
    match gif_frame_at(data, i) {
        Ok(Some((_, d))) => d,
        _ => 0,
    }
}

/// The first `n` reads of `data` all gave a frame.
pub open spec fn decodes_frames(data: Seq<u8>, n: nat) -> bool {
    forall|i: nat| i < n ==> frame_ok(#[trigger] gif_frame_at(data, i))
}

/// Reading `data` gives `m` frames and then something else (the end of the
/// stream or an error). At most one `m` does.
pub open spec fn decoding_stops_at(data: Seq<u8>, m: nat) -> bool {
    decodes_frames(data, m) && !frame_ok(gif_frame_at(data, m))
}

/// The decoded frames are the first `m` frames of `data`, each resized from
/// the `w x h` screen to `tw x th`, with its delay in milliseconds.
pub open spec fn frames_are_decoded(frames: Seq<(Vec<u8>, i32)>, data: Seq<u8>, m: nat, w: u32, h: u32, tw: u32, th: u32) -> bool {
    &&& frames.len() == m
    &&& forall|i: int| 0 <= i < m ==> (#[trigger] frames[i]).0@ == spec_resize(frame_pixels(data, i as nat), w, h, tw, th)
        && frames[i].1 == frame_delay_ms(frame_delay(data, i as nat))
}

/// What decoding `data` gives: the decoder's refusal, an empty screen, the
/// first frame error, no frame at all, or the frames with the target size.
pub open spec fn gif_decode_outcome(
    data: Seq<u8>,
    min_width: Option<u32>,
    min_height: Option<u32>,
    res: Result<(Vec<(Vec<u8>, i32)>, u32, u32), Error>,
) -> bool {
    match gif_open_error(data) {
        Some(e) => res matches Err(Error::DecodeError(s)) && s@ == "gif decode init failed: "@ + e,
        None => {
            let w = gif_screen_size(data).0 as u32;
            let h = gif_screen_size(data).1 as u32;
            let t = spec_target_dimensions(w, h, min_width, min_height);
            if w == 0 || h == 0 {
                res matches Err(Error::DecodeError(s)) && s@ == "GIF has zero dimensions"@
            } else {
                exists|m: nat| #[trigger] decoding_stops_at(data, m) && match gif_frame_at(data, m) {
                    Err(e) => res matches Err(Error::DecodeError(s)) && s@ == "gif decode frame failed: "@ + e,
                    _ => if m == 0 {
                        res matches Err(Error::DecodeError(s)) && s@ == "GIF contains no decodable frames"@
                    } else {
                        res matches Ok((frames, tw, th)) && tw == t.0 && th == t.1
                            && frames_are_decoded(frames@, data, m, w, h, tw, th)
                    },
                }
            }
        },
    }
}

/// Decodes every frame of a GIF, resizing each from the logical screen size
/// to the target size for the given minimum dimensions.
pub fn decode_gif_frames(input: &[u8], min_width: Option<u32>, min_height: Option<u32>)
    -> (res: Result<(Vec<(Vec<u8>, i32)>, u32, u32), Error>)
    ensures
        gif_decode_outcome(input@, min_width, min_height, res),
{
    let mut reader = match gif_open(input) {
        Ok(r) => r,
        Err(e) => {
            return Err(Error::DecodeError(String::from_str("gif decode init failed: ").concat(e.as_str())));
        },
    };
    let src_w = gif_width(&reader) as u32;
    let src_h = gif_height(&reader) as u32;
    if src_w == 0 || src_h == 0 {
        return Err(Error::DecodeError(String::from_str("GIF has zero dimensions")));
    }
    let (target_w, target_h) = compute_target_dimensions(src_w, src_h, min_width, min_height);
    proof {
        lemma_target_dimensions_bounds(src_w, src_h, min_width, min_height);
        assert((target_w as int) * (target_h as int) <= (src_w as int) * (src_h as int)) by (nonlinear_arith)
            requires target_w <= src_w, target_h <= src_h;
    }
    let ghost data = input@;
    let mut frames: Vec<(Vec<u8>, i32)> = Vec::new();
    let mut done = false;
    while !done
        invariant
            gif_reader_source(reader) == data,
            data == input@,
            0 < src_w <= u16::MAX,
            0 < src_h <= u16::MAX,
            1 <= target_w <= src_w,
            1 <= target_h <= src_h,
            (target_w as int) * (target_h as int) <= (src_w as int) * (src_h as int),
            gif_open_error(data) is None,
            src_w == gif_screen_size(data).0 as u32,
            src_h == gif_screen_size(data).1 as u32,
            (target_w, target_h) == spec_target_dimensions(src_w, src_h, min_width, min_height),
            frames@.len() <= data.len(),
            decodes_frames(data, frames@.len()),
            !done ==> gif_reader_position(reader) == frames@.len(),
            done ==> gif_frame_at(data, frames@.len()) matches Ok(None),
            forall|i: int| 0 <= i < frames@.len() ==> (#[trigger] frames@[i]).0@
                == spec_resize(frame_pixels(data, i as nat), src_w, src_h, target_w, target_h)
                && frames@[i].1 == frame_delay_ms(frame_delay(data, i as nat)),
        decreases data.len() - frames@.len() + if done { 0int } else { 1int },
    {
        let ghost count = frames@.len();
        match gif_read_next_frame(&mut reader) {
            Err(e) => {
                proof {
                    assert(decoding_stops_at(data, count));
                }
                return Err(Error::DecodeError(String::from_str("gif decode frame failed: ").concat(e.as_str())));
            },
            Ok(None) => {
                done = true;
            },
            Ok(Some((buffer, delay))) => {
                let delay_ms: i32 = if delay == 0 { DEFAULT_DELAY_MS } else { (delay as i32) * 10 };
                proof {
                    if buffer@.len() == src_w * src_h * 4 {
                        assert((target_w as int) * (target_h as int) * 4 <= (src_w as int) * (src_h as int) * 4);
                    }
                }
                let resized = resize_rgba_nearest(buffer.as_slice(), src_w, src_h, target_w, target_h);
                frames.push((resized, delay_ms));
                proof {
                    assert forall|i: nat| i < frames@.len() implies frame_ok(#[trigger] gif_frame_at(data, i)) by {
                        if i < count {
                            assert(decodes_frames(data, count));
                        }
                    }
                    assert forall|i: int| 0 <= i < frames@.len() implies (#[trigger] frames@[i]).0@
                        == spec_resize(frame_pixels(data, i as nat), src_w, src_h, target_w, target_h)
                        && frames@[i].1 == frame_delay_ms(frame_delay(data, i as nat)) by {
                        if i < count {
                        }
                    }
                }
            },
        }
    }
    proof {
        assert(decoding_stops_at(data, frames@.len()));
    }
    if frames.len() == 0 {
        return Err(Error::DecodeError(String::from_str("GIF contains no decodable frames")));
    }
    Ok((frames, target_w, target_h))
}

/// Every decoded frame lasts its GIF delay in milliseconds (ten per hundredth
/// of a second); a frame whose GIF delay is 0 lasts the default 100 ms, so no
/// decoded frame lasts less than 10 ms.
pub proof fn lemma_decoded_delays(
    data: Seq<u8>,
    min_width: Option<u32>,
    min_height: Option<u32>,
    res: Result<(Vec<(Vec<u8>, i32)>, u32, u32), Error>,
)
    requires
        gif_decode_outcome(data, min_width, min_height, res),
    ensures
        res matches Ok((frames, _, _)) ==> forall|i: int| 0 <= i < frames@.len() ==> {
            &&& frame_delay(data, i as nat) == 0 ==> (#[trigger] frames@[i]).1 == 100
            &&& frame_delay(data, i as nat) != 0 ==> frames@[i].1 == 10 * frame_delay(data, i as nat)
            &&& frames@[i].1 >= 10
        },
{
    if res is Ok && gif_open_error(data) is None {
        let w = gif_screen_size(data).0 as u32;
        let h = gif_screen_size(data).1 as u32;
        if w != 0 && h != 0 {
            let m = choose|m: nat| #[trigger] decoding_stops_at(data, m) && match gif_frame_at(data, m) {
                Err(e) => res matches Err(Error::DecodeError(s)) && s@ == "gif decode frame failed: "@ + e,
                _ => if m == 0 {
                    res matches Err(Error::DecodeError(s)) && s@ == "GIF contains no decodable frames"@
                } else {
                    res matches Ok((frames, tw, th)) && tw == spec_target_dimensions(w, h, min_width, min_height).0
                        && th == spec_target_dimensions(w, h, min_width, min_height).1
                        && frames_are_decoded(frames@, data, m, w, h, tw, th)
                },
            };
            let frames = res->Ok_0.0;
            assert forall|i: int| 0 <= i < frames@.len() implies {
                &&& frame_delay(data, i as nat) == 0 ==> (#[trigger] frames@[i]).1 == 100
                &&& frame_delay(data, i as nat) != 0 ==> frames@[i].1 == 10 * frame_delay(data, i as nat)
                &&& frames@[i].1 >= 10
            } by {
                assert(frames@[i].1 == frame_delay_ms(frame_delay(data, i as nat)));
            }
        }
    }
}

/// The message when the merged delays do not fit in 32 bits.
pub open spec fn delay_overflow_message() -> Seq<char> {
    "merged GIF frame delay exceeds the 32-bit range"@
}

/// What transcoding gives after decoding to `decoded`: a decode error is
/// passed on; decoded frames are merged to a minimum delay and encoded at
/// `quality`, unless a merged delay would not fit in 32 bits.
pub open spec fn gif_transcode_outcome(
    decoded: Result<(Vec<(Vec<u8>, i32)>, u32, u32), Error>,
    quality: u8,
    res: Result<Vec<u8>, Error>,
) -> bool {
    match decoded {
        Err(e) => res == Err::<Vec<u8>, Error>(e),
        Ok((frames, tw, th)) => if merge_fits_i32(frames@) {
            exists|merged: Seq<(Vec<u8>, i32)>| #[trigger] frames_match(merged, spec_merge_frames(frames@))
                && gif_encode_outcome(merged, tw, th, quality, res)
        } else {
            res matches Err(Error::EncodeError(s)) && s@ == delay_overflow_message()
        },
    }
}

/// Transcodes a GIF: decode and resize every frame, merge frames to at
/// least 100 ms each, and encode them again with one shared palette.
pub fn transcode_gif(input: &[u8], min_width: Option<u32>, min_height: Option<u32>, quality: u8)
    -> (res: Result<Vec<u8>, Error>)
    ensures
        exists|decoded: Result<(Vec<(Vec<u8>, i32)>, u32, u32), Error>|
            gif_decode_outcome(input@, min_width, min_height, decoded)
            && #[trigger] gif_transcode_outcome(decoded, quality, res),
{
    let decoded = decode_gif_frames(input, min_width, min_height);
    let ghost d = decoded;
    match decoded {
        Err(e) => {
            assert(gif_transcode_outcome(d, quality, Err(e)));
            Err(e)
        },
        Ok((frames, target_w, target_h)) => {
            if !merge_fits(&frames) {
                let r = Err(Error::EncodeError(String::from_str("merged GIF frame delay exceeds the 32-bit range")));
                assert(gif_transcode_outcome(d, quality, r));
                return r;
            }
            let ghost before = frames@;
            let merged = merge_frames_min_delay(frames);
            let r = encode_gif(&merged, target_w, target_h, quality);
            assert(gif_transcode_outcome(d, quality, r)) by {
                assert(frames_match(merged@, spec_merge_frames(before)));
            }
            r
        },
    }
}

} // verus!
