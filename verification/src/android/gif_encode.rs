use vstd::prelude::*;
use crate::error::Error;
use crate::gif_imagequant_encode::{
    dimensions_message, first_bad_frame, first_translucent, gif_args_valid, length_message, palette_rgb,
    lemma_first_bad_frame_from, lemma_first_bad_frame_stable,
    spec_delay_to_centiseconds, delay_to_centiseconds, step_error, step_failure,
};
use crate::gif_writer::{
    gif_encoder_new, gif_error_text, gif_finish, gif_frame_block, gif_header, gif_set_repeat, gif_trailer,
    gif_write_frame, gif_written, io_error_text, netscape_loop_block,
};
use crate::quantize::{
    iq_error_text, iq_new, iq_new_image, iq_quantize, iq_remap_of, iq_remapped, iq_result_dither, iq_result_source,
    iq_set_dithering_level, iq_set_speed, iq_settings, IqSource,
};
use crate::text::decimal;

verus! {

/// A frame quantized on its own: palette indices, the palette's `r, g, b`
/// bytes, and the index of its first entry with alpha below 128.
pub type QuantizedFrame = (Seq<u8>, Seq<u8>, Option<u8>);

/// GIF palette bytes and transparent index of a frame's own palette.
pub open spec fn local_palette(palette: Seq<(u8, u8, u8, u8)>) -> (Seq<u8>, Option<u8>) {
    (
        palette_rgb(palette, palette.len() as int),
        match first_translucent(palette, palette.len() as int) {
            Some(k) => Some(k as u8),
            None => None,
        },
    )
}

/// Blocks of frames that each carry their own palette and cover the canvas.
pub open spec fn local_frame_blocks(w: u16, h: u16, frames: Seq<QuantizedFrame>, delays: Seq<i32>) -> Seq<u8>
    decreases frames.len(),
{
    if frames.len() == 0 || delays.len() < frames.len() {
        Seq::empty()
    } else {
        let n = frames.len() - 1;
        let f = frames[n];
        local_frame_blocks(w, h, frames.drop_last(), delays)
            + gif_frame_block(0, 0, w, h, spec_delay_to_centiseconds(delays[n]), f.2, Some(f.1), f.0)
    }
}

/// The source of a frame's own palette: that frame alone, with speed 5 and
/// otherwise default settings (palette refined while remapping).
pub open spec fn single_source(pixels: Seq<u8>, w: u32, h: u32) -> IqSource {
    (seq![(pixels, w as nat, h as nat)], (5i32, 256u32, None::<(u8, u8)>), false)
}

/// A frame quantized on its own and remapped with full dithering: its
/// palette indices, its palette's GIF bytes and transparent index.
pub open spec fn frame_quantized(pixels: Seq<u8>, w: u32, h: u32) -> QuantizedFrame {
    let r = iq_remap_of(single_source(pixels, w, h), 1, pixels, w as nat, h as nat, Some(single_source(pixels, w, h).1));
    let lp = local_palette(r.0);
    (r.1, lp.0, lp.1)
}

pub open spec fn frames_quantized(frames: Seq<(Vec<u8>, i32)>, w: u32, h: u32) -> Seq<QuantizedFrame> {
    Seq::new(frames.len(), |k: int| frame_quantized(frames[k].0@, w, h))
}

/// `bytes` is the GIF of `frames` in which every frame carries its own
/// palette and covers the canvas.
pub open spec fn local_gif_encoding_of(frames: Seq<(Vec<u8>, i32)>, w: u32, h: u32, bytes: Seq<u8>) -> bool {
    bytes == gif_header(w as u16, h as u16, Seq::empty()) + netscape_loop_block(None)
        + local_frame_blocks(w as u16, h as u16, frames_quantized(frames, w, h), frames.map_values(|f: (Vec<u8>, i32)| f.1))
        + gif_trailer()
}

/// Quantize one RGBA frame on its own (speed 5, full dithering).
fn quantize_rgba_frame(pixels: &Vec<u8>, w: u32, h: u32) -> (res: Result<(Vec<u8>, Vec<u8>, Option<u8>), Error>)
    requires
        0 < w <= u16::MAX,
        0 < h <= u16::MAX,
        pixels@.len() == w * h * 4,
    ensures
        res matches Ok(q) ==> (q.0@, q.1@, q.2) == frame_quantized(pixels@, w, h) && q.0@.len() == w * h
            && q.1@.len() <= 768,
        res matches Err(e) ==> e is EncodeError && step_failure(e->EncodeError_0@),
{
    let mut attr = iq_new();
    match iq_set_speed(&mut attr, 5) {
        Ok(()) => {},
        Err(e) => return Err(step_error("imagequant set_speed failed: ", iq_error_text(e))),
    }
    let mut image = match iq_new_image(&attr, pixels.as_slice(), w as usize, h as usize) {
        Ok(img) => img,
        Err(e) => return Err(step_error("imagequant new_image failed: ", iq_error_text(e))),
    };
    assert(pixels@.subrange(0, ((pixels@.len() / 4) * 4) as int) =~= pixels@);
    let mut quantized = match iq_quantize(&attr, &mut image) {
        Ok(q) => q,
        Err(e) => return Err(step_error("imagequant quantize failed: ", iq_error_text(e))),
    };
    match iq_set_dithering_level(&mut quantized, 1) {
        Ok(()) => {},
        Err(e) => return Err(step_error("imagequant set_dithering_level failed: ", iq_error_text(e))),
    }
    assert(iq_result_source(quantized) == single_source(pixels@, w, h));
    let (palette, indexed) = match iq_remapped(&mut quantized, &mut image) {
        Ok(r) => r,
        Err(e) => return Err(step_error("imagequant remap failed: ", iq_error_text(e))),
    };
    let mut gif_palette: Vec<u8> = Vec::new();
    let mut transparent: Option<u8> = None;
    let mut idx: usize = 0;
    while idx < palette.len()
        invariant
            palette@.len() <= 256,
            idx <= palette@.len(),
            gif_palette@ == palette_rgb(palette@, idx as int),
            gif_palette@.len() == 3 * idx,
            transparent == match first_translucent(palette@, idx as int) {
                Some(k) => Some(k as u8),
                None => None::<u8>,
            },
        decreases palette@.len() - idx,
    {
        let color = palette[idx];
        gif_palette.push(color.0);
        gif_palette.push(color.1);
        gif_palette.push(color.2);
        assert(gif_palette@ =~= palette_rgb(palette@, idx as int + 1));
        if transparent.is_none() && color.3 < 128 {
            transparent = Some(idx as u8);
        }
        idx = idx + 1;
    }
    assert(local_palette(palette@) == (gif_palette@, transparent));
    Ok((indexed, gif_palette, transparent))
}

/// Encode RGBA frames (`(pixels, delay_ms)`) to a looping animated GIF in
/// which every frame is quantized on its own and carries its own palette.
/// Frames are quantized one after the other, so a frame of the wrong length
/// is reported unless quantizing an earlier frame failed first. Success is
/// not promised: the quantizer and the writer report running out of memory
/// through their results.
pub fn encode_gif(frames: &Vec<(Vec<u8>, i32)>, w: u32, h: u32) -> (res: Result<Vec<u8>, Error>)
    ensures
        frames@.len() == 0 ==> (res matches Err(Error::EncodeError(s)) && s@ == "cannot encode GIF with zero frames"@),
        frames@.len() > 0 && (w == 0 || h == 0 || w > u16::MAX || h > u16::MAX)
            ==> (res matches Err(Error::EncodeError(s)) && s@ == dimensions_message(w, h)),
        frames@.len() > 0 && 0 < w <= u16::MAX && 0 < h <= u16::MAX ==> match first_bad_frame(
            frames@, w as int, h as int, frames@.len() as int) {
            Some(k) => res matches Err(Error::EncodeError(s)) && (s@ == length_message(frames@[k].0@.len() as int, w * h * 4)
                || step_failure(s@)),
            None => true,
        },
        res matches Err(e) ==> e is EncodeError && (gif_args_valid(frames@, w, h) ==> step_failure(e->EncodeError_0@)),
        res matches Ok(bytes) ==> gif_args_valid(frames@, w, h) && local_gif_encoding_of(frames@, w, h, bytes@),
{
    if frames.len() == 0 {
        return Err(Error::EncodeError(String::from_str("cannot encode GIF with zero frames")));
    }
    if w == 0 || h == 0 || w > 65535 || h > 65535 {
        let msg = String::from_str("invalid GIF dimensions: ").concat(decimal(w as u128).as_str()).concat("x").concat(
            decimal(h as u128).as_str());
        return Err(Error::EncodeError(msg));
    }
    proof {
        assert((w as int) * (h as int) <= 65535 * 65535) by (nonlinear_arith)
            requires w <= 65535, h <= 65535;
    }
    let expected: u64 = (w as u64) * (h as u64) * 4;
    let no_palette: Vec<u8> = Vec::new();
    let mut stream = match gif_encoder_new(w as u16, h as u16, no_palette.as_slice()) {
        Ok(s) => s,
        Err(e) => return Err(step_error("gif encoder init failed: ", gif_error_text(&e))),
    };
    match gif_set_repeat(&mut stream, None) {
        Ok(()) => {},
        Err(e) => return Err(step_error("gif set repeat failed: ", gif_error_text(&e))),
    }
    let ghost delays = frames@.map_values(|f: (Vec<u8>, i32)| f.1);
    let ghost mut q: Seq<QuantizedFrame> = Seq::empty();
    let ghost start = gif_written(stream);
    let mut k: usize = 0;
    while k < frames.len()
        invariant
            0 < w <= u16::MAX, 0 < h <= u16::MAX,
            expected == w * h * 4,
            delays == frames@.map_values(|f: (Vec<u8>, i32)| f.1),
            start == gif_header(w as u16, h as u16, Seq::empty()) + netscape_loop_block(None),
            k <= frames@.len(),
            q.len() == k,
            first_bad_frame(frames@, w as int, h as int, k as int) is None,
            frames@.len() > 0,
            forall|j: int| 0 <= j < q.len() ==> (#[trigger] q[j]).0.len() == w * h && q[j].1.len() <= 768,
            forall|j: int| 0 <= j < q.len() ==> #[trigger] q[j] == frame_quantized(frames@[j].0@, w, h),
            gif_written(stream) == start + local_frame_blocks(w as u16, h as u16, q, delays),
        decreases frames@.len() - k,
    {
        let (pixels, delay_ms) = (&frames[k].0, frames[k].1);
        if pixels.len() as u64 != expected {
            let msg = String::from_str("invalid RGBA length for GIF frame: got ")
                .concat(decimal(pixels.len() as u128).as_str())
                .concat(", expected ")
                .concat(decimal(expected as u128).as_str());
            proof {
                assert(first_bad_frame(frames@, w as int, h as int, k + 1) == Some(k as int));
                lemma_first_bad_frame_stable(frames@, w as int, h as int, k + 1, frames@.len() as int);
            }
            return Err(Error::EncodeError(msg));
        }
        assert(first_bad_frame(frames@, w as int, h as int, k + 1) is None);
        let (indexed, palette, transparent) = match quantize_rgba_frame(pixels, w, h) {
            Ok(q) => q,
            Err(e) => {
                proof {
                    if first_bad_frame(frames@, w as int, h as int, frames@.len() as int) is Some {
                        lemma_first_bad_frame_from(frames@, w as int, h as int, k + 1, frames@.len() as int);
                    }
                }
                return Err(e);
            },
        };
        let delay = delay_to_centiseconds(delay_ms);
        match gif_write_frame(&mut stream, 0, 0, w as u16, h as u16, delay, transparent, Some(palette.as_slice()), indexed.as_slice()) {
            Ok(()) => {},
            Err(e) => return Err(step_error("gif write frame failed: ", gif_error_text(&e))),
        }
        proof {
            let nq = q.push((indexed@, palette@, transparent));
            assert(nq.drop_last() =~= q);
            assert(delays[k as int] == delay_ms);
            assert(local_frame_blocks(w as u16, h as u16, nq, delays)
                == local_frame_blocks(w as u16, h as u16, q, delays)
                + gif_frame_block(0, 0, w as u16, h as u16, spec_delay_to_centiseconds(delays[k as int]), transparent,
                    Some(palette@), indexed@));
            q = nq;
        }
        k = k + 1;
    }
    let res = match gif_finish(stream) {
        Ok(bytes) => Ok(bytes),
        Err(e) => Err(step_error("gif finish failed: ", io_error_text(&e))),
    };
    proof {
        assert(q =~= frames_quantized(frames@, w, h));
    }
    res
}

} // verus!
