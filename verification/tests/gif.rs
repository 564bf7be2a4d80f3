use media_compress::android::gif_codec::{decode_gif_frames, transcode_gif};
use media_compress::android::gif_encode;
use media_compress::gif_imagequant_encode::{
    crop_indexed_region, delay_to_centiseconds, delta_frame, diff_bounds, encode_gif, gif_quality_settings,
    non_transparent_bounds, palette_to_gif_bytes,
};
use media_compress::gif_to_webp::decode_gif_for_webp;
use media_compress::Error;

fn solid(w: usize, h: usize, rgba: [u8; 4]) -> Vec<u8> {
    rgba.repeat(w * h)
}

fn two_frame_animation() -> Vec<(Vec<u8>, i32)> {
    vec![
        (solid(2, 2, [255, 0, 0, 255]), 200),
        (solid(2, 2, [0, 0, 255, 255]), 300),
    ]
}

#[test]
fn delay_in_centiseconds() {
    assert_eq!(delay_to_centiseconds(250), 25);
    assert_eq!(delay_to_centiseconds(5), 1);
    assert_eq!(delay_to_centiseconds(-40), 1);
    assert_eq!(delay_to_centiseconds(109), 10);
}

#[test]
fn quality_maps_to_quantizer_scale() {
    assert_eq!(gif_quality_settings(75), (47, 96));
    assert_eq!(gif_quality_settings(100), (62, 128));
    assert_eq!(gif_quality_settings(200), (62, 128));
    assert_eq!(gif_quality_settings(0), (1, 96));
}

#[test]
fn changed_region_bounds() {
    let prev = [0u8, 0, 0, 0, 0, 0, 0, 0, 0];
    let curr = [0u8, 0, 0, 0, 5, 6, 0, 7, 0];
    assert_eq!(diff_bounds(&prev, &curr, 3, 3), Some((1, 1, 2, 2)));
    assert_eq!(diff_bounds(&prev, &prev, 3, 3), None);
}

#[test]
fn opaque_region_bounds() {
    let idx = [9u8, 9, 9, 9, 1, 9, 9, 9, 2];
    assert_eq!(non_transparent_bounds(&idx, 3, 3, 9), Some((1, 1, 2, 2)));
    assert_eq!(non_transparent_bounds(&[9u8; 9], 3, 3, 9), None);
}

#[test]
fn crop_takes_rows_of_the_region() {
    let idx: Vec<u8> = (0..12).collect(); // 4x3
    assert_eq!(crop_indexed_region(&idx, 4, 1, 1, 2, 2), vec![5, 6, 9, 10]);
    assert!(crop_indexed_region(&idx, 4, 0, 0, 3, 0).is_empty());
}

#[test]
fn delta_marks_unchanged_pixels_transparent() {
    assert_eq!(delta_frame(&vec![1, 2, 3], &vec![1, 5, 3], 7), vec![7, 2, 7]);
}

#[test]
fn palette_gets_a_transparent_entry() {
    let (bytes, t) = palette_to_gif_bytes(&vec![(1, 2, 3, 255), (4, 5, 6, 255)]);
    assert_eq!(bytes, vec![1, 2, 3, 4, 5, 6, 0, 0, 0]);
    assert_eq!(t, Some(2));
    let (bytes, t) = palette_to_gif_bytes(&vec![(1, 2, 3, 255), (4, 5, 6, 10), (7, 8, 9, 0)]);
    assert_eq!(bytes, vec![1, 2, 3, 4, 5, 6, 7, 8, 9]);
    assert_eq!(t, Some(1));
}

#[test]
fn encodes_a_looping_gif() {
    let bytes = encode_gif(&two_frame_animation(), 2, 2, 75).expect("encode");
    assert!(bytes.starts_with(b"GIF89a"));
    assert_eq!(&bytes[6..10], &[2, 0, 2, 0]);
    assert_eq!(*bytes.last().unwrap(), 0x3b);
    // The NETSCAPE2.0 loop extension is present.
    assert!(bytes.windows(11).any(|w| w == b"NETSCAPE2.0"));
}

#[test]
fn encode_errors() {
    match encode_gif(&vec![], 2, 2, 75) {
        Err(Error::EncodeError(m)) => assert_eq!(m, "cannot encode GIF with zero frames"),
        other => panic!("{other:?}"),
    }
    match encode_gif(&two_frame_animation(), 0, 2, 75) {
        Err(Error::EncodeError(m)) => assert_eq!(m, "invalid GIF dimensions: 0x2"),
        other => panic!("{other:?}"),
    }
    match encode_gif(&two_frame_animation(), 70000, 1, 75) {
        Err(Error::EncodeError(m)) => assert_eq!(m, "invalid GIF dimensions: 70000x1"),
        other => panic!("{other:?}"),
    }
    let bad = vec![(solid(2, 2, [1, 1, 1, 255]), 100), (vec![1, 2, 3], 100)];
    match encode_gif(&bad, 2, 2, 75) {
        Err(Error::EncodeError(m)) => assert_eq!(m, "invalid RGBA length for GIF frame: got 3, expected 16"),
        other => panic!("{other:?}"),
    }
}

#[test]
fn per_frame_palette_gif() {
    let bytes = gif_encode::encode_gif(&two_frame_animation(), 2, 2).expect("encode");
    assert!(bytes.starts_with(b"GIF89a"));
    assert_eq!(&bytes[6..10], &[2, 0, 2, 0]);
    assert_eq!(*bytes.last().unwrap(), 0x3b);
    match gif_encode::encode_gif(&vec![], 2, 2) {
        Err(Error::EncodeError(m)) => assert_eq!(m, "cannot encode GIF with zero frames"),
        other => panic!("{other:?}"),
    }
    match gif_encode::encode_gif(&two_frame_animation(), 2, 0) {
        Err(Error::EncodeError(m)) => assert_eq!(m, "invalid GIF dimensions: 2x0"),
        other => panic!("{other:?}"),
    }
}

#[test]
fn decodes_frames_of_an_encoded_gif() {
    let gif = encode_gif(&two_frame_animation(), 2, 2, 100).expect("encode");
    let (frames, w, h) = decode_gif_frames(&gif, None, None).expect("decode");
    assert_eq!((w, h), (2, 2));
    assert_eq!(frames.len(), 2);
    assert_eq!(frames[0].1, 200);
    assert_eq!(frames[1].1, 300);
    assert_eq!(frames[0].0.len(), 16);
    // Red then blue, up to quantization.
    assert!(frames[0].0[0] > 200 && frames[0].0[2] < 50 && frames[0].0[3] == 255);
    assert!(frames[1].0[2] > 200 && frames[1].0[0] < 50);
}

#[test]
fn decode_shrinks_to_minimum_size() {
    let frames = vec![(solid(4, 2, [10, 200, 30, 255]), 100), (solid(4, 2, [200, 10, 30, 255]), 100)];
    let gif = encode_gif(&frames, 4, 2, 100).expect("encode");
    let (decoded, w, h) = decode_gif_frames(&gif, Some(2), None).expect("decode");
    assert_eq!((w, h), (2, 1));
    assert!(decoded.iter().all(|f| f.0.len() == 8));
}

#[test]
fn garbage_is_a_decode_error() {
    match decode_gif_frames(b"definitely not a gif", None, None) {
        Err(Error::DecodeError(m)) => assert!(m.starts_with("gif decode init failed: "), "{m}"),
        other => panic!("{other:?}"),
    }
    match transcode_gif(b"GIF89a", None, None, 75) {
        Err(Error::DecodeError(m)) => assert!(m.starts_with("gif decode init failed: "), "{m}"),
        other => panic!("{other:?}"),
    }
}

#[test]
fn transcodes_a_gif() {
    let gif = encode_gif(&two_frame_animation(), 2, 2, 100).expect("encode");
    let out = transcode_gif(&gif, None, None, 75).expect("transcode");
    assert!(out.starts_with(b"GIF89a"));
    assert_eq!(&out[6..10], &[2, 0, 2, 0]);
    assert_eq!(*out.last().unwrap(), 0x3b);
}

#[test]
fn gif_frames_for_webp_carry_start_times() {
    let gif = encode_gif(&two_frame_animation(), 2, 2, 100).expect("encode");
    let (frames, w, h) = decode_gif_for_webp(&gif).expect("decode");
    assert_eq!((w, h), (2, 2));
    assert_eq!(frames.len(), 2);
    assert_eq!(frames[0].1, 0);
    assert_eq!(frames[1].1, 200);
    assert_eq!(frames[0].0.len(), 16);
    match decode_gif_for_webp(b"not a gif") {
        Err(Error::DecodeError(_)) => {}
        other => panic!("{other:?}"),
    }
}

#[test]
fn changed_region_frames_redraw_the_whole_frame() {
    // The second frame changes one pixel; it is stored as a small region,
    // and drawing it over the first frame gives the second frame back.
    let red = [255u8, 0, 0, 255];
    let blue = [0u8, 0, 255, 255];
    let first = red.repeat(4);
    let mut second = red.repeat(4);
    second[12..16].copy_from_slice(&blue);
    let gif = encode_gif(&vec![(first, 100), (second, 100)], 2, 2, 100).expect("encode");
    let (frames, _, _) = decode_gif_for_webp(&gif).expect("decode");
    assert_eq!(frames.len(), 2);
    let close = |p: &[u8], q: [u8; 4]| p.iter().zip(q.iter()).all(|(a, b)| (*a as i32 - *b as i32).abs() <= 8);
    for k in 0..4 {
        assert!(close(&frames[0].0[4 * k..4 * k + 4], red));
    }
    for k in 0..3 {
        assert!(close(&frames[1].0[4 * k..4 * k + 4], red));
    }
    assert!(close(&frames[1].0[12..16], blue));
    // The stored region of the second frame is the single changed pixel.
    let (raw, _, _) = decode_gif_frames(&gif, None, None).expect("decode");
    assert_eq!(raw[1].0.len(), 4);
}

#[test]
fn quality_reaches_the_encoder() {
    // A gradient needs more colours than low quality allows.
    let mut pixels = Vec::new();
    for i in 0..256u32 {
        pixels.extend_from_slice(&[i as u8, (255 - i) as u8, (i * 7 % 256) as u8, 255]);
    }
    let frames = vec![(pixels, 100)];
    let high = encode_gif(&frames, 16, 16, 100).expect("encode");
    let low = encode_gif(&frames, 16, 16, 10).expect("encode");
    assert!(high.starts_with(b"GIF89a") && low.starts_with(b"GIF89a"));
    // The global colour table size (in the screen descriptor flags) follows the colour budget.
    assert!(low[10] & 0x07 <= high[10] & 0x07);
    assert_ne!(high, low);
}

#[test]
fn header_without_global_palette_has_two_black_entries() {
    let bytes = gif_encode::encode_gif(&two_frame_animation(), 2, 2).expect("encode");
    assert_eq!(&bytes[0..13], &[0x47, 0x49, 0x46, 0x38, 0x39, 0x61, 2, 0, 2, 0, 0x80, 0, 0]);
    assert_eq!(&bytes[13..19], &[0u8; 6]);
}
