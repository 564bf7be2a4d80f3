use media_compress::apple::{decoded_frame_to_rgba, frame_orientation, swap_red_blue};
use media_compress::orientation::apply_exif_orientation_rgba;

#[test]
fn orientation_6_swaps_dimensions() {
    // 2x1 RGBA: [A][B]
    let src = vec![
        1, 0, 0, 255, // A
        2, 0, 0, 255, // B
    ];
    let (_out, w, h) = apply_exif_orientation_rgba(src, 2, 1, 6);
    assert_eq!((w, h), (1, 2));
}

fn px(v: u8) -> [u8; 4] {
    [v, v, v, 255]
}

fn image(values: &[u8]) -> Vec<u8> {
    values.iter().flat_map(|&v| px(v)).collect()
}

#[test]
fn orientation_1_leaves_pixels_alone() {
    let src = image(&[1, 2, 3, 4, 5, 6]);
    let (out, w, h) = apply_exif_orientation_rgba(src.clone(), 3, 2, 1);
    assert_eq!((out, w, h), (src, 3, 2));
}

#[test]
fn orientation_2_mirrors_rows() {
    // 3x2:  1 2 3 / 4 5 6
    let (out, w, h) = apply_exif_orientation_rgba(image(&[1, 2, 3, 4, 5, 6]), 3, 2, 2);
    assert_eq!((w, h), (3, 2));
    assert_eq!(out, image(&[3, 2, 1, 6, 5, 4]));
}

#[test]
fn orientation_3_turns_half_way() {
    let (out, w, h) = apply_exif_orientation_rgba(image(&[1, 2, 3, 4, 5, 6]), 3, 2, 3);
    assert_eq!((w, h), (3, 2));
    assert_eq!(out, image(&[6, 5, 4, 3, 2, 1]));
}

#[test]
fn orientation_6_turns_clockwise() {
    // 3x2:  1 2 3 / 4 5 6  ->  2x3: 4 1 / 5 2 / 6 3
    let (out, w, h) = apply_exif_orientation_rgba(image(&[1, 2, 3, 4, 5, 6]), 3, 2, 6);
    assert_eq!((w, h), (2, 3));
    assert_eq!(out, image(&[4, 1, 5, 2, 6, 3]));
}

#[test]
fn orientation_8_undoes_orientation_6() {
    let src = image(&[1, 2, 3, 4, 5, 6]);
    let (once, w, h) = apply_exif_orientation_rgba(src.clone(), 3, 2, 6);
    let (back, w2, h2) = apply_exif_orientation_rgba(once, w, h, 8);
    assert_eq!((back, w2, h2), (src, 3, 2));
}

#[test]
fn every_orientation_has_an_inverse() {
    let src = image(&[1, 2, 3, 4, 5, 6]);
    for o in 1..=8u32 {
        let inverse = match o {
            6 => 8,
            8 => 6,
            other => other,
        };
        let (once, w, h) = apply_exif_orientation_rgba(src.clone(), 3, 2, o);
        let (back, w2, h2) = apply_exif_orientation_rgba(once, w, h, inverse);
        assert_eq!((back, w2, h2), (src.clone(), 3, 2), "orientation {o}");
    }
}

#[test]
fn empty_image_is_left_alone() {
    let (out, w, h) = apply_exif_orientation_rgba(vec![9, 9], 0, 4, 6);
    assert_eq!((out, w, h), (vec![9, 9], 0, 4));
}

#[test]
fn red_and_blue_swap_in_whole_pixels_only() {
    let out = swap_red_blue(vec![1, 2, 3, 4, 5, 6, 7, 8, 9, 10]);
    assert_eq!(out, vec![3, 2, 1, 4, 7, 6, 5, 8, 9, 10]);
}

#[test]
fn frame_orientation_reads_and_clamps() {
    assert_eq!(frame_orientation(None), 1);
    assert_eq!(frame_orientation(Some(6)), 6);
    assert_eq!(frame_orientation(Some(0)), 1);
    assert_eq!(frame_orientation(Some(12)), 8);
    // A negative value read as unsigned is huge, so it clamps to 8.
    assert_eq!(frame_orientation(Some(-1)), 8);
}

#[test]
fn decoded_bgra_frame_becomes_upright_rgba() {
    // 2x1 BGRA: [b=1,g=2,r=3,a=4][b=5,g=6,r=7,a=8], orientation 6.
    let (out, w, h) = decoded_frame_to_rgba(vec![1, 2, 3, 4, 5, 6, 7, 8], 2, 1, 6);
    assert_eq!((w, h), (1, 2));
    assert_eq!(out, vec![3, 2, 1, 4, 7, 6, 5, 8]);
}
