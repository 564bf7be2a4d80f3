use media_compress::resize::resize_rgba_nearest;

#[test]
fn zero_target_gives_nothing() {
    assert!(resize_rgba_nearest(&[1, 2, 3, 4], 1, 1, 0, 3).is_empty());
}

#[test]
fn mismatched_buffer_is_returned_unchanged() {
    let src = vec![1u8, 2, 3];
    assert_eq!(resize_rgba_nearest(&src, 2, 2, 1, 1), src);
}

#[test]
fn same_size_is_a_copy() {
    let src: Vec<u8> = (0..16).collect();
    assert_eq!(resize_rgba_nearest(&src, 2, 2, 2, 2), src);
}

#[test]
fn halving_averages_neighbours() {
    // 2x1 -> 1x1 samples halfway between the two pixels, rounding half up.
    let src = vec![0u8, 10, 20, 255, 255, 20, 21, 255];
    assert_eq!(resize_rgba_nearest(&src, 2, 1, 1, 1), vec![128, 15, 21, 255]);
}

#[test]
fn uniform_image_stays_uniform() {
    let src: Vec<u8> = std::iter::repeat([7u8, 80, 200, 255]).take(5 * 3).flatten().collect();
    let out = resize_rgba_nearest(&src, 5, 3, 2, 2);
    assert_eq!(out, std::iter::repeat([7u8, 80, 200, 255]).take(4).flatten().collect::<Vec<u8>>());
}

#[test]
fn enlarging_edges_clamp_to_border() {
    // 1x1 -> 2x2 repeats the only pixel.
    let out = resize_rgba_nearest(&[9, 8, 7, 6], 1, 1, 2, 2);
    assert_eq!(out, [9u8, 8, 7, 6].repeat(4));
}

#[test]
fn four_to_two_weights_samples() {
    // 4x1 -> 2x1: samples at 0.5 and 2.5.
    let src = vec![0u8, 0, 0, 0, 100, 100, 100, 100, 200, 200, 200, 200, 255, 255, 255, 255];
    let out = resize_rgba_nearest(&src, 4, 1, 2, 1);
    assert_eq!(out, vec![50, 50, 50, 50, 228, 228, 228, 228]);
}
