use media_compress::dimensions::compute_target_dimensions;

#[test]
fn only_shrink_never_upscale() {
    assert_eq!(
        compute_target_dimensions(800, 600, Some(1200), Some(1000)),
        (800, 600)
    );
}

#[test]
fn min_width_keeps_aspect_ratio() {
    assert_eq!(
        compute_target_dimensions(4000, 2000, Some(1000), None),
        (1000, 500)
    );
}

#[test]
fn min_height_keeps_aspect_ratio() {
    assert_eq!(
        compute_target_dimensions(3000, 2000, None, Some(800)),
        (1200, 800)
    );
}

#[test]
fn both_mins_choose_stricter_scale() {
    assert_eq!(
        compute_target_dimensions(4000, 3000, Some(1000), Some(1200)),
        (1600, 1200)
    );
}

#[test]
fn no_minimum_keeps_source_size() {
    assert_eq!(compute_target_dimensions(5000, 4000, None, None), (5000, 4000));
}

#[test]
fn zero_source_is_returned_as_is() {
    assert_eq!(compute_target_dimensions(0, 600, Some(100), None), (0, 600));
    assert_eq!(compute_target_dimensions(600, 0, None, Some(100)), (600, 0));
}

#[test]
fn scaled_size_rounds_up_and_stays_positive() {
    // 1000 / 3000 = 1/3 of 1001 is 333.67, rounded up to 334.
    assert_eq!(compute_target_dimensions(3000, 1001, Some(1000), None), (1000, 334));
    assert_eq!(compute_target_dimensions(10000, 1, Some(1), None), (1, 1));
}

#[test]
fn target_meets_minimums_within_source() {
    for &(w, h, mw, mh) in &[(4000u32, 3000u32, 1080u32, 1080u32), (1920, 1080, 1080, 1080), (7, 5, 3, 2)] {
        let (tw, th) = compute_target_dimensions(w, h, Some(mw), Some(mh));
        assert!(tw <= w && th <= h);
        assert!(tw >= mw.min(w) && th >= mh.min(h));
        assert!(tw >= 1 && th >= 1);
    }
}
