use media_compress::encode::{merge_fits, merge_frames_min_delay, MIN_FRAME_DELAY_MS};
use media_compress::gif_to_webp::delay_ms_from_ratio;
use media_compress::webp_encode::{self, frame_timestamps};

fn frames(delays: &[i32]) -> Vec<(Vec<u8>, i32)> {
    delays.iter().enumerate().map(|(i, &d)| (vec![i as u8], d)).collect()
}

fn shape(out: &[(Vec<u8>, i32)]) -> Vec<(u8, i32)> {
    out.iter().map(|(p, d)| (p[0], *d)).collect()
}

#[test]
fn empty_animation_stays_empty() {
    assert!(merge_frames_min_delay(Vec::new()).is_empty());
}

#[test]
fn short_animation_raises_each_delay() {
    let out = merge_frames_min_delay(frames(&[20, 150, -5]));
    assert_eq!(shape(&out), vec![(0, 100), (1, 150), (2, 100)]);
}

#[test]
fn long_animation_merges_windows() {
    let out = merge_frames_min_delay(frames(&[30, 30, 50, 20, 100]));
    assert_eq!(shape(&out), vec![(2, 110), (4, 120)]);
}

#[test]
fn leftover_delay_goes_to_last_frame() {
    let out = merge_frames_min_delay(frames(&[50, 50, 50, 50, 30]));
    assert_eq!(shape(&out), vec![(1, 100), (3, 130)]);
    // Total duration is kept.
    assert_eq!(out.iter().map(|f| f.1).sum::<i32>(), 230);
}

#[test]
fn all_short_frames_become_one() {
    let out = merge_frames_min_delay(frames(&[10, 10, 10, 10]));
    assert_eq!(shape(&out), vec![(3, MIN_FRAME_DELAY_MS)]);
}

#[test]
fn negative_delays_count_as_zero() {
    let out = merge_frames_min_delay(frames(&[-100, 60, -1, 40]));
    assert_eq!(shape(&out), vec![(3, 100)]);
}

#[test]
fn every_merged_delay_is_at_least_minimum() {
    let out = merge_frames_min_delay(frames(&[1, 2, 3, 4, 5, 6, 7, 8, 90, 250, 0, 0, 99, 1]));
    assert!(out.iter().all(|f| f.1 >= 100));
    // Kept frames appear in their original order.
    let order: Vec<u8> = out.iter().map(|f| f.0[0]).collect();
    let mut sorted = order.clone();
    sorted.sort();
    assert_eq!(order, sorted);
}

#[test]
fn webp_merge_is_the_same_merge() {
    let a = merge_frames_min_delay(frames(&[30, 30, 50, 20, 100]));
    let b = webp_encode::merge_frames_min_delay(frames(&[30, 30, 50, 20, 100]));
    assert_eq!(a, b);
}

#[test]
fn merge_fits_detects_overflowing_windows() {
    assert!(merge_fits(&frames(&[30, 30, 50, 20, 100])));
    assert!(merge_fits(&frames(&[i32::MAX, i32::MAX, i32::MAX])));
    assert!(merge_fits(&frames(&[i32::MAX, i32::MAX, i32::MAX, i32::MAX])));
    assert!(!merge_fits(&frames(&[50, i32::MAX, 1, 1])));
    assert!(!merge_fits(&frames(&[200, 200, i32::MAX, 50])));
}

#[test]
fn timestamps_are_running_sums() {
    assert_eq!(frame_timestamps(&vec![100, 200, 300]), Some(vec![0, 100, 300]));
    assert_eq!(frame_timestamps(&vec![]), Some(vec![]));
    assert_eq!(frame_timestamps(&vec![i32::MAX, 1]), None);
}

#[test]
fn delay_from_ratio() {
    assert_eq!(delay_ms_from_ratio(1000, 10), 100);
    assert_eq!(delay_ms_from_ratio(70, 1), 70);
    assert_eq!(delay_ms_from_ratio(5, 0), 100);
    assert_eq!(delay_ms_from_ratio(u32::MAX, 1), -1);
}

#[test]
fn merging_twice_changes_nothing() {
    for delays in [&[30, 30, 50, 20, 100][..], &[50, 50, 50, 50, 30], &[10, 10, 10, 10], &[20, 150], &[1, 2, 3, 4, 5, 6, 7, 8, 90, 250]] {
        let once = merge_frames_min_delay(frames(delays));
        let twice = merge_frames_min_delay(once.clone());
        assert_eq!(once, twice);
    }
}
