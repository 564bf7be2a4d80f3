use vstd::prelude::*;
use crate::encode::{frames_match, merge_fits_i32, spec_merge_frames};

verus! {

/// Merge frames so that every output frame has at least 100 ms of delay.
/// When several input frames fall within one window only the last one is
/// kept, and its delay becomes the accumulated total, preserving the
/// animation's total duration.
///
/// The minimum delay works around renderers that draw animated WebP frames
/// with very short delays incorrectly.
pub fn merge_frames_min_delay(frames: Vec<(Vec<u8>, i32)>) -> (res: Vec<(Vec<u8>, i32)>)
    requires
        merge_fits_i32(frames@),
    ensures
        frames_match(res@, spec_merge_frames(frames@)),
{
    crate::encode::merge_frames_min_delay(frames)
}

/// Sum of the first `n` delays.
pub open spec fn delay_prefix_sum(delays: Seq<i32>, n: int) -> int
    decreases n,
{
    if n <= 0 || n > delays.len() {
        0
    } else {
        delay_prefix_sum(delays, n - 1) + delays[n - 1] as int
    }
}

/// Every running total of the delays, the full one included, fits in `i32`.
pub open spec fn timestamps_fit(delays: Seq<i32>) -> bool {
    forall|n: int| 0 <= n <= delays.len() ==> i32::MIN <= #[trigger] delay_prefix_sum(delays, n) <= i32::MAX
}

/// Presentation timestamps of consecutive animation frames: frame `k` starts
/// at the sum of the delays of the frames before it. `None` when a running
/// total, the full one included, leaves the range of `i32`.
pub fn frame_timestamps(delays: &Vec<i32>) -> (res: Option<Vec<i32>>)
    ensures
        res is Some <==> timestamps_fit(delays@),
        res matches Some(ts) ==> ts@.len() == delays@.len()
            && forall|k: int| 0 <= k < ts@.len() ==> #[trigger] ts@[k] as int == delay_prefix_sum(delays@, k),
{
    let mut out: Vec<i32> = Vec::new();
    let mut ts: i64 = 0;
    let mut i: usize = 0;
    while i < delays.len()
        invariant
            i <= delays@.len(),
            out@.len() == i,
            ts as int == delay_prefix_sum(delays@, i as int),
            forall|n: int| 0 <= n <= i ==> i32::MIN <= #[trigger] delay_prefix_sum(delays@, n) <= i32::MAX,
            forall|k: int| 0 <= k < out@.len() ==> #[trigger] out@[k] as int == delay_prefix_sum(delays@, k),
        decreases delays@.len() - i,
    {
        out.push(ts as i32);
        assert(delay_prefix_sum(delays@, i + 1) == delay_prefix_sum(delays@, i as int) + delays@[i as int]);
        ts = ts + delays[i] as i64;
        if ts < -2147483648 || ts > 2147483647 {
            assert(!(i32::MIN <= delay_prefix_sum(delays@, i + 1) <= i32::MAX));
            return None;
        }
        i = i + 1;
    }
    Some(out)
}

} // verus!
