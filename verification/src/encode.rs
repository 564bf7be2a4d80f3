use vstd::prelude::*;

verus! {

/// Minimum per-frame delay, in milliseconds, of a merged animation.
pub const MIN_FRAME_DELAY_MS: i32 = 100;

pub open spec fn max_int(a: int, b: int) -> int {
    if a >= b { a } else { b }
}

/// State of the merge after a prefix of the frames: the frames emitted so
/// far, the delay accumulated since the last emitted frame, and the latest
/// frame not yet emitted.
pub type MergeState = (Seq<(Vec<u8>, int)>, int, Option<Vec<u8>>);

pub open spec fn merge_step(s: MergeState, f: (Vec<u8>, i32)) -> MergeState {
    let acc = s.1 + max_int(f.1 as int, 0);
    if acc >= 100 {
        (s.0.push((f.0, acc)), 0, None)
    } else {
        (s.0, acc, Some(f.0))
    }
}

pub open spec fn merge_prefix(frames: Seq<(Vec<u8>, i32)>, n: nat) -> MergeState
    decreases n,
{
    if n == 0 || n > frames.len() {
        (Seq::empty(), 0, None)
    } else {
        merge_step(merge_prefix(frames, (n - 1) as nat), frames[n - 1])
    }
}

/// Frames left over at the end give their delay to the last emitted frame;
/// when nothing was emitted, the last frame is emitted with at least the
/// minimum delay.
pub open spec fn merge_finish(s: MergeState) -> Seq<(Vec<u8>, int)> {
    match s.2 {
        Some(p) => if s.0.len() > 0 {
            let last = s.0.last();
            s.0.update(s.0.len() - 1, (last.0, last.1 + s.1))
        } else {
            seq![(p, max_int(s.1, 100))]
        },
        None => s.0,
    }
}

/// Merging frames so that every output frame lasts at least 100 ms.
///
/// Up to three frames are kept one for one, each delay raised to 100 ms.
/// Longer animations are cut into consecutive windows that each reach 100 ms
/// (negative delays count as 0); a window is emitted as its last frame with
/// the window's total delay.
pub open spec fn spec_merge_frames(frames: Seq<(Vec<u8>, i32)>) -> Seq<(Vec<u8>, int)> {
    if frames.len() == 0 {
        Seq::empty()
    } else if frames.len() <= 3 {
        frames.map_values(|f: (Vec<u8>, i32)| (f.0, max_int(f.1 as int, 100)))
    } else {
        merge_finish(merge_prefix(frames, frames.len()))
    }
}

/// The executable frames carry exactly the merged frames and delays.
pub open spec fn frames_match(out: Seq<(Vec<u8>, i32)>, spec: Seq<(Vec<u8>, int)>) -> bool {
    out.len() == spec.len() && forall|k: int| 0 <= k < out.len() ==> #[trigger] out[k].0 == spec[k].0
        && out[k].1 as int == spec[k].1
}

/// No merged delay exceeds the range of `i32`.
pub open spec fn merge_fits_i32(frames: Seq<(Vec<u8>, i32)>) -> bool {
    forall|k: int| 0 <= k < spec_merge_frames(frames).len() ==> #[trigger] spec_merge_frames(frames)[k].1 <= i32::MAX
}

proof fn lemma_prefix_acc_small(frames: Seq<(Vec<u8>, i32)>, n: nat)
    requires
        n <= frames.len(),
    ensures
        0 <= merge_prefix(frames, n).1 < 100,
        merge_prefix(frames, n).2 is None ==> merge_prefix(frames, n).1 == 0,
        n > 0 ==> merge_prefix(frames, n).2 is Some || merge_prefix(frames, n).0.len() > 0,
        forall|k: int| 0 <= k < merge_prefix(frames, n).0.len() ==> #[trigger] merge_prefix(frames, n).0[k].1 >= 100,
    decreases n,
{
    if n > 0 {
        lemma_prefix_acc_small(frames, (n - 1) as nat);
    }
}

/// Emitted frames are never changed by later steps.
proof fn lemma_prefix_stable(frames: Seq<(Vec<u8>, i32)>, n: nat, m: nat)
    requires
        n <= m <= frames.len(),
    ensures
        merge_prefix(frames, n).0.len() <= merge_prefix(frames, m).0.len(),
        forall|k: int| 0 <= k < merge_prefix(frames, n).0.len() ==>
            #[trigger] merge_prefix(frames, m).0[k] == merge_prefix(frames, n).0[k],
    decreases m - n,
{
    if n < m {
        lemma_prefix_stable(frames, n, (m - 1) as nat);
        let prev = merge_prefix(frames, (m - 1) as nat);
        assert(merge_prefix(frames, m) == merge_step(prev, frames[m - 1]));
    }
}

/// The final delay of every emitted frame is at least its delay when emitted.
proof fn lemma_emitted_bounded(frames: Seq<(Vec<u8>, i32)>, n: nat, k: int)
    requires
        frames.len() > 3,
        n <= frames.len(),
        0 <= k < merge_prefix(frames, n).0.len(),
    ensures
        k < spec_merge_frames(frames).len(),
        spec_merge_frames(frames)[k].0 == merge_prefix(frames, n).0[k].0,
        spec_merge_frames(frames)[k].1 >= merge_prefix(frames, n).0[k].1,
{
    let len = frames.len();
    lemma_prefix_stable(frames, n, len);
    lemma_prefix_acc_small(frames, len);
}


/// Sum of the delays of a sequence of frames.
pub open spec fn delay_total(frames: Seq<(Vec<u8>, int)>) -> int
    decreases frames.len(),
{
    if frames.len() == 0 {
        0
    } else {
        delay_total(frames.drop_last()) + frames.last().1
    }
}

/// Sum of the non-negative delays of the first `n` input frames.
pub open spec fn positive_total(frames: Seq<(Vec<u8>, i32)>, n: nat) -> int
    decreases n,
{
    if n == 0 || n > frames.len() {
        0
    } else {
        positive_total(frames, (n - 1) as nat) + max_int(frames[n - 1].1 as int, 0)
    }
}

proof fn lemma_prefix_total(frames: Seq<(Vec<u8>, i32)>, n: nat)
    requires
        n <= frames.len(),
    ensures
        delay_total(merge_prefix(frames, n).0) + merge_prefix(frames, n).1 == positive_total(frames, n),
    decreases n,
{
    if n > 0 {
        lemma_prefix_total(frames, (n - 1) as nat);
        let prev = merge_prefix(frames, (n - 1) as nat);
        let acc = prev.1 + max_int(frames[n - 1].1 as int, 0);
        if acc >= 100 {
            let f = frames[n - 1];
            assert(prev.0.push((f.0, acc)).drop_last() =~= prev.0);
        }
    }
}

proof fn lemma_total_update_last(s: Seq<(Vec<u8>, int)>, extra: int)
    requires
        s.len() > 0,
    ensures
        delay_total(s.update(s.len() - 1, (s.last().0, s.last().1 + extra))) == delay_total(s) + extra,
{
    let t = s.update(s.len() - 1, (s.last().0, s.last().1 + extra));
    assert(t.drop_last() =~= s.drop_last());
}

/// Whether every merged delay fits in `i32`: the merge is replayed with
/// 64-bit sums.
pub fn merge_fits(frames: &Vec<(Vec<u8>, i32)>) -> (res: bool)
    ensures
        res == merge_fits_i32(frames@),
{
    let n = frames.len();
    if n <= 3 {
        return true;
    }
    let ghost fs = frames@;
    let mut acc: i64 = 0;
    let mut emitted: bool = false;
    let mut last: i64 = 0;
    let mut ok: bool = true;
    let mut pending: bool = false;
    let mut i: usize = 0;
    while i < n
        invariant
            fs == frames@,
            n == fs.len(),
            n > 3,
            i <= n,
            acc == merge_prefix(fs, i as nat).1,
            pending == merge_prefix(fs, i as nat).2 is Some,
            emitted == (merge_prefix(fs, i as nat).0.len() > 0),
            emitted ==> last == merge_prefix(fs, i as nat).0.last().1,
            ok == (forall|k: int| 0 <= k < merge_prefix(fs, i as nat).0.len()
                ==> #[trigger] merge_prefix(fs, i as nat).0[k].1 <= i32::MAX),
        decreases n - i,
    {
        proof {
            lemma_prefix_acc_small(fs, i as nat);
        }
        let ghost prev = merge_prefix(fs, i as nat);
        let d = frames[i].1;
        let step: i64 = if d > 0 { d as i64 } else { 0 };
        acc = acc + step;
        pending = true;
        assert(merge_prefix(fs, (i + 1) as nat) == merge_step(prev, fs[i as int]));
        if acc >= 100 {
            let ghost next = merge_prefix(fs, (i + 1) as nat);
            assert(next.0 == prev.0.push((fs[i as int].0, acc as int)));
            assert(ok && acc <= i32::MAX <==> (forall|k: int| 0 <= k < next.0.len() ==> #[trigger] next.0[k].1 <= i32::MAX)) by {
                if ok && acc <= i32::MAX {
                    assert forall|k: int| 0 <= k < next.0.len() implies #[trigger] next.0[k].1 <= i32::MAX by {
                        if k < prev.0.len() {
                            assert(next.0[k] == prev.0[k]);
                        }
                    }
                }
                if forall|k: int| 0 <= k < next.0.len() ==> #[trigger] next.0[k].1 <= i32::MAX {
                    assert(next.0[prev.0.len() as int].1 <= i32::MAX);
                    assert forall|k: int| 0 <= k < prev.0.len() implies #[trigger] prev.0[k].1 <= i32::MAX by {
                        assert(next.0[k] == prev.0[k]);
                    }
                }
            }
            if acc > 2147483647 {
                ok = false;
            }
            last = acc;
            emitted = true;
            acc = 0;
            pending = false;
        } else {
            assert(merge_prefix(fs, (i + 1) as nat).0 == prev.0);
        }
        i = i + 1;
    }
    proof {
        lemma_prefix_acc_small(fs, n as nat);
    }
    let ghost fin = merge_prefix(fs, n as nat);
    let ghost out = spec_merge_frames(fs);
    assert(out == merge_finish(fin));
    if pending && emitted {
        let res = ok && last + acc <= 2147483647;
        proof {
            let j = fin.0.len() - 1;
            assert(out == fin.0.update(j, (fin.0[j].0, fin.0[j].1 + fin.1)));
            if res {
                assert forall|k: int| 0 <= k < out.len() implies #[trigger] out[k].1 <= i32::MAX by {
                    if k != j {
                        assert(out[k] == fin.0[k]);
                    }
                }
            }
            if merge_fits_i32(fs) {
                assert(out[j].1 <= i32::MAX);
                assert forall|k: int| 0 <= k < fin.0.len() implies #[trigger] fin.0[k].1 <= i32::MAX by {
                    if k != j {
                        assert(out[k] == fin.0[k]);
                    } else {
                        assert(out[j].1 == fin.0[j].1 + fin.1);
                    }
                }
            }
        }
        res
    } else {
        proof {
            if !pending {
                assert(out == fin.0);
            } else {
                assert(out =~= seq![(fin.2->Some_0, max_int(fin.1, 100))]);
                assert(out[0].1 <= i32::MAX);
                assert(fin.0.len() == 0);
            }
        }
        ok
    }
}

/// Every merged frame lasts at least 100 ms.
pub proof fn lemma_merged_delays_at_least_min(frames: Seq<(Vec<u8>, i32)>)
    ensures
        forall|k: int| 0 <= k < spec_merge_frames(frames).len() ==> #[trigger] spec_merge_frames(frames)[k].1 >= 100,
{
    if frames.len() > 3 {
        lemma_prefix_acc_small(frames, frames.len());
    }
}

/// Animations of at most three frames keep every frame, in order.
pub proof fn lemma_short_animation_keeps_frames(frames: Seq<(Vec<u8>, i32)>)
    requires
        frames.len() <= 3,
    ensures
        spec_merge_frames(frames).len() == frames.len(),
        forall|k: int| 0 <= k < frames.len() ==> #[trigger] spec_merge_frames(frames)[k].0 == frames[k].0,
{
}

/// Merging an animation of more than three frames keeps its total duration
/// (negative delays counted as 0), unless that total is under 100 ms, in
/// which case the result lasts exactly 100 ms.
pub proof fn lemma_merge_preserves_duration(frames: Seq<(Vec<u8>, i32)>)
    requires
        frames.len() > 3,
    ensures
        delay_total(spec_merge_frames(frames)) == max_int(positive_total(frames, frames.len()), 100),
{
    let n = frames.len();
    lemma_prefix_total(frames, n);
    lemma_prefix_acc_small(frames, n);
    let fin = merge_prefix(frames, n);
    match fin.2 {
        Some(p) => {
            if fin.0.len() > 0 {
                lemma_total_update_last(fin.0, fin.1);
                lemma_total_at_least_min(fin.0);
            } else {
                let single = seq![(p, max_int(fin.1, 100))];
                assert(single.drop_last() =~= Seq::<(Vec<u8>, int)>::empty());
                assert(delay_total(single) == delay_total(single.drop_last()) + single.last().1);
            }
        },
        None => {
            if fin.0.len() > 0 {
                lemma_total_at_least_min(fin.0);
            }
        },
    }
}

proof fn lemma_total_at_least_min(s: Seq<(Vec<u8>, int)>)
    requires
        s.len() > 0,
        forall|k: int| 0 <= k < s.len() ==> #[trigger] s[k].1 >= 100,
    ensures
        delay_total(s) >= 100,
{
    assert forall|k: int| 0 <= k < s.drop_last().len() implies #[trigger] s.drop_last()[k].1 >= 0 by {
        assert(s.drop_last()[k] == s[k]);
    }
    lemma_total_nonneg(s.drop_last());
    assert(s.last().1 >= 100);
}

proof fn lemma_total_nonneg(s: Seq<(Vec<u8>, int)>)
    requires
        forall|k: int| 0 <= k < s.len() ==> #[trigger] s[k].1 >= 0,
    ensures
        delay_total(s) >= 0,
    decreases s.len(),
{
    if s.len() > 0 {
        assert forall|k: int| 0 <= k < s.drop_last().len() implies #[trigger] s.drop_last()[k].1 >= 0 by {
            assert(s.drop_last()[k] == s[k]);
        }
        lemma_total_nonneg(s.drop_last());
    }
}


/// `out` is a selection of the input frames, in input order.
pub open spec fn selects_in_order(frames: Seq<(Vec<u8>, i32)>, out: Seq<(Vec<u8>, int)>, idx: Seq<int>) -> bool {
    &&& idx.len() == out.len()
    &&& forall|k: int| 0 <= k < idx.len() ==> 0 <= #[trigger] idx[k] < frames.len() && out[k].0 == frames[idx[k]].0
    &&& forall|k: int, l: int| 0 <= k < l < idx.len() ==> idx[k] < idx[l]
}

/// Input positions of the frames emitted after the first `n` steps.
pub open spec fn emitted_positions(frames: Seq<(Vec<u8>, i32)>, n: nat) -> Seq<int>
    decreases n,
{
    if n == 0 || n > frames.len() {
        Seq::empty()
    } else {
        let prev = emitted_positions(frames, (n - 1) as nat);
        if merge_prefix(frames, (n - 1) as nat).1 + max_int(frames[n - 1].1 as int, 0) >= 100 {
            prev.push(n - 1)
        } else {
            prev
        }
    }
}

proof fn lemma_emitted_positions(frames: Seq<(Vec<u8>, i32)>, n: nat)
    requires
        n <= frames.len(),
    ensures
        selects_in_order(frames, merge_prefix(frames, n).0, emitted_positions(frames, n)),
        forall|k: int| 0 <= k < emitted_positions(frames, n).len() ==> #[trigger] emitted_positions(frames, n)[k] < n,
        merge_prefix(frames, n).2 matches Some(p) ==> n > 0 && p == frames[n - 1].0,
    decreases n,
{
    if n > 0 {
        lemma_emitted_positions(frames, (n - 1) as nat);
    }
}

/// Every merged frame is one of the input frames, and they keep their
/// input order.
pub proof fn lemma_merged_frames_in_order(frames: Seq<(Vec<u8>, i32)>)
    ensures
        exists|idx: Seq<int>| selects_in_order(frames, spec_merge_frames(frames), idx),
{
    let out = spec_merge_frames(frames);
    if frames.len() == 0 {
        assert(selects_in_order(frames, out, Seq::empty()));
    } else if frames.len() <= 3 {
        let idx = Seq::new(frames.len(), |i: int| i);
        assert(selects_in_order(frames, out, idx));
    } else {
        let n = frames.len();
        lemma_emitted_positions(frames, n);
        let fin = merge_prefix(frames, n);
        let pos = emitted_positions(frames, n);
        match fin.2 {
            Some(p) => {
                if fin.0.len() > 0 {
                    assert(selects_in_order(frames, out, pos));
                } else {
                    let idx = seq![n - 1];
                    assert(selects_in_order(frames, out, idx));
                }
            },
            None => {
                assert(selects_in_order(frames, out, pos));
            },
        }
    }
}

/// Merge frames so that every output frame has at least 100 ms of delay.
/// When several input frames fall within one window only the last one is
/// kept, and its delay becomes the window's total.
pub fn merge_frames_min_delay(frames: Vec<(Vec<u8>, i32)>) -> (res: Vec<(Vec<u8>, i32)>)
    requires
        merge_fits_i32(frames@),
    ensures
        frames_match(res@, spec_merge_frames(frames@)),
{
    let ghost input = frames@;
    if frames.len() == 0 {
        return frames;
    }
    if frames.len() <= 3 {
        let mut out: Vec<(Vec<u8>, i32)> = Vec::new();
        for f in it: frames.into_iter()
            invariant
                it.seq() == input,
                out@.len() == it.index(),
                input.len() <= 3,
                forall|k: int| 0 <= k < out@.len() ==> #[trigger] out@[k].0 == input[k].0
                    && out@[k].1 as int == max_int(input[k].1 as int, 100),
        {
            let (pixels, delay) = f;
            let d = if delay > MIN_FRAME_DELAY_MS { delay } else { MIN_FRAME_DELAY_MS };
            out.push((pixels, d));
        }
        return out;
    }
    let mut result: Vec<(Vec<u8>, i32)> = Vec::new();
    let mut accumulated: i32 = 0;
    let mut pending: Option<Vec<u8>> = None;
    for f in it: frames.into_iter()
        invariant
            it.seq() == input,
            input.len() > 3,
            merge_fits_i32(input),
            frames_match(result@, merge_prefix(input, it.index() as nat).0),
            accumulated as int == merge_prefix(input, it.index() as nat).1,
            pending == merge_prefix(input, it.index() as nat).2,
    {
        let ghost i = it.index();
        proof {
            lemma_prefix_acc_small(input, i as nat);
        }
        let (pixels, delay) = f;
        let positive = if delay > 0 { delay } else { 0 };
        let ghost next = merge_prefix(input, (i + 1) as nat);
        assert(next == merge_step(merge_prefix(input, i as nat), input[i]));
        if accumulated as i64 + positive as i64 >= MIN_FRAME_DELAY_MS as i64 {
            proof {
                lemma_emitted_bounded(input, (i + 1) as nat, next.0.len() - 1);
            }
            accumulated = accumulated + positive;
            result.push((pixels, accumulated));
            accumulated = 0;
            pending = None;
        } else {
            accumulated = accumulated + positive;
            pending = Some(pixels);
        }
    }
    let ghost fin = merge_prefix(input, input.len());
    proof {
        lemma_prefix_acc_small(input, input.len());
    }
    if let Some(pixels) = pending {
        if result.len() > 0 {
            let (last_pixels, last_delay) = result.pop().unwrap();
            proof {
                let spec = spec_merge_frames(input);
                assert(spec[spec.len() - 1].1 <= i32::MAX);
            }
            result.push((last_pixels, last_delay + accumulated));
        } else {
            let d = if accumulated > MIN_FRAME_DELAY_MS { accumulated } else { MIN_FRAME_DELAY_MS };
            result.push((pixels, d));
        }
    }
    proof {
        assert(frames_match(result@, spec_merge_frames(input)));
    }
    result
}

/// Merged frames with their delays back in `i32`.
pub open spec fn as_i32_frames(frames: Seq<(Vec<u8>, int)>) -> Seq<(Vec<u8>, i32)> {
    frames.map_values(|f: (Vec<u8>, int)| (f.0, f.1 as i32))
}

proof fn lemma_prefix_all_long(frames: Seq<(Vec<u8>, i32)>, n: nat)
    requires
        n <= frames.len(),
        forall|k: int| 0 <= k < frames.len() ==> #[trigger] frames[k].1 >= 100,
    ensures
        merge_prefix(frames, n) == (Seq::new(n, |k: int| (frames[k].0, frames[k].1 as int)), 0int, None::<Vec<u8>>),
    decreases n,
{
    if n > 0 {
        lemma_prefix_all_long(frames, (n - 1) as nat);
        let prev = merge_prefix(frames, (n - 1) as nat);
        assert(frames[n - 1].1 >= 100);
        assert(prev.0.push((frames[n - 1].0, frames[n - 1].1 as int))
            =~= Seq::new(n, |k: int| (frames[k].0, frames[k].1 as int)));
    }
}

/// Merging frames that were already merged changes nothing (when the merged
/// delays fit in `i32`, as they must for the merge to run).
pub proof fn lemma_merge_idempotent(frames: Seq<(Vec<u8>, i32)>)
    requires
        merge_fits_i32(frames),
    ensures
        spec_merge_frames(as_i32_frames(spec_merge_frames(frames))) == spec_merge_frames(frames),
{
    let out = spec_merge_frames(frames);
    lemma_merged_delays_at_least_min(frames);
    let g = as_i32_frames(out);
    assert forall|k: int| 0 <= k < g.len() implies #[trigger] g[k].1 >= 100 && g[k].1 as int == out[k].1 by {
        assert(out[k].1 >= 100 && out[k].1 <= i32::MAX);
    }
    if g.len() == 0 {
        assert(out =~= Seq::<(Vec<u8>, int)>::empty());
    } else if g.len() <= 3 {
        assert(spec_merge_frames(g) =~= out);
    } else {
        lemma_prefix_all_long(g, g.len());
        assert(spec_merge_frames(g) =~= out);
    }
}

} // verus!
