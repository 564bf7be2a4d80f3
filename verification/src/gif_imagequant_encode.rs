use vstd::prelude::*;
use crate::error::Error;
use crate::gif_writer::{
    gif_encoder_new, gif_error_text, gif_finish, gif_frame_block, gif_header, gif_set_repeat, gif_trailer,
    gif_write_frame, gif_written, io_error_text, netscape_loop_block,
};
use crate::grid::{cell, lemma_cell_in_bounds};
use crate::quantize::{
    iq_error_text, iq_hist_source, iq_histogram_add_image, iq_histogram_new, iq_histogram_quantize, iq_image_rgba,
    iq_image_counted, iq_image_size, iq_new, iq_new_image, iq_palette, iq_palette_of, iq_remap_of, iq_remapped,
    iq_result_dither, iq_result_remapped, iq_result_source, iq_set_dithering_level, iq_set_max_colors, iq_set_quality,
    iq_set_speed, iq_settings, IqSettings, IqSource,
};
use crate::text::{decimal, spec_decimal};

verus! {

/// GIF frame delays are in hundredths of a second; delays under 10 ms are
/// raised to 10 ms first.
pub open spec fn spec_delay_to_centiseconds(delay_ms: i32) -> u16 {
    ((if delay_ms >= 10 { delay_ms as int } else { 10 }) / 10) as u16
}

pub fn delay_to_centiseconds(delay_ms: i32) -> (res: u16)
    ensures
        res == spec_delay_to_centiseconds(delay_ms),
{
    let d: i32 = if delay_ms >= 10 { delay_ms } else { 10 };
    (d / 10) as u16
}

/// A pixel of a `w`-wide grid is marked when `a` and `b` differ there
/// (`diff`), or when `a` holds anything but `t` there (otherwise).
pub open spec fn marked(a: Seq<u8>, b: Seq<u8>, t: u8, diff: bool, w: int, x: int, y: int) -> bool {
    if diff {
        a[cell(x, y, w)] != b[cell(x, y, w)]
    } else {
        a[cell(x, y, w)] != t
    }
}

pub open spec fn any_marked(a: Seq<u8>, b: Seq<u8>, t: u8, diff: bool, w: int, h: int) -> bool {
    exists|x: int, y: int| 0 <= x < w && 0 <= y < h && #[trigger] marked(a, b, t, diff, w, x, y)
}

/// `(min_x, min_y, max_x, max_y)` is the smallest box holding every marked
/// pixel: it holds them all and a marked pixel lies on each of its edges.
pub open spec fn is_tight_box(a: Seq<u8>, b: Seq<u8>, t: u8, diff: bool, w: int, h: int, bx: (int, int, int, int)) -> bool {
    &&& 0 <= bx.0 <= bx.2 < w
    &&& 0 <= bx.1 <= bx.3 < h
    &&& forall|x: int, y: int| 0 <= x < w && 0 <= y < h && #[trigger] marked(a, b, t, diff, w, x, y)
        ==> bx.0 <= x <= bx.2 && bx.1 <= y <= bx.3
    &&& exists|y: int| 0 <= y < h && #[trigger] marked(a, b, t, diff, w, bx.0, y)
    &&& exists|y: int| 0 <= y < h && #[trigger] marked(a, b, t, diff, w, bx.2, y)
    &&& exists|x: int| 0 <= x < w && #[trigger] marked(a, b, t, diff, w, x, bx.1)
    &&& exists|x: int| 0 <= x < w && #[trigger] marked(a, b, t, diff, w, x, bx.3)
}

/// The bounding rectangle `(left, top, width, height)` of the marked pixels,
/// or `None` when no pixel is marked.
pub open spec fn spec_marked_bounds(a: Seq<u8>, b: Seq<u8>, t: u8, diff: bool, w: int, h: int) -> Option<(u16, u16, u16, u16)> {
    if any_marked(a, b, t, diff, w, h) {
        let bx = choose|bx: (int, int, int, int)| is_tight_box(a, b, t, diff, w, h, bx);
        Some((bx.0 as u16, bx.1 as u16, (bx.2 - bx.0 + 1) as u16, (bx.3 - bx.1 + 1) as u16))
    } else {
        None
    }
}

proof fn lemma_tight_box_unique(a: Seq<u8>, b: Seq<u8>, t: u8, diff: bool, w: int, h: int, b1: (int, int, int, int), b2: (int, int, int, int))
    requires
        is_tight_box(a, b, t, diff, w, h, b1),
        is_tight_box(a, b, t, diff, w, h, b2),
    ensures
        b1 == b2,
{
    let y1 = choose|y: int| 0 <= y < h && #[trigger] marked(a, b, t, diff, w, b1.0, y);
    let y2 = choose|y: int| 0 <= y < h && #[trigger] marked(a, b, t, diff, w, b2.0, y);
    assert(b2.0 <= b1.0 && b1.0 <= b2.0) by {
        assert(marked(a, b, t, diff, w, b1.0, y1));
        assert(marked(a, b, t, diff, w, b2.0, y2));
    }
    let y3 = choose|y: int| 0 <= y < h && #[trigger] marked(a, b, t, diff, w, b1.2, y);
    let y4 = choose|y: int| 0 <= y < h && #[trigger] marked(a, b, t, diff, w, b2.2, y);
    assert(b2.2 >= b1.2 && b1.2 >= b2.2) by {
        assert(marked(a, b, t, diff, w, b1.2, y3));
        assert(marked(a, b, t, diff, w, b2.2, y4));
    }
    let x1 = choose|x: int| 0 <= x < w && #[trigger] marked(a, b, t, diff, w, x, b1.1);
    let x2 = choose|x: int| 0 <= x < w && #[trigger] marked(a, b, t, diff, w, x, b2.1);
    assert(b2.1 <= b1.1 && b1.1 <= b2.1) by {
        assert(marked(a, b, t, diff, w, x1, b1.1));
        assert(marked(a, b, t, diff, w, x2, b2.1));
    }
    let x3 = choose|x: int| 0 <= x < w && #[trigger] marked(a, b, t, diff, w, x, b1.3);
    let x4 = choose|x: int| 0 <= x < w && #[trigger] marked(a, b, t, diff, w, x, b2.3);
    assert(b2.3 >= b1.3 && b1.3 >= b2.3) by {
        assert(marked(a, b, t, diff, w, x3, b1.3));
        assert(marked(a, b, t, diff, w, x4, b2.3));
    }
}

/// Pixel `(x, y)` comes before position `(cx, cy)` in row-major order.
pub open spec fn scanned(x: int, y: int, cx: int, cy: int) -> bool {
    y < cy || (y == cy && x < cx)
}

/// Row-major scan for the bounding rectangle of the marked pixels.
fn marked_bounds(a: &[u8], b: &[u8], t: u8, diff: bool, w: usize, h: usize) -> (res: Option<(u16, u16, u16, u16)>)
    requires
        a@.len() >= w * h,
        diff ==> b@.len() >= w * h,
    ensures
        res == spec_marked_bounds(a@, b@, t, diff, w as int, h as int),
        any_marked(a@, b@, t, diff, w as int, h as int)
            ==> exists|bx: (int, int, int, int)| is_tight_box(a@, b@, t, diff, w as int, h as int, bx),
{
    let ghost wi = w as int;
    let ghost hi = h as int;
    let mut min_x = w;
    let mut min_y = h;
    let mut max_x: usize = 0;
    let mut max_y: usize = 0;
    let mut changed = false;
    let ghost mut wl: (int, int) = (0, 0);
    let ghost mut wr: (int, int) = (0, 0);
    let ghost mut wt: (int, int) = (0, 0);
    let ghost mut wb: (int, int) = (0, 0);
    let mut y: usize = 0;
    while y < h
        invariant
            wi == w, hi == h,
            a@.len() >= w * h,
            diff ==> b@.len() >= w * h,
            y <= h,
            !changed ==> min_x == w && min_y == h && max_x == 0 && max_y == 0,
            !changed ==> forall|x: int, yy: int| 0 <= x < wi && 0 <= yy < hi && scanned(x, yy, 0, y as int)
                ==> !#[trigger] marked(a@, b@, t, diff, wi, x, yy),
            changed ==> min_x <= max_x < w && min_y <= max_y < h,
            changed ==> forall|x: int, yy: int| 0 <= x < wi && 0 <= yy < hi && scanned(x, yy, 0, y as int)
                && #[trigger] marked(a@, b@, t, diff, wi, x, yy)
                ==> min_x <= x <= max_x && min_y <= yy <= max_y,
            changed ==> wl.0 == min_x && 0 <= wl.1 < y && marked(a@, b@, t, diff, wi, wl.0, wl.1),
            changed ==> wr.0 == max_x && 0 <= wr.1 < y && marked(a@, b@, t, diff, wi, wr.0, wr.1),
            changed ==> wt.1 == min_y && 0 <= wt.0 < w && marked(a@, b@, t, diff, wi, wt.0, wt.1),
            changed ==> wb.1 == max_y && 0 <= wb.0 < w && marked(a@, b@, t, diff, wi, wb.0, wb.1),
        decreases h - y,
    {
        let mut x: usize = 0;
        while x < w
            invariant
                wi == w, hi == h,
                a@.len() >= w * h,
                diff ==> b@.len() >= w * h,
                y < h,
                x <= w,
                !changed ==> min_x == w && min_y == h && max_x == 0 && max_y == 0,
                !changed ==> forall|xx: int, yy: int| 0 <= xx < wi && 0 <= yy < hi && scanned(xx, yy, x as int, y as int)
                    ==> !#[trigger] marked(a@, b@, t, diff, wi, xx, yy),
                changed ==> min_x <= max_x < w && min_y <= max_y < h,
                changed ==> forall|xx: int, yy: int| 0 <= xx < wi && 0 <= yy < hi && scanned(xx, yy, x as int, y as int)
                    && #[trigger] marked(a@, b@, t, diff, wi, xx, yy)
                    ==> min_x <= xx <= max_x && min_y <= yy <= max_y,
                changed ==> wl.0 == min_x && 0 <= wl.1 <= y && marked(a@, b@, t, diff, wi, wl.0, wl.1),
                changed ==> wr.0 == max_x && 0 <= wr.1 <= y && marked(a@, b@, t, diff, wi, wr.0, wr.1),
                changed ==> wt.1 == min_y && 0 <= wt.0 < w && marked(a@, b@, t, diff, wi, wt.0, wt.1),
                changed ==> wb.1 == max_y && 0 <= wb.0 < w && marked(a@, b@, t, diff, wi, wb.0, wb.1),
            decreases w - x,
        {
            proof {
                lemma_cell_in_bounds(x as int, y as int, wi, hi, 1, 0);
                assert(wi * hi * 1 == wi * hi);
                assert(cell(x as int, y as int, wi) < a.len());
            }
            let idx = y * w + x;
            let hit = if diff { a[idx] != b[idx] } else { a[idx] != t };
            assert(hit == marked(a@, b@, t, diff, wi, x as int, y as int));
            if hit {
                if !changed {
                    proof {
                        wl = (x as int, y as int);
                        wr = (x as int, y as int);
                        wt = (x as int, y as int);
                        wb = (x as int, y as int);
                    }
                    min_x = x;
                    max_x = x;
                    min_y = y;
                    max_y = y;
                    changed = true;
                } else {
                    if x < min_x {
                        min_x = x;
                        proof { wl = (x as int, y as int); }
                    }
                    if y < min_y {
                        min_y = y;
                        proof { wt = (x as int, y as int); }
                    }
                    if x > max_x {
                        max_x = x;
                        proof { wr = (x as int, y as int); }
                    }
                    if y > max_y {
                        max_y = y;
                        proof { wb = (x as int, y as int); }
                    }
                }
            }
            x = x + 1;
        }
        y = y + 1;
    }
    if !changed {
        assert(!any_marked(a@, b@, t, diff, wi, hi));
        return None;
    }
    let ghost bx = (min_x as int, min_y as int, max_x as int, max_y as int);
    assert(is_tight_box(a@, b@, t, diff, wi, hi, bx)) by {
        assert(marked(a@, b@, t, diff, wi, bx.0, wl.1));
        assert(marked(a@, b@, t, diff, wi, bx.2, wr.1));
        assert(marked(a@, b@, t, diff, wi, wt.0, bx.1));
        assert(marked(a@, b@, t, diff, wi, wb.0, bx.3));
    }
    assert(any_marked(a@, b@, t, diff, wi, hi)) by {
        assert(marked(a@, b@, t, diff, wi, wl.0, wl.1));
    }
    let ghost chosen = choose|bx: (int, int, int, int)| is_tight_box(a@, b@, t, diff, wi, hi, bx);
    proof {
        lemma_tight_box_unique(a@, b@, t, diff, wi, hi, bx, chosen);
    }
    Some((
        #[verifier::truncate] (min_x as u16),
        #[verifier::truncate] (min_y as u16),
        #[verifier::truncate] ((max_x - min_x + 1) as u16),
        #[verifier::truncate] ((max_y - min_y + 1) as u16),
    ))
}

/// Bounding rectangle `(left, top, width, height)` of the pixels where two
/// indexed frames differ, or `None` when they are identical.
pub fn diff_bounds(prev: &[u8], curr: &[u8], w: usize, h: usize) -> (res: Option<(u16, u16, u16, u16)>)
    requires
        prev@.len() >= w * h,
        curr@.len() >= w * h,
    ensures
        res == spec_marked_bounds(prev@, curr@, 0, true, w as int, h as int),
        any_marked(prev@, curr@, 0, true, w as int, h as int)
            ==> exists|bx: (int, int, int, int)| is_tight_box(prev@, curr@, 0, true, w as int, h as int, bx),
{
    marked_bounds(prev, curr, 0, true, w, h)
}

/// Bounding rectangle `(left, top, width, height)` of the pixels that are not
/// the transparent index, or `None` when every pixel is transparent.
pub fn non_transparent_bounds(indexed: &[u8], w: usize, h: usize, transparent_idx: u8) -> (res: Option<(u16, u16, u16, u16)>)
    requires
        indexed@.len() >= w * h,
    ensures
        res == spec_marked_bounds(indexed@, indexed@, transparent_idx, false, w as int, h as int),
        any_marked(indexed@, indexed@, transparent_idx, false, w as int, h as int)
            ==> exists|bx: (int, int, int, int)| is_tight_box(indexed@, indexed@, transparent_idx, false, w as int, h as int, bx),
{
    marked_bounds(indexed, indexed, transparent_idx, false, w, h)
}

/// The `width x height` region at `(left, top)` of an indexed frame that is
/// `full_w` pixels wide, row by row.
pub open spec fn spec_crop(indexed: Seq<u8>, full_w: int, left: int, top: int, width: int, height: int) -> Seq<u8> {
    Seq::new((width * height) as nat, |i: int| indexed[cell(left + i % width, top + i / width, full_w)])
}

/// Copy a rectangular region out of an indexed frame.
pub fn crop_indexed_region(
    indexed: &[u8],
    full_w: usize,
    left: usize,
    top: usize,
    width: usize,
    height: usize,
) -> (res: Vec<u8>)
    requires
        height > 0 ==> (top + height - 1) * full_w + left + width <= indexed@.len(),
        height > 0 ==> top + height - 1 <= usize::MAX,
    ensures
        res@ == spec_crop(indexed@, full_w as int, left as int, top as int, width as int, height as int),
{
    let ghost target = spec_crop(indexed@, full_w as int, left as int, top as int, width as int, height as int);
    let mut out: Vec<u8> = Vec::new();
    let mut row: usize = 0;
    while row < height
        invariant
            height > 0 ==> (top + height - 1) * full_w + left + width <= indexed@.len(),
            height > 0 ==> top + height - 1 <= usize::MAX,
            target == spec_crop(indexed@, full_w as int, left as int, top as int, width as int, height as int),
            row <= height,
            out@.len() == row * width,
            forall|i: int| 0 <= i < out@.len() ==> #[trigger] out@[i] == target[i],
        decreases height - row,
    {
        proof {
            assert((top + row) * full_w <= (top + height - 1) * full_w) by (nonlinear_arith)
                requires row <= height - 1;
            assert((top + row) * full_w + left + width <= indexed.len());
        }
        let start = (top + row) * full_w + left;
        let mut col: usize = 0;
        while col < width
            invariant
                height > 0,
                row < height,
                start == (top + row) * full_w + left,
                start + width <= indexed.len(),
                target == spec_crop(indexed@, full_w as int, left as int, top as int, width as int, height as int),
                col <= width,
                out@.len() == row * width + col,
                forall|i: int| 0 <= i < out@.len() ==> #[trigger] out@[i] == target[i],
            decreases width - col,
        {
            proof {
                let i = row * width + col;
                assert(i / (width as int) == row && i % (width as int) == col) by {
                    vstd::arithmetic::div_mod::lemma_fundamental_div_mod_converse(
                        i, width as int, row as int, col as int);
                }
                assert(i < width * height) by (nonlinear_arith)
                    requires i == row * width + col, col < width, row < height;
                assert(target[i] == indexed@[start + col]);
            }
            out.push(indexed[start + col]);
            col = col + 1;
        }
        proof {
            assert((row + 1) * width == row * width + width) by (nonlinear_arith);
        }
        row = row + 1;
    }
    proof {
        assert(row * width == width * height) by (nonlinear_arith)
            requires row == height;
        assert(out@ =~= target);
    }
    out
}

/// Delta frame: every pixel equal to the previous frame's becomes the
/// transparent index.
pub open spec fn spec_delta(curr: Seq<u8>, prev: Seq<u8>, transparent_idx: u8) -> Seq<u8> {
    Seq::new(curr.len(), |i: int| if i < prev.len() && curr[i] == prev[i] { transparent_idx } else { curr[i] })
}

pub fn delta_frame(curr: &Vec<u8>, prev: &Vec<u8>, transparent_idx: u8) -> (res: Vec<u8>)
    ensures
        res@ == spec_delta(curr@, prev@, transparent_idx),
{
    let mut out: Vec<u8> = Vec::new();
    let mut i: usize = 0;
    while i < curr.len()
        invariant
            i <= curr@.len(),
            out@.len() == i,
            forall|k: int| 0 <= k < i ==> #[trigger] out@[k] == spec_delta(curr@, prev@, transparent_idx)[k],
        decreases curr@.len() - i,
    {
        if i < prev.len() && curr[i] == prev[i] {
            out.push(transparent_idx);
        } else {
            out.push(curr[i]);
        }
        i = i + 1;
    }
    assert(out@ =~= spec_delta(curr@, prev@, transparent_idx));
    out
}

/// Flattened `r, g, b` bytes of the first `n` palette entries.
pub open spec fn palette_rgb(palette: Seq<(u8, u8, u8, u8)>, n: int) -> Seq<u8>
    decreases n,
{
    if n <= 0 || n > palette.len() {
        Seq::empty()
    } else {
        palette_rgb(palette, n - 1) + seq![palette[n - 1].0, palette[n - 1].1, palette[n - 1].2]
    }
}

/// Index of the first palette entry with alpha below 128 among the first `n`.
pub open spec fn first_translucent(palette: Seq<(u8, u8, u8, u8)>, n: int) -> Option<int>
    decreases n,
{
    if n <= 0 || n > palette.len() {
        None
    } else {
        match first_translucent(palette, n - 1) {
            Some(k) => Some(k),
            None => if palette[n - 1].3 < 128 { Some(n - 1) } else { None },
        }
    }
}

/// GIF global palette bytes and transparent index for an RGBA palette. The
/// first entry with alpha below 128 is the transparent one; without such an
/// entry and with room left, a black entry is added and used as the
/// transparent index, so that delta frames can mark unchanged pixels.
pub open spec fn spec_palette_to_gif_bytes(palette: Seq<(u8, u8, u8, u8)>) -> (Seq<u8>, Option<u8>) {
    let rgb = palette_rgb(palette, palette.len() as int);
    match first_translucent(palette, palette.len() as int) {
        Some(k) => (rgb, Some(k as u8)),
        None => if palette.len() < 256 {
            (rgb + seq![0u8, 0u8, 0u8], Some(palette.len() as u8))
        } else {
            (rgb, None)
        },
    }
}

pub fn palette_to_gif_bytes(palette: &Vec<(u8, u8, u8, u8)>) -> (res: (Vec<u8>, Option<u8>))
    ensures
        (res.0@, res.1) == spec_palette_to_gif_bytes(palette@),
{
    let mut gif_palette: Vec<u8> = Vec::new();
    let mut transparent: Option<u8> = None;
    let mut idx: usize = 0;
    while idx < palette.len()
        invariant
            idx <= palette@.len(),
            gif_palette@ == palette_rgb(palette@, idx as int),
            transparent == match first_translucent(palette@, idx as int) {
                Some(k) => Some(k as u8),
                None => None::<u8>,
            },
        decreases palette@.len() - idx,
    {
        let color = palette[idx];
        gif_palette.push(color.0);
        gif_palette.push(color.1);
        gif_palette.push(color.2);
        assert(gif_palette@ =~= palette_rgb(palette@, idx as int + 1));
        if transparent.is_none() && color.3 < 128 {
            transparent = Some(#[verifier::truncate] (idx as u8));
        }
        idx = idx + 1;
    }
    if transparent.is_none() && palette.len() < 256 {
        transparent = Some(palette.len() as u8);
        gif_palette.push(0);
        gif_palette.push(0);
        gif_palette.push(0);
        assert(gif_palette@ =~= palette_rgb(palette@, palette@.len() as int) + seq![0u8, 0u8, 0u8]);
    }
    (gif_palette, transparent)
}

/// A GIF frame drawn over the canvas at `(left, top)`, in the global palette.
#[derive(Debug)]
pub struct GifFrame {
    pub left: u16,
    pub top: u16,
    pub width: u16,
    pub height: u16,
    /// Delay in hundredths of a second.
    pub delay: u16,
    pub pixels: Vec<u8>,
}

/// `(left, top, width, height, delay, pixels)`
pub type FrameView = (u16, u16, u16, u16, u16, Seq<u8>);

impl View for GifFrame {
    type V = FrameView;

    open spec fn view(&self) -> FrameView {
        (self.left, self.top, self.width, self.height, self.delay, self.pixels@)
    }
}

pub open spec fn sat_add_u16(a: u16, b: u16) -> u16 {
    if a + b > u16::MAX { u16::MAX } else { (a + b) as u16 }
}

/// The part of frame `k` to draw over frame `k - 1`: with a transparent index,
/// the delta frame cropped to its non-transparent pixels; without one, frame
/// `k` cropped to the pixels that changed. `None` when nothing changed.
pub open spec fn changed_region(indexed: Seq<Seq<u8>>, k: int, transparent: Option<u8>, w: int, h: int)
    -> Option<((u16, u16, u16, u16), Seq<u8>)>
{
    match transparent {
        Some(t) => {
            let d = spec_delta(indexed[k], indexed[k - 1], t);
            match spec_marked_bounds(d, d, t, false, w, h) {
                Some(r) => Some((r, spec_crop(d, w, r.0 as int, r.1 as int, r.2 as int, r.3 as int))),
                None => None,
            }
        },
        None => match spec_marked_bounds(indexed[k - 1], indexed[k], 0, true, w, h) {
            Some(r) => Some((r, spec_crop(indexed[k], w, r.0 as int, r.1 as int, r.2 as int, r.3 as int))),
            None => None,
        },
    }
}

/// Frames planned for the first `n` indexed frames: the first frame whole,
/// each later one as its changed region, and an unchanged frame folded into
/// the delay of the frame before it (saturating).
pub open spec fn plan_prefix(indexed: Seq<Seq<u8>>, delays: Seq<i32>, transparent: Option<u8>, w: u16, h: u16, n: nat)
    -> Seq<FrameView>
    decreases n,
{
    if n == 0 || n > indexed.len() {
        Seq::empty()
    } else if n == 1 {
        seq![(0u16, 0u16, w, h, spec_delay_to_centiseconds(delays[0]), indexed[0])]
    } else {
        let prev = plan_prefix(indexed, delays, transparent, w, h, (n - 1) as nat);
        let d = spec_delay_to_centiseconds(delays[n - 1]);
        match changed_region(indexed, n - 1, transparent, w as int, h as int) {
            Some((r, px)) => prev.push((r.0, r.1, r.2, r.3, d, px)),
            None => if prev.len() > 0 {
                let last = prev.last();
                prev.update(prev.len() - 1, (last.0, last.1, last.2, last.3, sat_add_u16(last.4, d), last.5))
            } else {
                prev
            },
        }
    }
}

pub open spec fn spec_plan_gif_frames(indexed: Seq<Seq<u8>>, delays: Seq<i32>, transparent: Option<u8>, w: u16, h: u16)
    -> Seq<FrameView>
{
    plan_prefix(indexed, delays, transparent, w, h, indexed.len())
}

pub open spec fn frame_views(frames: Seq<GifFrame>) -> Seq<FrameView> {
    frames.map_values(|f: GifFrame| f@)
}

pub open spec fn pixel_views(frames: Seq<Vec<u8>>) -> Seq<Seq<u8>> {
    frames.map_values(|f: Vec<u8>| f@)
}

/// Total delay, in hundredths of a second, of planned frames.
pub open spec fn planned_duration(frames: Seq<FrameView>) -> int
    decreases frames.len(),
{
    if frames.len() == 0 {
        0
    } else {
        planned_duration(frames.drop_last()) + frames.last().4
    }
}

/// Total delay, in hundredths of a second, of the first `n` input frames
/// (each delay raised to 10 ms and cut down to whole hundredths).
pub open spec fn input_duration(delays: Seq<i32>, n: nat) -> int
    decreases n,
{
    if n == 0 || n > delays.len() {
        0
    } else {
        input_duration(delays, (n - 1) as nat) + (if delays[n - 1] >= 10 { delays[n - 1] as int } else { 10 }) / 10
    }
}

proof fn lemma_planned_duration_nonneg(frames: Seq<FrameView>)
    ensures
        planned_duration(frames) >= 0,
        frames.len() > 0 ==> frames.last().4 <= planned_duration(frames),
    decreases frames.len(),
{
    if frames.len() > 0 {
        lemma_planned_duration_nonneg(frames.drop_last());
    }
}

proof fn lemma_input_duration_mono(delays: Seq<i32>, n: nat)
    requires
        1 <= n <= delays.len(),
    ensures
        input_duration(delays, (n - 1) as nat) <= input_duration(delays, n),
        input_duration(delays, (n - 1) as nat) >= 0,
    decreases n,
{
    if n > 1 {
        lemma_input_duration_mono(delays, (n - 1) as nat);
    }
}

proof fn lemma_plan_prefix_duration(indexed: Seq<Seq<u8>>, delays: Seq<i32>, transparent: Option<u8>, w: u16, h: u16, n: nat)
    requires
        1 <= n <= indexed.len(),
        indexed.len() == delays.len(),
        input_duration(delays, n) <= u16::MAX,
    ensures
        plan_prefix(indexed, delays, transparent, w, h, n).len() >= 1,
        planned_duration(plan_prefix(indexed, delays, transparent, w, h, n)) == input_duration(delays, n),
    decreases n,
{
    let cur = plan_prefix(indexed, delays, transparent, w, h, n);
    if n == 1 {
        assert(cur.drop_last() =~= Seq::<FrameView>::empty());
        assert(input_duration(delays, 0) == 0);
        let f = (if delays[0] >= 10 { delays[0] as int } else { 10 }) / 10;
        assert(input_duration(delays, 1) == f);
        assert(spec_delay_to_centiseconds(delays[0]) as int == f);
        assert(planned_duration(cur) == planned_duration(cur.drop_last()) + cur.last().4);
        assert(planned_duration(Seq::<FrameView>::empty()) == 0);
    } else {
        lemma_input_duration_mono(delays, n);
        lemma_plan_prefix_duration(indexed, delays, transparent, w, h, (n - 1) as nat);
        let prev = plan_prefix(indexed, delays, transparent, w, h, (n - 1) as nat);
        let d = spec_delay_to_centiseconds(delays[n - 1]);
        let f = (if delays[n - 1] >= 10 { delays[n - 1] as int } else { 10 }) / 10;
        assert(input_duration(delays, n) == input_duration(delays, (n - 1) as nat) + f);
        assert(d as int == f);
        match changed_region(indexed, n - 1, transparent, w as int, h as int) {
            Some((r, px)) => {
                assert(cur == prev.push((r.0, r.1, r.2, r.3, d, px)));
                assert(cur.drop_last() =~= prev);
                assert(planned_duration(cur) == planned_duration(prev) + d);
            },
            None => {
                let last = prev.last();
                lemma_planned_duration_nonneg(prev);
                lemma_planned_duration_nonneg(prev.drop_last());
                assert(last.4 + d <= u16::MAX);
                assert(sat_add_u16(last.4, d) == last.4 + d);
                assert(cur == prev.update(prev.len() - 1, (last.0, last.1, last.2, last.3, sat_add_u16(last.4, d), last.5)));
                assert(cur.drop_last() =~= prev.drop_last());
                assert(planned_duration(prev) == planned_duration(prev.drop_last()) + last.4);
                assert(planned_duration(cur) == planned_duration(prev.drop_last()) + cur.last().4);
            },
        }
    }
}

/// Planning frames keeps the animation's duration: the planned delays add up
/// to the input delays (in hundredths of a second), an unchanged frame
/// lending its delay to the frame before it, as long as that total fits the
/// 16-bit delay field.
pub proof fn lemma_plan_keeps_duration(indexed: Seq<Seq<u8>>, delays: Seq<i32>, transparent: Option<u8>, w: u16, h: u16)
    requires
        indexed.len() == delays.len(),
        indexed.len() > 0,
        input_duration(delays, delays.len()) <= u16::MAX,
    ensures
        planned_duration(spec_plan_gif_frames(indexed, delays, transparent, w, h)) == input_duration(delays, delays.len()),
{
    lemma_plan_prefix_duration(indexed, delays, transparent, w, h, indexed.len());
}

/// A tight box inside a `w x h` grid, read back from its u16 rectangle.
proof fn lemma_rect_of_box(a: Seq<u8>, b: Seq<u8>, t: u8, diff: bool, w: int, h: int)
    requires
        any_marked(a, b, t, diff, w, h),
        exists|bx: (int, int, int, int)| is_tight_box(a, b, t, diff, w, h, bx),
        w <= u16::MAX,
        h <= u16::MAX,
    ensures
        spec_marked_bounds(a, b, t, diff, w, h) matches Some(r)
            && r.2 >= 1 && r.3 >= 1
            && r.0 + r.2 <= w && r.1 + r.3 <= h,
{
}

/// Cut the frames into the frames to write: the first whole, later ones as
/// their changed regions, unchanged ones merged into the previous delay.
pub fn plan_gif_frames(
    indexed: &Vec<Vec<u8>>,
    delays: &Vec<i32>,
    transparent: Option<u8>,
    w: u16,
    h: u16,
) -> (res: Vec<GifFrame>)
    requires
        indexed@.len() == delays@.len(),
        forall|k: int| 0 <= k < indexed@.len() ==> #[trigger] indexed@[k]@.len() == w * h,
    ensures
        frame_views(res@) == spec_plan_gif_frames(pixel_views(indexed@), delays@, transparent, w, h),
        w > 0 && h > 0 ==> forall|k: int| 0 <= k < res@.len() ==> has_area_or_is_empty(#[trigger] res@[k]@),
{
    let ghost ix = pixel_views(indexed@);
    let full_w = w as usize;
    let full_h = h as usize;
    let mut out: Vec<GifFrame> = Vec::new();
    let mut idx: usize = 0;
    while idx < indexed.len()
        invariant
            ix == pixel_views(indexed@),
            indexed@.len() == delays@.len(),
            forall|k: int| 0 <= k < indexed@.len() ==> #[trigger] indexed@[k]@.len() == w * h,
            full_w == w, full_h == h,
            idx <= indexed@.len(),
            frame_views(out@) == plan_prefix(ix, delays@, transparent, w, h, idx as nat),
            idx > 0 ==> out@.len() > 0,
            w > 0 && h > 0 ==> all_have_area(out@),
        decreases indexed@.len() - idx,
    {
        let delay = delay_to_centiseconds(delays[idx]);
        let ghost before = out@;
        if idx == 0 {
            let px = indexed[0].clone();
            out.push(GifFrame { left: 0, top: 0, width: w, height: h, delay, pixels: px });
            proof {
                assert(frame_views(out@) =~= frame_views(before).push(out@.last()@));
                assert(frame_views(out@) =~= plan_prefix(ix, delays@, transparent, w, h, 1));
                if w > 0 && h > 0 {
                    assert(all_have_area(out@)) by {
                        assert(out@.len() == 1);
                        assert(out@[0].width == w && out@[0].height == h);
                    }
                }
            }
        } else {
            let ghost k = idx as int;
            let region: Option<(u16, u16, u16, u16, Vec<u8>)> = match transparent {
                Some(t) => {
                    let delta = delta_frame(&indexed[idx], &indexed[idx - 1], t);
                    match non_transparent_bounds(delta.as_slice(), full_w, full_h, t) {
                        Some((left, top, rw, rh)) => {
                            proof {
                                lemma_rect_of_box(delta@, delta@, t, false, w as int, h as int);
                                assert(((top + rh - 1) as int) * (w as int) + left + rw <= (w as int) * (h as int)) by (nonlinear_arith)
                                    requires top + rh <= h, left + rw <= w, rh >= 1;
                            }
                            let cropped = crop_indexed_region(delta.as_slice(), full_w, left as usize, top as usize, rw as usize, rh as usize);
                            Some((left, top, rw, rh, cropped))
                        },
                        None => None,
                    }
                },
                None => {
                    match diff_bounds(indexed[idx - 1].as_slice(), indexed[idx].as_slice(), full_w, full_h) {
                        Some((left, top, rw, rh)) => {
                            proof {
                                lemma_rect_of_box(indexed@[k - 1]@, indexed@[k]@, 0, true, w as int, h as int);
                                assert(((top + rh - 1) as int) * (w as int) + left + rw <= (w as int) * (h as int)) by (nonlinear_arith)
                                    requires top + rh <= h, left + rw <= w, rh >= 1;
                            }
                            let cropped = crop_indexed_region(indexed[idx].as_slice(), full_w, left as usize, top as usize, rw as usize, rh as usize);
                            Some((left, top, rw, rh, cropped))
                        },
                        None => None,
                    }
                },
            };
            proof {
                assert(ix[k] == indexed@[k]@);
                assert(ix[k - 1] == indexed@[k - 1]@);
            }
            match region {
                Some((left, top, rw, rh, cropped)) => {
                    proof {
                        assert(rw > 0 && rh > 0);
                    }
                    out.push(GifFrame { left, top, width: rw, height: rh, delay, pixels: cropped });
                    proof {
                        assert(frame_views(out@) =~= frame_views(before).push(out@.last()@));
                        if w > 0 && h > 0 {
                            assert(all_have_area(out@)) by {
                                assert forall|j: int| 0 <= j < out@.len() implies #[trigger] out@[j].width > 0 && out@[j].height > 0 by {
                                    if j < before.len() {
                                        assert(out@[j] == before[j]);
                                        assert(before[j].width > 0);
                                    }
                                }
                            }
                        }
                    }
                },
                None => {
                    let last = out.pop().unwrap();
                    let merged = last.delay.saturating_add(delay);
                    out.push(GifFrame {
                        left: last.left,
                        top: last.top,
                        width: last.width,
                        height: last.height,
                        delay: merged,
                        pixels: last.pixels,
                    });
                    proof {
                        let fb = frame_views(before);
                        assert(frame_views(out@) =~= fb.update(fb.len() - 1, out@.last()@));
                        if w > 0 && h > 0 {
                            assert(all_have_area(out@)) by {
                                assert forall|j: int| 0 <= j < out@.len() implies #[trigger] out@[j].width > 0 && out@[j].height > 0 by {
                                    if j < out@.len() - 1 {
                                        assert(out@[j] == before[j]);
                                    } else {
                                        assert(before[j].width > 0);
                                    }
                                }
                            }
                        }
                    }
                },
            }
        }
        idx = idx + 1;
    }
    out
}

pub open spec fn min_int(a: int, b: int) -> int { if a <= b { a } else { b } }
pub open spec fn max_int(a: int, b: int) -> int { if a >= b { a } else { b } }

/// Bounding box of the marked pixels among the first `n` pixels in row-major order.
pub open spec fn scan_box(a: Seq<u8>, b: Seq<u8>, t: u8, diff: bool, w: int, n: int) -> Option<(int, int, int, int)>
    decreases n,
{
    if n <= 0 {
        None
    } else {
        let prev = scan_box(a, b, t, diff, w, n - 1);
        let x = (n - 1) % w;
        let y = (n - 1) / w;
        if marked(a, b, t, diff, w, x, y) {
            match prev {
                None => Some((x, y, x, y)),
                Some(bx) => Some((min_int(bx.0, x), min_int(bx.1, y), max_int(bx.2, x), max_int(bx.3, y))),
            }
        } else {
            prev
        }
    }
}

pub open spec fn marked_at(a: Seq<u8>, b: Seq<u8>, t: u8, diff: bool, w: int, i: int) -> bool {
    marked(a, b, t, diff, w, i % w, i / w)
}

proof fn lemma_scan_box(a: Seq<u8>, b: Seq<u8>, t: u8, diff: bool, w: int, h: int, n: int)
    requires
        w > 0,
        0 <= n <= w * h,
    ensures
        scan_box(a, b, t, diff, w, n) is None <==> forall|i: int| 0 <= i < n ==> !#[trigger] marked_at(a, b, t, diff, w, i),
        scan_box(a, b, t, diff, w, n) matches Some(bx) ==> {
            &&& 0 <= bx.0 <= bx.2 < w
            &&& 0 <= bx.1 <= bx.3 < h
            &&& forall|i: int| 0 <= i < n && #[trigger] marked_at(a, b, t, diff, w, i)
                ==> bx.0 <= i % w <= bx.2 && bx.1 <= i / w <= bx.3
            &&& exists|i: int| 0 <= i < n && #[trigger] marked_at(a, b, t, diff, w, i) && i % w == bx.0
            &&& exists|i: int| 0 <= i < n && #[trigger] marked_at(a, b, t, diff, w, i) && i % w == bx.2
            &&& exists|i: int| 0 <= i < n && #[trigger] marked_at(a, b, t, diff, w, i) && i / w == bx.1
            &&& exists|i: int| 0 <= i < n && #[trigger] marked_at(a, b, t, diff, w, i) && i / w == bx.3
        },
    decreases n,
{
    if n > 0 {
        lemma_scan_box(a, b, t, diff, w, h, n - 1);
        let j = n - 1;
        assert(0 <= j % w < w);
        assert(0 <= j / w < h) by (nonlinear_arith)
            requires 0 <= j < w * h, w > 0;
        assert(marked_at(a, b, t, diff, w, j) == marked(a, b, t, diff, w, j % w, j / w));
    }
}

/// Whenever some pixel is marked, a tight box of the marked pixels exists.
proof fn lemma_tight_box_exists(a: Seq<u8>, b: Seq<u8>, t: u8, diff: bool, w: int, h: int)
    requires
        any_marked(a, b, t, diff, w, h),
    ensures
        exists|bx: (int, int, int, int)| is_tight_box(a, b, t, diff, w, h, bx),
{
    let (x0, y0) = choose|x: int, y: int| 0 <= x < w && 0 <= y < h && #[trigger] marked(a, b, t, diff, w, x, y);
    assert(w > 0 && h > 0);
    lemma_scan_box(a, b, t, diff, w, h, w * h);
    crate::grid::lemma_cell_in_bounds(x0, y0, w, h, 1, 0);
    crate::grid::lemma_cell_decompose(x0, y0, w, 1, 0);
    let i0 = cell(x0, y0, w);
    assert(i0 % w == x0 && i0 / w == y0);
    assert(marked_at(a, b, t, diff, w, i0));
    let bx = scan_box(a, b, t, diff, w, w * h).unwrap();
    assert forall|x: int, y: int| 0 <= x < w && 0 <= y < h && #[trigger] marked(a, b, t, diff, w, x, y)
        implies bx.0 <= x <= bx.2 && bx.1 <= y <= bx.3 by {
        crate::grid::lemma_cell_in_bounds(x, y, w, h, 1, 0);
        crate::grid::lemma_cell_decompose(x, y, w, 1, 0);
        let i = cell(x, y, w);
        assert(marked_at(a, b, t, diff, w, i));
    }
    let il = choose|i: int| 0 <= i < w * h && #[trigger] marked_at(a, b, t, diff, w, i) && i % w == bx.0;
    let ir = choose|i: int| 0 <= i < w * h && #[trigger] marked_at(a, b, t, diff, w, i) && i % w == bx.2;
    let it = choose|i: int| 0 <= i < w * h && #[trigger] marked_at(a, b, t, diff, w, i) && i / w == bx.1;
    let ib = choose|i: int| 0 <= i < w * h && #[trigger] marked_at(a, b, t, diff, w, i) && i / w == bx.3;
    assert(0 <= il / w < h) by (nonlinear_arith) requires 0 <= il < w * h, w > 0;
    assert(0 <= ir / w < h) by (nonlinear_arith) requires 0 <= ir < w * h, w > 0;
    assert(0 <= it / w < h) by (nonlinear_arith) requires 0 <= it < w * h, w > 0;
    assert(0 <= ib / w < h) by (nonlinear_arith) requires 0 <= ib < w * h, w > 0;
    assert(marked(a, b, t, diff, w, bx.0, il / w));
    assert(marked(a, b, t, diff, w, bx.2, ir / w));
    assert(marked(a, b, t, diff, w, it % w, bx.1));
    assert(marked(a, b, t, diff, w, ib % w, bx.3));
    assert(is_tight_box(a, b, t, diff, w, h, bx));
}

/// The canvas after drawing a `fw x fh` frame at `(left, top)` over `canvas`
/// (`w` wide): inside the frame each pixel becomes the frame's pixel, unless
/// that pixel is the transparent index, which leaves the canvas as it was.
pub open spec fn draw_frame(canvas: Seq<u8>, w: int, left: int, top: int, fw: int, fh: int, px: Seq<u8>, transparent: Option<u8>) -> Seq<u8> {
    Seq::new(canvas.len(), |i: int| {
        let x = i % w;
        let y = i / w;
        if left <= x < left + fw && top <= y < top + fh {
            let p = px[cell(x - left, y - top, fw)];
            if transparent == Some(p) {
                canvas[i]
            } else {
                p
            }
        } else {
            canvas[i]
        }
    })
}

/// No pixel takes the transparent index in `curr` while holding another
/// index in `prev`.
pub open spec fn no_pixel_turns_transparent(prev: Seq<u8>, curr: Seq<u8>, transparent: Option<u8>) -> bool {
    transparent matches Some(t) ==> forall|i: int| 0 <= i < curr.len() && #[trigger] curr[i] == t ==> prev[i] == t
}

/// Delta encoding is lossless: drawing the changed region of frame `k` over
/// frame `k - 1` (transparent pixels keeping what is below) gives frame `k`,
/// and when there is no changed region the two frames are equal. This holds
/// unless a pixel turns to the transparent index, which a delta frame cannot
/// express.
pub proof fn lemma_changed_region_redraws_frame(indexed: Seq<Seq<u8>>, k: int, transparent: Option<u8>, w: u16, h: u16)
    requires
        1 <= k < indexed.len(),
        indexed[k].len() == w * h,
        indexed[k - 1].len() == w * h,
        no_pixel_turns_transparent(indexed[k - 1], indexed[k], transparent),
    ensures
        match changed_region(indexed, k, transparent, w as int, h as int) {
            Some((r, px)) => draw_frame(indexed[k - 1], w as int, r.0 as int, r.1 as int, r.2 as int, r.3 as int, px, transparent)
                == indexed[k],
            None => indexed[k] == indexed[k - 1],
        },
{
    let wi = w as int;
    let hi = h as int;
    let prev = indexed[k - 1];
    let curr = indexed[k];
    let (a, b, t, diff) = match transparent {
        Some(t) => (spec_delta(curr, prev, t), spec_delta(curr, prev, t), t, false),
        None => (prev, curr, 0u8, true),
    };
    // Unmarked pixels are unchanged.
    assert forall|i: int| 0 <= i < wi * hi && !marked(a, b, t, diff, wi, i % wi, i / wi) implies #[trigger] curr[i] == prev[i] by {
        crate::grid::lemma_index_split(i, wi, hi, 1);
        assert(cell(i % wi, i / wi, wi) == i);
    }
    if !any_marked(a, b, t, diff, wi, hi) {
        assert forall|i: int| 0 <= i < wi * hi implies #[trigger] curr[i] == prev[i] by {
            crate::grid::lemma_index_split(i, wi, hi, 1);
            if marked(a, b, t, diff, wi, i % wi, i / wi) {
                assert(0 <= i % wi < wi && 0 <= i / wi < hi);
            }
        }
        assert(curr =~= prev);
        return;
    }
    lemma_tight_box_exists(a, b, t, diff, wi, hi);
    let bx = choose|bx: (int, int, int, int)| is_tight_box(a, b, t, diff, wi, hi, bx);
    let r = spec_marked_bounds(a, b, t, diff, wi, hi).unwrap();
    assert(r.0 == bx.0 && r.1 == bx.1 && r.2 == bx.2 - bx.0 + 1 && r.3 == bx.3 - bx.1 + 1);
    let (left, top, rw, rh) = (bx.0, bx.1, bx.2 - bx.0 + 1, bx.3 - bx.1 + 1);
    let src = match transparent { Some(t) => a, None => curr };
    let px = spec_crop(src, wi, left, top, rw, rh);
    let drawn = draw_frame(prev, wi, left, top, rw, rh, px, transparent);
    assert forall|i: int| 0 <= i < curr.len() implies #[trigger] drawn[i] == curr[i] by {
        crate::grid::lemma_index_split(i, wi, hi, 1);
        let x = i % wi;
        let y = i / wi;
        assert(cell(x, y, wi) == i);
        if left <= x < left + rw && top <= y < top + rh {
            let j = cell(x - left, y - top, rw);
            crate::grid::lemma_cell_decompose(x - left, y - top, rw, 1, 0);
            crate::grid::lemma_cell_in_bounds(x - left, y - top, rw, rh, 1, 0);
            assert(j % rw == x - left && j / rw == y - top);
            assert(px[j] == src[i]);
        } else {
            assert(!marked(a, b, t, diff, wi, x, y));
        }
    }
    assert(drawn =~= curr);
}

/// `prefix` followed by `detail`.
pub fn with_detail(prefix: &str, detail: String) -> (res: String)
    ensures
        res@ == prefix@ + detail@,
{
    String::from_str(prefix).concat(detail.as_str())
}

/// Graphic blocks of the frames in order, each drawn with the given
/// transparent index and the global palette.
pub open spec fn frame_blocks(frames: Seq<FrameView>, transparent: Option<u8>) -> Seq<u8>
    decreases frames.len(),
{
    if frames.len() == 0 {
        Seq::empty()
    } else {
        let f = frames.last();
        frame_blocks(frames.drop_last(), transparent)
            + gif_frame_block(f.0, f.1, f.2, f.3, f.4, transparent, None, f.5)
    }
}

/// A looping GIF file: header with the global palette, the loop-forever
/// extension, the frames, the trailer.
pub open spec fn spec_gif_file(w: u16, h: u16, palette: Seq<u8>, transparent: Option<u8>, frames: Seq<FrameView>) -> Seq<u8> {
    gif_header(w, h, palette) + netscape_loop_block(None) + frame_blocks(frames, transparent) + gif_trailer()
}

/// Every frame has positive sides.
pub open spec fn all_have_area(frames: Seq<GifFrame>) -> bool {
    forall|k: int| 0 <= k < frames.len() ==> #[trigger] frames[k].width > 0 && frames[k].height > 0
}

/// A frame with positive sides, or with no pixels at all (the GIF writer
/// refuses pixels on a frame without area).
pub open spec fn has_area_or_is_empty(f: FrameView) -> bool {
    (f.2 > 0 && f.3 > 0) || f.5.len() == 0
}

/// Write planned frames as a looping GIF with a global palette. A failure of
/// the writer (whose buffer growth can fail) comes back with its step's
/// message; success is not promised.
pub fn write_gif(w: u16, h: u16, palette: &Vec<u8>, transparent: Option<u8>, frames: &Vec<GifFrame>) -> (res: Result<Vec<u8>, Error>)
    requires
        forall|k: int| 0 <= k < frames@.len() ==> has_area_or_is_empty(#[trigger] frames@[k]@),
    ensures
        res matches Ok(bytes) ==> bytes@ == spec_gif_file(w, h, palette@, transparent, frame_views(frames@)),
        res matches Err(e) ==> e is EncodeError && step_failure(e->EncodeError_0@),
{
    let mut stream = match gif_encoder_new(w, h, palette.as_slice()) {
        Ok(s) => s,
        Err(e) => return Err(step_error("gif encoder init failed: ", gif_error_text(&e))),
    };
    match gif_set_repeat(&mut stream, None) {
        Ok(()) => {},
        Err(e) => return Err(step_error("gif set repeat failed: ", gif_error_text(&e))),
    }
    let ghost start = gif_written(stream);
    let mut i: usize = 0;
    while i < frames.len()
        invariant
            start == gif_header(w, h, palette@) + netscape_loop_block(None),
            forall|k: int| 0 <= k < frames@.len() ==> has_area_or_is_empty(#[trigger] frames@[k]@),
            i <= frames@.len(),
            gif_written(stream) == start + frame_blocks(frame_views(frames@).subrange(0, i as int), transparent),
        decreases frames@.len() - i,
    {
        let f = &frames[i];
        assert(has_area_or_is_empty(frames@[i as int]@));
        match gif_write_frame(&mut stream, f.left, f.top, f.width, f.height, f.delay, transparent, None, f.pixels.as_slice()) {
            Ok(()) => {},
            Err(e) => return Err(step_error("gif write frame failed: ", gif_error_text(&e))),
        }
        proof {
            let fv = frame_views(frames@);
            assert(fv.subrange(0, i + 1).drop_last() =~= fv.subrange(0, i as int));
            assert(fv.subrange(0, i + 1).last() == f@);
        }
        i = i + 1;
    }
    proof {
        assert(frame_views(frames@).subrange(0, frames@.len() as int) =~= frame_views(frames@));
    }
    match gif_finish(stream) {
        Ok(bytes) => Ok(bytes),
        Err(e) => Err(step_error("gif finish failed: ", io_error_text(&e))),
    }
}

/// The requested quality (clamped to 100) mapped to the quantizer's scale,
/// `round(q * 0.62)` kept within `1..=100`, and the colour budget for it.
pub open spec fn spec_gif_quality_settings(quality: u8) -> (u8, u32) {
    let q = if quality > 100 { 100 } else { quality as int };
    let r = (62 * q + 50) / 100;
    let eq = if r < 1 { 1 } else if r > 100 { 100 } else { r };
    let colors: u32 = if eq >= 90 { 256 } else if eq >= 80 { 192 } else if eq >= 70 { 160 } else if eq >= 60 { 128 } else { 96 };
    (eq as u8, colors)
}

pub fn gif_quality_settings(quality: u8) -> (res: (u8, u32))
    ensures
        res == spec_gif_quality_settings(quality),
{
    let q: u32 = if quality > 100 { 100 } else { quality as u32 };
    let r: u32 = (62 * q + 50) / 100;
    let eq: u32 = if r < 1 { 1 } else if r > 100 { 100 } else { r };
    let colors: u32 = if eq >= 90 { 256 } else if eq >= 80 { 192 } else if eq >= 70 { 160 } else if eq >= 60 { 128 } else { 96 };
    (eq as u8, colors)
}

/// The first frame whose RGBA buffer does not hold `w * h` pixels.
pub open spec fn first_bad_frame(frames: Seq<(Vec<u8>, i32)>, w: int, h: int, n: int) -> Option<int>
    decreases n,
{
    if n <= 0 || n > frames.len() {
        None
    } else {
        match first_bad_frame(frames, w, h, n - 1) {
            Some(k) => Some(k),
            None => if frames[n - 1].0@.len() != w * h * 4 { Some(n - 1) } else { None },
        }
    }
}

pub open spec fn frame_delays(frames: Seq<(Vec<u8>, i32)>) -> Seq<i32> {
    frames.map_values(|f: (Vec<u8>, i32)| f.1)
}

pub open spec fn length_message(got: int, expected: int) -> Seq<char> {
    "invalid RGBA length for GIF frame: got "@ + spec_decimal(got as nat) + ", expected "@ + spec_decimal(expected as nat)
}

pub open spec fn dimensions_message(w: u32, h: u32) -> Seq<char> {
    "invalid GIF dimensions: "@ + spec_decimal(w as nat) + "x"@ + spec_decimal(h as nat)
}

/// The quantizer settings for a requested quality: speed 1, the colour
/// budget, and the quality range `0..=target`.
pub open spec fn shared_settings(quality: u8) -> IqSettings {
    let (target, colors) = spec_gif_quality_settings(quality);
    (1i32, colors, Some((0u8, target)))
}

/// The images counted for the shared palette: every frame's pixels at `w x h`.
pub open spec fn frame_images(frames: Seq<(Vec<u8>, i32)>, w: u32, h: u32) -> Seq<(Seq<u8>, nat, nat)> {
    frames.map_values(|f: (Vec<u8>, i32)| (f.0@, w as nat, h as nat))
}

/// The source of the shared palette: all frames, with the settings for the
/// quality, counted into one histogram (frozen palette).
pub open spec fn shared_source(frames: Seq<(Vec<u8>, i32)>, w: u32, h: u32, quality: u8) -> IqSource {
    (frame_images(frames, w, h), shared_settings(quality), true)
}

/// The shared palette: the quantizer's palette for all frames.
pub open spec fn shared_palette(frames: Seq<(Vec<u8>, i32)>, w: u32, h: u32, quality: u8) -> Seq<(u8, u8, u8, u8)> {
    iq_palette_of(shared_source(frames, w, h, quality))
}

/// Each frame's pixels remapped, without dithering, to the shared palette.
pub open spec fn shared_indices(frames: Seq<(Vec<u8>, i32)>, w: u32, h: u32, quality: u8) -> Seq<Seq<u8>> {
    Seq::new(frames.len(), |k: int| iq_remap_of(shared_source(frames, w, h, quality), 0, frames[k].0@, w as nat, h as nat, None).1)
}

/// `bytes` is the GIF of `frames` at `quality`: the shared palette (with a
/// transparent entry when there is room) as the global colour table, and the
/// frames' palette indices planned into changed regions.
pub open spec fn gif_encoding_of(frames: Seq<(Vec<u8>, i32)>, w: u32, h: u32, quality: u8, bytes: Seq<u8>) -> bool {
    let (gp, t) = spec_palette_to_gif_bytes(shared_palette(frames, w, h, quality));
    bytes == spec_gif_file(w as u16, h as u16, gp, t,
        spec_plan_gif_frames(shared_indices(frames, w, h, quality), frame_delays(frames), t, w as u16, h as u16))
}

/// The prefixes of the messages of failures inside the quantizer or the GIF
/// writer, each followed by the failure's own text.
pub open spec fn is_step_prefix(p: Seq<char>) -> bool {
    ||| p == "imagequant set_speed failed: "@
    ||| p == "imagequant set_max_colors failed: "@
    ||| p == "imagequant set_quality failed: "@
    ||| p == "imagequant new_image failed: "@
    ||| p == "imagequant histogram add failed: "@
    ||| p == "imagequant histogram quantize failed: "@
    ||| p == "imagequant quantize failed: "@
    ||| p == "imagequant set_dithering_level failed: "@
    ||| p == "imagequant remap failed: "@
    ||| p == "gif encoder init failed: "@
    ||| p == "gif set repeat failed: "@
    ||| p == "gif write frame failed: "@
    ||| p == "gif finish failed: "@
}

/// A message of a failure inside the quantizer or the GIF writer.
pub open spec fn step_failure(s: Seq<char>) -> bool {
    exists|p: Seq<char>, d: Seq<char>| is_step_prefix(p) && #[trigger] (p + d) == s
}

/// The arguments are fit for encoding: frames, dimensions within `u16`, and
/// every frame holding `w * h` RGBA pixels.
pub open spec fn gif_args_valid(frames: Seq<(Vec<u8>, i32)>, w: u32, h: u32) -> bool {
    &&& frames.len() > 0 && 0 < w <= u16::MAX && 0 < h <= u16::MAX
    &&& first_bad_frame(frames, w as int, h as int, frames.len() as int) is None
}

/// What encoding `frames` as a `w x h` GIF at `quality` gives: the argument
/// errors in the order they are checked (no frames, bad dimensions, the first
/// frame of the wrong length); with fit arguments, either the GIF of the
/// frames or the message of a failure inside the quantizer or the writer.
pub open spec fn gif_encode_outcome(frames: Seq<(Vec<u8>, i32)>, w: u32, h: u32, quality: u8, res: Result<Vec<u8>, Error>) -> bool {
    &&& frames.len() == 0 ==> (res matches Err(Error::EncodeError(s)) && s@ == "cannot encode GIF with zero frames"@)
    &&& frames.len() > 0 && (w == 0 || h == 0 || w > u16::MAX || h > u16::MAX)
        ==> (res matches Err(Error::EncodeError(s)) && s@ == dimensions_message(w, h))
    &&& frames.len() > 0 && 0 < w <= u16::MAX && 0 < h <= u16::MAX ==> match first_bad_frame(
        frames, w as int, h as int, frames.len() as int) {
        Some(k) => res matches Err(Error::EncodeError(s)) && s@ == length_message(frames[k].0@.len() as int, w * h * 4),
        None => true,
    }
    &&& match res {
        Err(e) => e is EncodeError && (gif_args_valid(frames, w, h) ==> step_failure(e->EncodeError_0@)),
        Ok(bytes) => gif_args_valid(frames, w, h) && gif_encoding_of(frames, w, h, quality, bytes@),
    }
}

/// When the first `n` frames have the right length, the first bad frame (if
/// any) lies at or after `n`.
pub proof fn lemma_first_bad_frame_from(frames: Seq<(Vec<u8>, i32)>, w: int, h: int, n: int, m: int)
    requires
        0 <= n <= m <= frames.len(),
        first_bad_frame(frames, w, h, n) is None,
    ensures
        first_bad_frame(frames, w, h, m) matches Some(k) ==> n <= k < m,
    decreases m - n,
{
    if n < m {
        lemma_first_bad_frame_from(frames, w, h, n, m - 1);
    }
}

proof fn lemma_no_bad_frame(frames: Seq<(Vec<u8>, i32)>, w: int, h: int, n: int, k: int)
    requires
        0 <= k < n <= frames.len(),
        first_bad_frame(frames, w, h, n) is None,
    ensures
        frames[k].0@.len() == w * h * 4,
    decreases n,
{
    if k < n - 1 {
        lemma_no_bad_frame(frames, w, h, n - 1, k);
    }
}

/// Encode RGBA frames (`(pixels, delay_ms)`) to a looping animated GIF. One
/// palette, quantized over all frames at `quality`, is shared by every frame;
/// each frame after the first stores only the region that changed.
///
/// With fit arguments the result is not promised to be a success: the
/// quantizer and the GIF writer report running out of memory through their
/// results, and such a failure comes back with its step's message.
#[verifier::loop_isolation(false)]
pub fn encode_gif(frames: &Vec<(Vec<u8>, i32)>, w: u32, h: u32, quality: u8) -> (res: Result<Vec<u8>, Error>)
    ensures
        gif_encode_outcome(frames@, w, h, quality, res),
{
    if frames.len() == 0 {
        return Err(Error::EncodeError(String::from_str("cannot encode GIF with zero frames")));
    }
    if w == 0 || h == 0 || w > 65535 || h > 65535 {
        let msg = String::from_str("invalid GIF dimensions: ").concat(decimal(w as u128).as_str()).concat("x").concat(
            decimal(h as u128).as_str());
        return Err(Error::EncodeError(msg));
    }
    proof {
        assert((w as int) * (h as int) <= 65535 * 65535) by (nonlinear_arith)
            requires w <= 65535, h <= 65535;
    }
    let expected: u64 = (w as u64) * (h as u64) * 4;
    let mut k: usize = 0;
    while k < frames.len()
        invariant
            0 < w <= u16::MAX, 0 < h <= u16::MAX,
            expected == w * h * 4,
            k <= frames@.len(),
            first_bad_frame(frames@, w as int, h as int, k as int) is None,
        decreases frames@.len() - k,
    {
        if frames[k].0.len() as u64 != expected {
            let msg = String::from_str("invalid RGBA length for GIF frame: got ")
                .concat(decimal(frames[k].0.len() as u128).as_str())
                .concat(", expected ")
                .concat(decimal(expected as u128).as_str());
            proof {
                assert(first_bad_frame(frames@, w as int, h as int, k + 1) == Some(k as int));
                lemma_first_bad_frame_stable(frames@, w as int, h as int, k + 1, frames@.len() as int);
            }
            return Err(Error::EncodeError(msg));
        }
        k = k + 1;
    }
    proof {
        assert(gif_args_valid(frames@, w, h));
    }
    let ghost valid = gif_args_valid(frames@, w, h);
    let ghost images = frame_images(frames@, w, h);
    let (effective_q, max_colors) = gif_quality_settings(quality);
    let mut attr = iq_new();
    match iq_set_speed(&mut attr, 1) {
        Ok(()) => {},
        Err(e) => return Err(step_error("imagequant set_speed failed: ", iq_error_text(e))),
    }
    match iq_set_max_colors(&mut attr, max_colors) {
        Ok(()) => {},
        Err(e) => return Err(step_error("imagequant set_max_colors failed: ", iq_error_text(e))),
    }
    match iq_set_quality(&mut attr, 0, effective_q) {
        Ok(()) => {},
        Err(e) => return Err(step_error("imagequant set_quality failed: ", iq_error_text(e))),
    }
    assert(iq_settings(attr) == shared_settings(quality));
    let mut hist = iq_histogram_new(&attr);
    let mut k: usize = 0;
    while k < frames.len()
        invariant
            valid,
            gif_args_valid(frames@, w, h),
            images == frame_images(frames@, w, h),
            iq_settings(attr) == shared_settings(quality),
            k <= frames@.len(),
            iq_hist_source(hist) == (shared_settings(quality), images.take(k as int)),
        decreases frames@.len() - k,
    {
        let mut image = match iq_new_image(&attr, frames[k].0.as_slice(), w as usize, h as usize) {
            Ok(img) => img,
            Err(e) => return Err(step_error("imagequant new_image failed: ", iq_error_text(e))),
        };
        proof {
            lemma_no_bad_frame(frames@, w as int, h as int, frames@.len() as int, k as int);
            assert(frames@[k as int].0@.subrange(0, ((frames@[k as int].0@.len() / 4) * 4) as int) =~= frames@[k as int].0@);
        }
        match iq_histogram_add_image(&mut hist, &attr, &mut image) {
            Ok(()) => {},
            Err(e) => return Err(step_error("imagequant histogram add failed: ", iq_error_text(e))),
        }
        assert(images.take(k as int).push(images[k as int]) =~= images.take(k + 1));
        k = k + 1;
    }
    assert(images.take(frames@.len() as int) =~= images);
    let mut quantized = match iq_histogram_quantize(&mut hist, &attr) {
        Ok(q) => q,
        Err(e) => return Err(step_error("imagequant histogram quantize failed: ", iq_error_text(e))),
    };
    match iq_set_dithering_level(&mut quantized, 0) {
        Ok(()) => {},
        Err(e) => return Err(step_error("imagequant set_dithering_level failed: ", iq_error_text(e))),
    }
    let ghost source = shared_source(frames@, w, h, quality);
    assert(iq_result_source(quantized) == source);
    let palette = iq_palette(&mut quantized);
    let (global_palette, transparent) = palette_to_gif_bytes(&palette);
    let mut indexed: Vec<Vec<u8>> = Vec::new();
    let mut delays: Vec<i32> = Vec::new();
    let mut k: usize = 0;
    while k < frames.len()
        invariant
            valid,
            gif_args_valid(frames@, w, h),
            0 < w <= u16::MAX, 0 < h <= u16::MAX,
            source == shared_source(frames@, w, h, quality),
            iq_result_source(quantized) == source,
            iq_result_dither(quantized) == 0,
            k <= frames@.len(),
            indexed@.len() == k,
            delays@.len() == k,
            forall|j: int| 0 <= j < k ==> #[trigger] indexed@[j]@.len() == w * h,
            forall|j: int| 0 <= j < k ==> #[trigger] indexed@[j]@ == shared_indices(frames@, w, h, quality)[j],
            forall|j: int| 0 <= j < k ==> #[trigger] delays@[j] == frames@[j].1,
        decreases frames@.len() - k,
    {
        let mut image = match iq_new_image(&attr, frames[k].0.as_slice(), w as usize, h as usize) {
            Ok(img) => img,
            Err(e) => return Err(step_error("imagequant new_image failed: ", iq_error_text(e))),
        };
        proof {
            lemma_no_bad_frame(frames@, w as int, h as int, frames@.len() as int, k as int);
            assert(frames@[k as int].0@.subrange(0, ((frames@[k as int].0@.len() / 4) * 4) as int) =~= frames@[k as int].0@);
        }
        let (_, remapped) = match iq_remapped(&mut quantized, &mut image) {
            Ok(r) => r,
            Err(e) => return Err(step_error("imagequant remap failed: ", iq_error_text(e))),
        };
        indexed.push(remapped);
        delays.push(frames[k].1);
        k = k + 1;
    }
    let planned = plan_gif_frames(&indexed, &delays, transparent, w as u16, h as u16);
    let res = write_gif(w as u16, h as u16, &global_palette, transparent, &planned);
    proof {
        assert(delays@ =~= frame_delays(frames@));
        assert(pixel_views(indexed@) =~= shared_indices(frames@, w, h, quality));
    }
    res
}

/// The error for a failure inside the quantizer or the GIF writer: its step
/// prefix followed by the failure's own text.
pub fn step_error(prefix: &str, detail: String) -> (res: Error)
    requires
        is_step_prefix(prefix@),
    ensures
        res matches Error::EncodeError(s) && s@ == prefix@ + detail@ && step_failure(s@),
{
    let s = with_detail(prefix, detail);
    assert(is_step_prefix(prefix@) && (prefix@ + detail@) == s@);
    Error::EncodeError(s)
}

pub proof fn lemma_first_bad_frame_stable(frames: Seq<(Vec<u8>, i32)>, w: int, h: int, n: int, m: int)
    requires
        0 <= n <= m <= frames.len(),
        first_bad_frame(frames, w, h, n) is Some,
    ensures
        first_bad_frame(frames, w, h, m) == first_bad_frame(frames, w, h, n),
    decreases m - n,
{
    if n < m {
        lemma_first_bad_frame_stable(frames, w, h, n, m - 1);
    }
}

} // verus!
