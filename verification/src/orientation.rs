use vstd::prelude::*;
use crate::grid::{cell, lemma_cell_decompose, lemma_cell_in_bounds, lemma_index_split};

verus! {

/// EXIF orientations 5 to 8 rotate by a quarter turn, swapping width and height.
pub open spec fn swaps_axes(orientation: u32) -> bool {
    5 <= orientation <= 8
}

pub open spec fn oriented_dims(w: int, h: int, orientation: u32) -> (int, int) {
    if swaps_axes(orientation) {
        (h, w)
    } else {
        (w, h)
    }
}

/// The source pixel that lands at `(dx, dy)` of the output for an EXIF
/// orientation; a value outside `2..=8` maps every pixel to itself.
pub open spec fn source_xy(orientation: u32, w: int, h: int, dx: int, dy: int) -> (int, int) {
    if orientation == 2 {
        (w - 1 - dx, dy)
    } else if orientation == 3 {
        (w - 1 - dx, h - 1 - dy)
    } else if orientation == 4 {
        (dx, h - 1 - dy)
    } else if orientation == 5 {
        (dy, dx)
    } else if orientation == 6 {
        (dy, h - 1 - dx)
    } else if orientation == 7 {
        (w - 1 - dy, h - 1 - dx)
    } else if orientation == 8 {
        (w - 1 - dy, dx)
    } else {
        (dx, dy)
    }
}

/// Byte of the `w x h` RGBA source that output byte `i` copies.
pub open spec fn source_byte(orientation: u32, w: int, h: int, i: int) -> int {
    let dw = oriented_dims(w, h, orientation).0;
    let px = i / 4;
    let s = source_xy(orientation, w, h, px % dw, px / dw);
    cell(s.0, s.1, w) * 4 + i % 4
}

pub open spec fn oriented_pixels(pixels: Seq<u8>, w: int, h: int, orientation: u32) -> Seq<u8> {
    let d = oriented_dims(w, h, orientation);
    Seq::new((d.0 * d.1 * 4) as nat, |i: int| pixels[source_byte(orientation, w, h, i)])
}

/// EXIF orientation applied to tightly packed RGBA pixels: orientation 1 or
/// an empty image leaves everything as it is; otherwise every output pixel
/// is the source pixel that `source_xy` names.
pub open spec fn spec_apply_orientation(pixels: Seq<u8>, w: u32, h: u32, orientation: u32) -> (Seq<u8>, u32, u32) {
    if orientation == 1 || w == 0 || h == 0 {
        (pixels, w, h)
    } else {
        let d = oriented_dims(w as int, h as int, orientation);
        (oriented_pixels(pixels, w as int, h as int, orientation), d.0 as u32, d.1 as u32)
    }
}

/// The orientation that undoes `orientation`: the two quarter turns (6 and 8)
/// undo each other, every other orientation is its own inverse.
pub open spec fn inverse_orientation(orientation: u32) -> u32 {
    if orientation == 6 {
        8
    } else if orientation == 8 {
        6
    } else {
        orientation
    }
}

proof fn lemma_source_in_bounds(orientation: u32, w: int, h: int, dx: int, dy: int)
    requires
        w > 0,
        h > 0,
        0 <= dx < oriented_dims(w, h, orientation).0,
        0 <= dy < oriented_dims(w, h, orientation).1,
    ensures
        0 <= source_xy(orientation, w, h, dx, dy).0 < w,
        0 <= source_xy(orientation, w, h, dx, dy).1 < h,
{
}


proof fn lemma_source_round_trip(orientation: u32, w: int, h: int, x: int, y: int)
    requires
        2 <= orientation <= 8,
        0 <= x < w,
        0 <= y < h,
    ensures
        ({
            let d = oriented_dims(w, h, orientation);
            let s = source_xy(inverse_orientation(orientation), d.0, d.1, x, y);
            source_xy(orientation, w, h, s.0, s.1) == (x, y)
        }),
{
}

/// Applying an EXIF orientation and then its inverse gives back the original
/// pixels and dimensions.
pub proof fn lemma_orientation_round_trip(pixels: Seq<u8>, w: u32, h: u32, orientation: u32)
    requires
        1 <= orientation <= 8,
        pixels.len() == w * h * 4,
    ensures
        ({
            let once = spec_apply_orientation(pixels, w, h, orientation);
            spec_apply_orientation(once.0, once.1, once.2, inverse_orientation(orientation))
                == (pixels, w, h)
        }),
{
    if orientation == 1 || w == 0 || h == 0 {
        return;
    }
    let wi = w as int;
    let hi = h as int;
    let d = oriented_dims(wi, hi, orientation);
    let inv = inverse_orientation(orientation);
    let q = oriented_pixels(pixels, wi, hi, orientation);
    assert(d.0 * d.1 == wi * hi) by (nonlinear_arith)
        requires (d.0 == wi && d.1 == hi) || (d.0 == hi && d.1 == wi);
    assert(oriented_dims(d.0, d.1, inv) == (wi, hi));
    let back = oriented_pixels(q, d.0, d.1, inv);
    assert forall|i: int| 0 <= i < pixels.len() implies #[trigger] back[i] == pixels[i] by {
        lemma_index_split(i, wi, hi, 4);
        let x = (i / 4) % wi;
        let y = (i / 4) / wi;
        let c = i % 4;
        let s = source_xy(inv, d.0, d.1, x, y);
        lemma_source_in_bounds(inv, d.0, d.1, x, y);
        lemma_cell_in_bounds(s.0, s.1, d.0, d.1, 4, c);
        lemma_cell_decompose(s.0, s.1, d.0, 4, c);
        let j = cell(s.0, s.1, d.0) * 4 + c;
        assert(source_byte(inv, d.0, d.1, i) == j);
        lemma_source_round_trip(orientation, wi, hi, x, y);
        assert(source_byte(orientation, wi, hi, j) == i);
        assert(back[i] == q[j]);
        assert(q[j] == pixels[i]);
    }
    assert(back =~= pixels);
}

/// Byte `c` of pixel `(x, y)` of a `w`-wide RGBA image.
pub open spec fn rgba_at(pixels: Seq<u8>, w: int, x: int, y: int, c: int) -> u8 {
    pixels[(y * w + x) * 4 + c]
}

/// The EXIF meaning of each orientation, pixel by pixel: 2 mirrors left to
/// right, 3 turns half way, 4 mirrors top to bottom, 5 transposes, 6 turns a
/// quarter clockwise, 7 transposes across the other diagonal, 8 turns a
/// quarter counter-clockwise. The output of orientations 5 to 8 is `h` wide
/// and `w` high.
pub proof fn lemma_orientation_meaning(pixels: Seq<u8>, w: u32, h: u32, orientation: u32, dx: int, dy: int, c: int)
    requires
        2 <= orientation <= 8,
        w > 0,
        h > 0,
        pixels.len() == w * h * 4,
        0 <= c < 4,
        0 <= dx < (if orientation >= 5 { h as int } else { w as int }),
        0 <= dy < (if orientation >= 5 { w as int } else { h as int }),
    ensures
        ({
            let out = spec_apply_orientation(pixels, w, h, orientation);
            let (wi, hi) = (w as int, h as int);
            &&& orientation >= 5 ==> out.1 == h && out.2 == w
            &&& orientation < 5 ==> out.1 == w && out.2 == h
            &&& orientation == 2 ==> rgba_at(out.0, wi, dx, dy, c) == rgba_at(pixels, wi, wi - 1 - dx, dy, c)
            &&& orientation == 3 ==> rgba_at(out.0, wi, dx, dy, c) == rgba_at(pixels, wi, wi - 1 - dx, hi - 1 - dy, c)
            &&& orientation == 4 ==> rgba_at(out.0, wi, dx, dy, c) == rgba_at(pixels, wi, dx, hi - 1 - dy, c)
            &&& orientation == 5 ==> rgba_at(out.0, hi, dx, dy, c) == rgba_at(pixels, wi, dy, dx, c)
            &&& orientation == 6 ==> rgba_at(out.0, hi, dx, dy, c) == rgba_at(pixels, wi, dy, hi - 1 - dx, c)
            &&& orientation == 7 ==> rgba_at(out.0, hi, dx, dy, c) == rgba_at(pixels, wi, wi - 1 - dy, hi - 1 - dx, c)
            &&& orientation == 8 ==> rgba_at(out.0, hi, dx, dy, c) == rgba_at(pixels, wi, wi - 1 - dy, dx, c)
        }),
{
    let (wi, hi) = (w as int, h as int);
    let d = oriented_dims(wi, hi, orientation);
    let i = (dy * d.0 + dx) * 4 + c;
    assert(d.0 * d.1 == wi * hi) by (nonlinear_arith)
        requires (d.0 == wi && d.1 == hi) || (d.0 == hi && d.1 == wi);
    assert(0 <= i < d.0 * d.1 * 4) by (nonlinear_arith)
        requires 0 <= dx < d.0, 0 <= dy < d.1, 0 <= c < 4, i == (dy * d.0 + dx) * 4 + c;
    assert(i / 4 == dy * d.0 + dx && i % 4 == c) by (nonlinear_arith)
        requires i == (dy * d.0 + dx) * 4 + c, 0 <= c < 4;
    assert((dy * d.0 + dx) % d.0 == dx && (dy * d.0 + dx) / d.0 == dy) by (nonlinear_arith)
        requires 0 <= dx < d.0, 0 <= dy;
    let s = source_xy(orientation, wi, hi, dx, dy);
    lemma_source_in_bounds(orientation, wi, hi, dx, dy);
    lemma_cell_decompose(s.0, s.1, wi, 4, c);
    assert(source_byte(orientation, wi, hi, i) == (s.1 * wi + s.0) * 4 + c);
}

/// Apply EXIF orientation to tightly packed RGBA pixels.
/// Returns the transformed `(pixels, width, height)`.
pub fn apply_exif_orientation_rgba(
    pixels: Vec<u8>,
    width: u32,
    height: u32,
    orientation: u32,
) -> (res: (Vec<u8>, u32, u32))
    requires
        orientation != 1 && width > 0 && height > 0 ==> pixels@.len() >= width * height * 4
            && width * height * 4 <= u32::MAX,
    ensures
        (res.0@, res.1, res.2) == spec_apply_orientation(pixels@, width, height, orientation),
{
    if orientation == 1 || width == 0 || height == 0 {
        return (pixels, width, height);
    }
    let swap = 5 <= orientation && orientation <= 8;
    let dst_w: u32 = if swap { height } else { width };
    let dst_h: u32 = if swap { width } else { height };
    let ghost w = width as int;
    let ghost h = height as int;
    let ghost dw = dst_w as int;
    let ghost dh = dst_h as int;
    let ghost target = oriented_pixels(pixels@, w, h, orientation);
    assert(dw * dh == w * h) by (nonlinear_arith)
        requires (dw == w && dh == h) || (dw == h && dh == w);
    let mut out: Vec<u8> = Vec::new();
    let mut dy: u32 = 0;
    while dy < dst_h
        invariant
            dst_w == oriented_dims(w, h, orientation).0,
            dst_h == oriented_dims(w, h, orientation).1,
            w == width, h == height, dw == dst_w, dh == dst_h, w > 0, h > 0,
            orientation != 1,
            dw * dh == w * h,
            pixels@.len() >= w * h * 4,
            w * h * 4 <= u32::MAX,
            target == oriented_pixels(pixels@, w, h, orientation),
            dy <= dst_h,
            out@.len() == dy * dw * 4,
            forall|i: int| 0 <= i < out@.len() ==> #[trigger] out@[i] == target[i],
        decreases dst_h - dy,
    {
        let mut dx: u32 = 0;
        while dx < dst_w
            invariant
                dst_w == oriented_dims(w, h, orientation).0,
                dst_h == oriented_dims(w, h, orientation).1,
                w == width, h == height, dw == dst_w, dh == dst_h, w > 0, h > 0,
                dw * dh == w * h,
                pixels@.len() >= w * h * 4,
                w * h * 4 <= u32::MAX,
                target == oriented_pixels(pixels@, w, h, orientation),
                dy < dst_h,
                dx <= dst_w,
                out@.len() == cell(dx as int, dy as int, dw) * 4,
                forall|i: int| 0 <= i < out@.len() ==> #[trigger] out@[i] == target[i],
            decreases dst_w - dx,
        {
            let (sx, sy): (u32, u32) = if orientation == 2 {
                (width - 1 - dx, dy)
            } else if orientation == 3 {
                (width - 1 - dx, height - 1 - dy)
            } else if orientation == 4 {
                (dx, height - 1 - dy)
            } else if orientation == 5 {
                (dy, dx)
            } else if orientation == 6 {
                (dy, height - 1 - dx)
            } else if orientation == 7 {
                (width - 1 - dy, height - 1 - dx)
            } else if orientation == 8 {
                (width - 1 - dy, dx)
            } else {
                (dx, dy)
            };
            proof {
                lemma_source_in_bounds(orientation, w, h, dx as int, dy as int);
                assert((sx as int, sy as int) == source_xy(orientation, w, h, dx as int, dy as int));
                lemma_cell_in_bounds(sx as int, sy as int, w, h, 4, 0);
                lemma_cell_in_bounds(sx as int, sy as int, w, h, 4, 3);
                lemma_cell_in_bounds(dx as int, dy as int, dw, dh, 4, 3);
            }
            let src_idx: usize = ((sy as u64 * width as u64 + sx as u64) * 4) as usize;
            let ghost base = out@.len();
            let mut c: usize = 0;
            while c < 4
                invariant
                    dst_w == oriented_dims(w, h, orientation).0,
                    w == width, h == height, dw == dst_w, w > 0, h > 0,
                    pixels@.len() >= w * h * 4,
                    target == oriented_pixels(pixels@, w, h, orientation),
                    dx < dst_w,
                    dy < dst_h,
                    (sx as int, sy as int) == source_xy(orientation, w, h, dx as int, dy as int),
                    src_idx == cell(sx as int, sy as int, w) * 4,
                    src_idx + 4 <= pixels@.len(),
                    base == cell(dx as int, dy as int, dw) * 4,
                    cell(dx as int, dy as int, dw) * 4 + 4 <= dw * oriented_dims(w, h, orientation).1 * 4,
                    c <= 4,
                    out@.len() == base + c,
                    forall|i: int| 0 <= i < out@.len() ==> #[trigger] out@[i] == target[i],
                decreases 4 - c,
            {
                proof {
                    let i = base + c;
                    lemma_cell_decompose(dx as int, dy as int, dw, 4, c as int);
                    assert(source_byte(orientation, w, h, i) == src_idx + c);
                    assert(target[i] == pixels@[src_idx + c]);
                }
                out.push(pixels[src_idx + c]);
                c = c + 1;
            }
            proof {
                assert(cell(dx as int + 1, dy as int, dw) == cell(dx as int, dy as int, dw) + 1);
            }
            dx = dx + 1;
        }
        proof {
            assert(cell(dx as int, dy as int, dw) * 4 == (dy + 1) * dw * 4) by (nonlinear_arith)
                requires dx == dw, cell(dx as int, dy as int, dw) == dy * dw + dx;
        }
        dy = dy + 1;
    }
    proof {
        assert(out@.len() == target.len()) by (nonlinear_arith)
            requires out@.len() == dy * dw * 4, dy == dh, target.len() == dw * dh * 4;
        assert(out@ =~= target);
    }
    (out, dst_w, dst_h)
}

} // verus!
