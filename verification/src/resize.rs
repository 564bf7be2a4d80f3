use vstd::prelude::*;
use crate::grid::{cell, lemma_cell_decompose, lemma_cell_in_bounds};

verus! {

/// Bilinear sampling along one axis. Output position `i` of `d` maps to the
/// source coordinate `f = (i + 1/2) * s / d - 1/2`, kept within `[0, s - 1]`.
/// Over the denominator `2d` this is `((2i + 1) s - d) / 2d`. Returns the
/// lower neighbour, the upper neighbour (kept below `s`) and the numerator of
/// the weight of the upper neighbour over `2d`.
pub open spec fn axis_sample(i: int, s: int, d: int) -> (int, int, int) {
    let num = (2 * i + 1) * s - d;
    let den = 2 * d;
    let (lo, r) = if num < 0 {
        (0, 0)
    } else if num > (s - 1) * den {
        (s - 1, 0)
    } else {
        (num / den, num % den)
    };
    (lo, if lo + 1 < s - 1 { lo + 1 } else { s - 1 }, r)
}

/// Rounds `n / d` to the nearest integer, halves away from zero.
pub open spec fn round_div(n: int, d: int) -> int {
    (2 * n + d) / (2 * d)
}

/// One channel of the bilinear sample at output pixel `(x, y)`.
pub open spec fn bilinear_channel(src: Seq<u8>, sw: int, sh: int, dw: int, dh: int, x: int, y: int, c: int) -> int {
    let ax = axis_sample(x, sw, dw);
    let ay = axis_sample(y, sh, dh);
    let dx = 2 * dw;
    let dy = 2 * dh;
    let p00 = src[cell(ax.0, ay.0, sw) * 4 + c] as int;
    let p01 = src[cell(ax.1, ay.0, sw) * 4 + c] as int;
    let p10 = src[cell(ax.0, ay.1, sw) * 4 + c] as int;
    let p11 = src[cell(ax.1, ay.1, sw) * 4 + c] as int;
    let top = p00 * (dx - ax.2) + p01 * ax.2;
    let bottom = p10 * (dx - ax.2) + p11 * ax.2;
    round_div(top * (dy - ay.2) + bottom * ay.2, dx * dy)
}

pub open spec fn bilinear_pixels(src: Seq<u8>, sw: int, sh: int, dw: int, dh: int) -> Seq<u8> {
    Seq::new((dw * dh * 4) as nat, |i: int|
        bilinear_channel(src, sw, sh, dw, dh, (i / 4) % dw, (i / 4) / dw, i % 4) as u8)
}

/// Resizing tightly packed RGBA pixels: an empty target gives no bytes, a
/// buffer of the wrong length or an unchanged size gives the input back, and
/// otherwise every output byte is the bilinear sample of its channel.
pub open spec fn spec_resize(src: Seq<u8>, sw: u32, sh: u32, dw: u32, dh: u32) -> Seq<u8> {
    if dw == 0 || dh == 0 {
        Seq::empty()
    } else if src.len() != sw * sh * 4 {
        src
    } else if sw == dw && sh == dh {
        src
    } else {
        bilinear_pixels(src, sw as int, sh as int, dw as int, dh as int)
    }
}

proof fn lemma_axis_sample_bounds(i: int, s: int, d: int)
    requires
        s > 0,
        d > 0,
        0 <= i < d,
    ensures
        0 <= axis_sample(i, s, d).0 < s,
        0 <= axis_sample(i, s, d).1 < s,
        0 <= axis_sample(i, s, d).2 < 2 * d,
{
    let num = (2 * i + 1) * s - d;
    let den = 2 * d;
    if 0 <= num && num <= (s - 1) * den {
        assert(num / den <= s - 1) by (nonlinear_arith)
            requires 0 <= num <= (s - 1) * den, den > 0;
        assert(0 <= num / den) by (nonlinear_arith)
            requires 0 <= num, den > 0;
    }
}

fn axis_sample_exec(i: u32, s: u32, d: u32) -> (res: (u32, u32, u64))
    requires
        s > 0,
        d > 0,
        i < d,
    ensures
        (res.0 as int, res.1 as int, res.2 as int) == axis_sample(i as int, s as int, d as int),
{
    proof {
        lemma_axis_sample_bounds(i as int, s as int, d as int);
        assert((2 * (i as int) + 1) * (s as int) <= (2 * 0xffff_ffffint + 1) * 0xffff_ffffint) by (nonlinear_arith)
            requires i <= 0xffff_ffff, s <= 0xffff_ffff;
        assert(((s as int) - 1) * (2 * (d as int)) <= 0xffff_ffffint * (2 * 0xffff_ffffint)) by (nonlinear_arith)
            requires s <= 0xffff_ffff, d <= 0xffff_ffff, s > 0;
    }
    let num: i128 = (2 * (i as i128) + 1) * (s as i128) - (d as i128);
    let den: i128 = 2 * (d as i128);
    let (lo, r): (u32, u64) = if num < 0 {
        (0, 0)
    } else if num > ((s as i128) - 1) * den {
        (s - 1, 0)
    } else {
        ((num / den) as u32, (num % den) as u64)
    };
    let hi: u32 = if lo as u64 + 1 < s as u64 - 1 { lo + 1 } else { s - 1 };
    (lo, hi, r)
}

proof fn lemma_channel_in_range(p00: int, p01: int, p10: int, p11: int, rx: int, ry: int, dx: int, dy: int)
    requires
        0 <= p00 <= 255, 0 <= p01 <= 255, 0 <= p10 <= 255, 0 <= p11 <= 255,
        0 <= rx < dx,
        0 <= ry < dy,
    ensures
        0 <= (p00 * (dx - rx) + p01 * rx) * (dy - ry) + (p10 * (dx - rx) + p11 * rx) * ry,
        (p00 * (dx - rx) + p01 * rx) * (dy - ry) + (p10 * (dx - rx) + p11 * rx) * ry <= 255 * (dx * dy),
        0 <= round_div((p00 * (dx - rx) + p01 * rx) * (dy - ry) + (p10 * (dx - rx) + p11 * rx) * ry, dx * dy) <= 255,
{
    let top = p00 * (dx - rx) + p01 * rx;
    let bottom = p10 * (dx - rx) + p11 * rx;
    assert(0 <= top <= 255 * dx) by (nonlinear_arith)
        requires 0 <= p00 <= 255, 0 <= p01 <= 255, 0 <= rx < dx, top == p00 * (dx - rx) + p01 * rx;
    assert(0 <= bottom <= 255 * dx) by (nonlinear_arith)
        requires 0 <= p10 <= 255, 0 <= p11 <= 255, 0 <= rx < dx, bottom == p10 * (dx - rx) + p11 * rx;
    let n = top * (dy - ry) + bottom * ry;
    assert(0 <= n <= 255 * (dx * dy)) by (nonlinear_arith)
        requires 0 <= top <= 255 * dx, 0 <= bottom <= 255 * dx, 0 <= ry < dy, n == top * (dy - ry) + bottom * ry;
    let den = dx * dy;
    assert(den > 0) by (nonlinear_arith)
        requires dx > 0, dy > 0, den == dx * dy;
    assert(0 <= (2 * n + den) / (2 * den) <= 255) by (nonlinear_arith)
        requires 0 <= n <= 255 * den, den > 0;
}

/// Index of channel `c` of pixel `(x, y)` in a `w x h` RGBA buffer.
pub fn byte_index(x: u32, y: u32, w: u32, h: u32, c: usize, len: usize) -> (res: usize)
    requires
        x < w,
        y < h,
        c < 4,
        len == w * h * 4,
    ensures
        res as int == cell(x as int, y as int, w as int) * 4 + c,
        res < len,
{
    proof {
        lemma_cell_in_bounds(x as int, y as int, w as int, h as int, 4, c as int);
        assert((y as int) * (w as int) <= 0xffff_ffffint * 0xffff_ffffint) by (nonlinear_arith)
            requires y <= 0xffff_ffff, w <= 0xffff_ffff;
    }
    let row: u64 = (y as u64) * (w as u64);
    (((row + x as u64) * 4) + c as u64) as usize
}

fn bilinear_channel_exec(
    src: &[u8],
    sw: u32,
    sh: u32,
    dw: u32,
    dh: u32,
    ax: (u32, u32, u64),
    ay: (u32, u32, u64),
    c: usize,
) -> (res: u8)
    requires
        sw > 0, sh > 0, dw > 0, dh > 0,
        src@.len() == sw * sh * 4,
        ax.0 < sw, ax.1 < sw, ay.0 < sh, ay.1 < sh,
        ax.2 < 2 * dw,
        ay.2 < 2 * dh,
        c < 4,
    ensures
        ({
            let dx = 2 * (dw as int);
            let dy = 2 * (dh as int);
            let p00 = src@[cell(ax.0 as int, ay.0 as int, sw as int) * 4 + c] as int;
            let p01 = src@[cell(ax.1 as int, ay.0 as int, sw as int) * 4 + c] as int;
            let p10 = src@[cell(ax.0 as int, ay.1 as int, sw as int) * 4 + c] as int;
            let p11 = src@[cell(ax.1 as int, ay.1 as int, sw as int) * 4 + c] as int;
            res as int == round_div(
                (p00 * (dx - ax.2) + p01 * ax.2) * (dy - ay.2) + (p10 * (dx - ax.2) + p11 * ax.2) * ay.2,
                dx * dy,
            )
        }),
{
    proof {
        lemma_cell_in_bounds(ax.0 as int, ay.0 as int, sw as int, sh as int, 4, c as int);
        lemma_cell_in_bounds(ax.1 as int, ay.0 as int, sw as int, sh as int, 4, c as int);
        lemma_cell_in_bounds(ax.0 as int, ay.1 as int, sw as int, sh as int, 4, c as int);
        lemma_cell_in_bounds(ax.1 as int, ay.1 as int, sw as int, sh as int, 4, c as int);
    }
    let i00 = byte_index(ax.0, ay.0, sw, sh, c, src.len());
    let i01 = byte_index(ax.1, ay.0, sw, sh, c, src.len());
    let i10 = byte_index(ax.0, ay.1, sw, sh, c, src.len());
    let i11 = byte_index(ax.1, ay.1, sw, sh, c, src.len());
    let p00 = src[i00] as u128;
    let p01 = src[i01] as u128;
    let p10 = src[i10] as u128;
    let p11 = src[i11] as u128;
    let dx: u128 = 2 * (dw as u128);
    let dy: u128 = 2 * (dh as u128);
    let rx = ax.2 as u128;
    let ry = ay.2 as u128;
    proof {
        lemma_channel_in_range(p00 as int, p01 as int, p10 as int, p11 as int, rx as int, ry as int, dx as int, dy as int);
        assert((dx as int) * (dy as int) <= (2 * 0xffff_ffffint) * (2 * 0xffff_ffffint)) by (nonlinear_arith)
            requires dx <= 2 * 0xffff_ffffint, dy <= 2 * 0xffff_ffffint;
    }
    proof {
        assert((p00 as int) * ((dx - rx) as int) <= 255 * (dx as int)) by (nonlinear_arith)
            requires p00 <= 255, rx <= dx;
        assert((p01 as int) * (rx as int) <= 255 * (dx as int)) by (nonlinear_arith)
            requires p01 <= 255, rx <= dx;
        assert((p10 as int) * ((dx - rx) as int) <= 255 * (dx as int)) by (nonlinear_arith)
            requires p10 <= 255, rx <= dx;
        assert((p11 as int) * (rx as int) <= 255 * (dx as int)) by (nonlinear_arith)
            requires p11 <= 255, rx <= dx;
        let t = (p00 as int) * ((dx - rx) as int) + (p01 as int) * (rx as int);
        let b = (p10 as int) * ((dx - rx) as int) + (p11 as int) * (rx as int);
        assert(t * ((dy - ry) as int) <= 510 * (dx as int) * (dy as int)) by (nonlinear_arith)
            requires 0 <= t <= 510 * (dx as int), ry <= dy;
        assert(b * (ry as int) <= 510 * (dx as int) * (dy as int)) by (nonlinear_arith)
            requires 0 <= b <= 510 * (dx as int), ry <= dy;
        assert(510 * (dx as int) * (dy as int) <= 510 * ((2 * 0xffff_ffffint) * (2 * 0xffff_ffffint))) by (nonlinear_arith)
            requires (dx as int) * (dy as int) <= (2 * 0xffff_ffffint) * (2 * 0xffff_ffffint), dx >= 0, dy >= 0;
    }
    proof {
        assert((p00 as int) * ((dx - rx) as int) <= 255 * (dx as int)) by (nonlinear_arith)
            requires p00 <= 255, rx <= dx;
        assert((p01 as int) * (rx as int) <= 255 * (dx as int)) by (nonlinear_arith)
            requires p01 <= 255, rx <= dx;
        assert((p10 as int) * ((dx - rx) as int) <= 255 * (dx as int)) by (nonlinear_arith)
            requires p10 <= 255, rx <= dx;
        assert((p11 as int) * (rx as int) <= 255 * (dx as int)) by (nonlinear_arith)
            requires p11 <= 255, rx <= dx;
        let t = (p00 as int) * ((dx - rx) as int) + (p01 as int) * (rx as int);
        let b = (p10 as int) * ((dx - rx) as int) + (p11 as int) * (rx as int);
        assert(t * ((dy - ry) as int) <= 510 * (dx as int) * (dy as int)) by (nonlinear_arith)
            requires 0 <= t <= 510 * (dx as int), ry <= dy;
        assert(b * (ry as int) <= 510 * (dx as int) * (dy as int)) by (nonlinear_arith)
            requires 0 <= b <= 510 * (dx as int), ry <= dy;
        assert(510 * (dx as int) * (dy as int) <= 510 * ((2 * 0xffff_ffffint) * (2 * 0xffff_ffffint))) by (nonlinear_arith)
            requires (dx as int) * (dy as int) <= (2 * 0xffff_ffffint) * (2 * 0xffff_ffffint), dx >= 0, dy >= 0;
    }
    let top = p00 * (dx - rx) + p01 * rx;
    let bottom = p10 * (dx - rx) + p11 * rx;
    let n = top * (dy - ry) + bottom * ry;
    let den = dx * dy;
    proof {
        assert(den > 0) by (nonlinear_arith)
            requires dx > 0, dy > 0, den == dx * dy;
    }
    ((2 * n + den) / (2 * den)) as u8
}


/// Twice the output count times the source coordinate that output position
/// `i` of `d` samples on an axis of `s` pixels: `(i + 1/2) * s / d - 1/2`,
/// kept within `[0, s - 1]`, scaled by `2d`.
pub open spec fn sample_pos2(i: int, s: int, d: int) -> int {
    let num = (2 * i + 1) * s - d;
    if num < 0 { 0 } else if num > 2 * d * (s - 1) { 2 * d * (s - 1) } else { num }
}

proof fn lemma_axis_position(i: int, s: int, d: int)
    requires
        s > 0,
        d > 0,
        0 <= i < d,
    ensures
        axis_sample(i, s, d).0 * (2 * d) + axis_sample(i, s, d).2 == sample_pos2(i, s, d),
        axis_sample(i, s, d).2 > 0 ==> axis_sample(i, s, d).1 == axis_sample(i, s, d).0 + 1,
{
    let num = (2 * i + 1) * s - d;
    let den = 2 * d;
    let ax = axis_sample(i, s, d);
    assert((s - 1) * den == 2 * d * (s - 1)) by (nonlinear_arith)
        requires den == 2 * d;
    if num < 0 {
        assert(ax.0 == 0 && ax.2 == 0);
        assert(sample_pos2(i, s, d) == 0);
    } else if num > (s - 1) * den {
        assert(ax.0 == s - 1 && ax.2 == 0);
        assert(sample_pos2(i, s, d) == 2 * d * (s - 1));
        assert((s - 1) * (2 * d) == 2 * d * (s - 1)) by (nonlinear_arith);
    } else {
        vstd::arithmetic::div_mod::lemma_fundamental_div_mod(num, den);
        let lo = num / den;
        let r = num % den;
        assert(ax.0 == lo && ax.2 == r);
        assert(sample_pos2(i, s, d) == num);
        if r > 0 {
            assert(lo < s - 1) by (nonlinear_arith)
                requires num == den * lo + r, r > 0, num <= (s - 1) * den, den > 0;
        }
        assert(lo * (2 * d) + r == num) by (nonlinear_arith)
            requires num == den * lo + r, den == 2 * d;
    }
}

proof fn lemma_weighted_pair(p: int, q: int, step: int, d: int, r: int)
    requires
        r == 0 || q == p + step,
    ensures
        p * (d - r) + q * r == p * d + step * r,
{
    if r == 0 {
        assert(p * (d - 0) == p * d);
    } else {
        assert(p * (d - r) + (p + step) * r == p * d + step * r) by (nonlinear_arith);
    }
}

proof fn lemma_bilinear_affine(a: int, bx: int, by: int, lox: int, hix: int, rx: int, loy: int, hiy: int, ry: int, dx: int, dy: int)
    requires
        rx == 0 || hix == lox + 1,
        ry == 0 || hiy == loy + 1,
    ensures
        ((a + bx * lox + by * loy) * (dx - rx) + (a + bx * hix + by * loy) * rx) * (dy - ry)
            + ((a + bx * lox + by * hiy) * (dx - rx) + (a + bx * hix + by * hiy) * rx) * ry
            == a * (dx * dy) + bx * (lox * dx + rx) * dy + by * (loy * dy + ry) * dx,
{
    let t0 = a + bx * lox + by * loy;
    let t1 = a + bx * hix + by * loy;
    let b0 = a + bx * lox + by * hiy;
    let b1 = a + bx * hix + by * hiy;
    if rx != 0 {
        assert(t1 == t0 + bx && b1 == b0 + bx) by (nonlinear_arith)
            requires hix == lox + 1, t0 == a + bx * lox + by * loy, t1 == a + bx * hix + by * loy,
                b0 == a + bx * lox + by * hiy, b1 == a + bx * hix + by * hiy;
    }
    lemma_weighted_pair(t0, t1, bx, dx, rx);
    lemma_weighted_pair(b0, b1, bx, dx, rx);
    let top = t0 * dx + bx * rx;
    let bottom = b0 * dx + bx * rx;
    if ry != 0 {
        assert(b0 == t0 + by) by (nonlinear_arith)
            requires hiy == loy + 1, t0 == a + bx * lox + by * loy, b0 == a + bx * lox + by * hiy;
    }
    assert(bottom == top + by * dx || ry == 0) by (nonlinear_arith)
        requires ry == 0 || b0 == t0 + by, top == t0 * dx + bx * rx, bottom == b0 * dx + bx * rx;
    lemma_weighted_pair(top, bottom, by * dx, dy, ry);
    // top * (dy - ry) + bottom * ry == top * dy + by * dx * ry
    assert(top * dy == t0 * (dx * dy) + bx * rx * dy) by (nonlinear_arith)
        requires top == t0 * dx + bx * rx;
    assert(t0 * (dx * dy) == a * (dx * dy) + bx * lox * dx * dy + by * loy * dy * dx) by (nonlinear_arith)
        requires t0 == a + bx * lox + by * loy;
    assert(bx * (lox * dx + rx) * dy == bx * lox * dx * dy + bx * rx * dy) by (nonlinear_arith);
    assert(by * (loy * dy + ry) * dx == by * loy * dy * dx + by * dx * ry) by (nonlinear_arith);
}

/// Bilinear resizing reproduces images whose channel is an affine function
/// of the pixel position: a source channel `a + bx * x + by * y` becomes, at
/// output pixel `(x, y)`, that same function at the sampled source position
/// `((x + 1/2) * sw / dw - 1/2, (y + 1/2) * sh / dh - 1/2)` (kept inside the
/// image), rounded to the nearest integer (halves up). In particular a
/// gradient keeps its direction and each output row or column is weighted
/// towards the nearer source row or column.
pub proof fn lemma_resize_affine(
    src: Seq<u8>, sw: u32, sh: u32, dw: u32, dh: u32, c: int, a: int, bx: int, by: int, x: int, y: int,
)
    requires
        src.len() == sw * sh * 4,
        sw > 0, sh > 0, dw > 0, dh > 0,
        !(sw == dw && sh == dh),
        0 <= c < 4,
        forall|sx: int, sy: int| 0 <= sx < sw && 0 <= sy < sh
            ==> #[trigger] src[(sy * sw + sx) * 4 + c] as int == a + bx * sx + by * sy,
        0 <= x < dw,
        0 <= y < dh,
    ensures
        ({
            let ddx = 2 * (dw as int);
            let ddy = 2 * (dh as int);
            let n = a * (ddx * ddy) + bx * sample_pos2(x, sw as int, dw as int) * ddy
                + by * sample_pos2(y, sh as int, dh as int) * ddx;
            spec_resize(src, sw, sh, dw, dh)[(y * dw + x) * 4 + c] as int == (2 * n + ddx * ddy) / (2 * (ddx * ddy))
        }),
{
    let (swi, shi, dwi, dhi) = (sw as int, sh as int, dw as int, dh as int);
    let out = spec_resize(src, sw, sh, dw, dh);
    let i = (y * dwi + x) * 4 + c;
    assert(0 <= i < dwi * dhi * 4) by (nonlinear_arith)
        requires 0 <= x < dwi, 0 <= y < dhi, 0 <= c < 4, i == (y * dwi + x) * 4 + c;
    assert(i / 4 == y * dwi + x && i % 4 == c) by (nonlinear_arith)
        requires i == (y * dwi + x) * 4 + c, 0 <= c < 4;
    assert((y * dwi + x) % dwi == x && (y * dwi + x) / dwi == y) by (nonlinear_arith)
        requires 0 <= x < dwi, 0 <= y;
    let ax = axis_sample(x, swi, dwi);
    let ay = axis_sample(y, shi, dhi);
    lemma_axis_sample_bounds(x, swi, dwi);
    lemma_axis_sample_bounds(y, shi, dhi);
    lemma_axis_position(x, swi, dwi);
    lemma_axis_position(y, shi, dhi);
    let p00 = src[cell(ax.0, ay.0, swi) * 4 + c] as int;
    let p01 = src[cell(ax.1, ay.0, swi) * 4 + c] as int;
    let p10 = src[cell(ax.0, ay.1, swi) * 4 + c] as int;
    let p11 = src[cell(ax.1, ay.1, swi) * 4 + c] as int;
    assert(p00 == a + bx * ax.0 + by * ay.0);
    assert(p01 == a + bx * ax.1 + by * ay.0);
    assert(p10 == a + bx * ax.0 + by * ay.1);
    assert(p11 == a + bx * ax.1 + by * ay.1);
    let ddx = 2 * dwi;
    let ddy = 2 * dhi;
    lemma_bilinear_affine(a, bx, by, ax.0, ax.1, ax.2, ay.0, ay.1, ay.2, ddx, ddy);
    lemma_channel_in_range(p00, p01, p10, p11, ax.2, ay.2, ddx, ddy);
    let v = bilinear_channel(src, swi, shi, dwi, dhi, x, y, c);
    assert(out[i] == v as u8);
    assert(0 <= v <= 255);
}

/// Every pixel of `pixels` has the same colour as the first one.
pub open spec fn is_uniform(pixels: Seq<u8>) -> bool {
    forall|i: int| 0 <= i < pixels.len() ==> #[trigger] pixels[i] == pixels[i % 4]
}

/// Resizing an image of a single colour gives an image of that colour.
pub proof fn lemma_resize_uniform(src: Seq<u8>, sw: u32, sh: u32, dw: u32, dh: u32)
    requires
        is_uniform(src),
        src.len() == sw * sh * 4,
        sw > 0,
        sh > 0,
    ensures
        is_uniform(spec_resize(src, sw, sh, dw, dh)),
        forall|i: int| 0 <= i < spec_resize(src, sw, sh, dw, dh).len()
            ==> #[trigger] spec_resize(src, sw, sh, dw, dh)[i] == src[i % 4],
{
    let out = spec_resize(src, sw, sh, dw, dh);
    if dw == 0 || dh == 0 || (sw == dw && sh == dh) {
        return;
    }
    let (swi, shi, dwi, dhi) = (sw as int, sh as int, dw as int, dh as int);
    assert forall|i: int| 0 <= i < out.len() implies #[trigger] out[i] == src[i % 4] by {
        crate::grid::lemma_index_split(i, dwi, dhi, 4);
        let x = (i / 4) % dwi;
        let y = (i / 4) / dwi;
        let c = i % 4;
        let ax = axis_sample(x, swi, dwi);
        let ay = axis_sample(y, shi, dhi);
        lemma_axis_sample_bounds(x, swi, dwi);
        lemma_axis_sample_bounds(y, shi, dhi);
        let v = src[c] as int;
        let k00 = cell(ax.0, ay.0, swi) * 4 + c;
        let k01 = cell(ax.1, ay.0, swi) * 4 + c;
        let k10 = cell(ax.0, ay.1, swi) * 4 + c;
        let k11 = cell(ax.1, ay.1, swi) * 4 + c;
        lemma_cell_in_bounds(ax.0, ay.0, swi, shi, 4, c);
        lemma_cell_in_bounds(ax.1, ay.0, swi, shi, 4, c);
        lemma_cell_in_bounds(ax.0, ay.1, swi, shi, 4, c);
        lemma_cell_in_bounds(ax.1, ay.1, swi, shi, 4, c);
        lemma_cell_decompose(ax.0, ay.0, swi, 4, c);
        lemma_cell_decompose(ax.1, ay.0, swi, 4, c);
        lemma_cell_decompose(ax.0, ay.1, swi, 4, c);
        lemma_cell_decompose(ax.1, ay.1, swi, 4, c);
        assert(src[k00] == src[k00 % 4]);
        assert(src[k01] == src[k01 % 4]);
        assert(src[k10] == src[k10 % 4]);
        assert(src[k11] == src[k11 % 4]);
        let dx = 2 * dwi;
        let dy = 2 * dhi;
        let rx = ax.2;
        let ry = ay.2;
        let n = (v * (dx - rx) + v * rx) * (dy - ry) + (v * (dx - rx) + v * rx) * ry;
        assert(n == v * (dx * dy)) by (nonlinear_arith)
            requires n == (v * (dx - rx) + v * rx) * (dy - ry) + (v * (dx - rx) + v * rx) * ry;
        assert(dx * dy > 0) by (nonlinear_arith)
            requires dx > 0, dy > 0;
        assert(round_div(v * (dx * dy), dx * dy) == v) by (nonlinear_arith)
            requires dx * dy > 0, 0 <= v;
        assert(bilinear_channel(src, swi, shi, dwi, dhi, x, y, c) == v);
    }
    assert forall|i: int| 0 <= i < out.len() implies #[trigger] out[i] == out[i % 4] by {
        assert(out[i] == src[i % 4]);
        assert((i % 4) % 4 == i % 4);
        assert(0 <= i % 4 < 4);
        assert(dwi * dhi * 4 >= 4) by (nonlinear_arith)
            requires dwi >= 1, dhi >= 1;
        assert(out[i % 4] == src[(i % 4) % 4]);
    }
}

/// Resize tightly packed RGBA pixels with bilinear interpolation.
///
/// Sample positions, weights and the rounding (half away from zero) are exact
/// rational arithmetic; a single-precision floating-point computation of the
/// same formula can give a channel value one lower or higher.
pub fn resize_rgba_nearest(src: &[u8], src_w: u32, src_h: u32, dst_w: u32, dst_h: u32) -> (res: Vec<u8>)
    requires
        dst_w > 0 && dst_h > 0 && src@.len() == src_w * src_h * 4 && !(src_w == dst_w && src_h == dst_h)
            ==> src_w > 0 && src_h > 0 && src_w * src_h * 4 <= u32::MAX && dst_w * dst_h * 4 <= u32::MAX,
    ensures
        res@ == spec_resize(src@, src_w, src_h, dst_w, dst_h),
{
    if dst_w == 0 || dst_h == 0 {
        return Vec::new();
    }
    proof {
        assert((src_w as int) * (src_h as int) <= 0xffff_ffffint * 0xffff_ffffint) by (nonlinear_arith)
            requires src_w <= 0xffff_ffff, src_h <= 0xffff_ffff;
    }
    if src.len() as u128 != (src_w as u128) * (src_h as u128) * 4 {
        return vstd::slice::slice_to_vec(src);
    }
    if src_w == dst_w && src_h == dst_h {
        return vstd::slice::slice_to_vec(src);
    }
    let ghost sw = src_w as int;
    let ghost sh = src_h as int;
    let ghost dw = dst_w as int;
    let ghost dh = dst_h as int;
    let ghost target = bilinear_pixels(src@, sw, sh, dw, dh);
    let mut out: Vec<u8> = Vec::new();
    let mut y: u32 = 0;
    while y < dst_h
        invariant
            sw == src_w, sh == src_h, dw == dst_w, dh == dst_h,
            sw > 0, sh > 0, dw > 0, dh > 0,
            src@.len() == sw * sh * 4,
            dw * dh * 4 <= u32::MAX,
            target == bilinear_pixels(src@, sw, sh, dw, dh),
            y <= dst_h,
            out@.len() == y * dw * 4,
            forall|i: int| 0 <= i < out@.len() ==> #[trigger] out@[i] == target[i],
        decreases dst_h - y,
    {
        let ay = axis_sample_exec(y, src_h, dst_h);
        proof { lemma_axis_sample_bounds(y as int, sh, dh); }
        let mut x: u32 = 0;
        while x < dst_w
            invariant
                sw == src_w, sh == src_h, dw == dst_w, dh == dst_h,
                sw > 0, sh > 0, dw > 0, dh > 0,
                src@.len() == sw * sh * 4,
                target == bilinear_pixels(src@, sw, sh, dw, dh),
                y < dst_h,
                (ay.0 as int, ay.1 as int, ay.2 as int) == axis_sample(y as int, sh, dh),
                ay.0 < src_h, ay.1 < src_h, ay.2 < 2 * dh,
                x <= dst_w,
                out@.len() == cell(x as int, y as int, dw) * 4,
                forall|i: int| 0 <= i < out@.len() ==> #[trigger] out@[i] == target[i],
            decreases dst_w - x,
        {
            let ax = axis_sample_exec(x, src_w, dst_w);
            proof {
                lemma_axis_sample_bounds(x as int, sw, dw);
                lemma_cell_in_bounds(x as int, y as int, dw, dh, 4, 3);
            }
            let ghost base = out@.len();
            let mut c: usize = 0;
            while c < 4
                invariant
                    sw == src_w, sh == src_h, dw == dst_w, dh == dst_h,
                    sw > 0, sh > 0, dw > 0, dh > 0,
                    src@.len() == sw * sh * 4,
                    target == bilinear_pixels(src@, sw, sh, dw, dh),
                    x < dst_w, y < dst_h,
                    (ay.0 as int, ay.1 as int, ay.2 as int) == axis_sample(y as int, sh, dh),
                    (ax.0 as int, ax.1 as int, ax.2 as int) == axis_sample(x as int, sw, dw),
                    ay.0 < src_h, ay.1 < src_h, ay.2 < 2 * dh,
                    ax.0 < src_w, ax.1 < src_w, ax.2 < 2 * dw,
                    base == cell(x as int, y as int, dw) * 4,
                    base + 4 <= dw * dh * 4,
                    c <= 4,
                    out@.len() == base + c,
                    forall|i: int| 0 <= i < out@.len() ==> #[trigger] out@[i] == target[i],
                decreases 4 - c,
            {
                let v = bilinear_channel_exec(src, src_w, src_h, dst_w, dst_h, ax, ay, c);
                proof {
                    let i = base + c;
                    lemma_cell_decompose(x as int, y as int, dw, 4, c as int);
                    assert(target[i] == bilinear_channel(src@, sw, sh, dw, dh, x as int, y as int, c as int) as u8);
                    lemma_channel_in_range(
                        src@[cell(ax.0 as int, ay.0 as int, sw) * 4 + c] as int,
                        src@[cell(ax.1 as int, ay.0 as int, sw) * 4 + c] as int,
                        src@[cell(ax.0 as int, ay.1 as int, sw) * 4 + c] as int,
                        src@[cell(ax.1 as int, ay.1 as int, sw) * 4 + c] as int,
                        ax.2 as int, ay.2 as int, 2 * dw, 2 * dh,
                    );
                }
                out.push(v);
                c = c + 1;
            }
            proof {
                assert(cell(x as int + 1, y as int, dw) == cell(x as int, y as int, dw) + 1);
            }
            x = x + 1;
        }
        proof {
            assert(cell(x as int, y as int, dw) * 4 == (y + 1) * dw * 4) by (nonlinear_arith)
                requires x == dw, cell(x as int, y as int, dw) == y * dw + x;
        }
        y = y + 1;
    }
    proof {
        assert(out@.len() == target.len()) by (nonlinear_arith)
            requires out@.len() == y * dw * 4, y == dh, target.len() == dw * dh * 4;
        assert(out@ =~= target);
    }
    out
}

} // verus!
