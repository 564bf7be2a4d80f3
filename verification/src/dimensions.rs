use vstd::prelude::*;

verus! {

/// `ceil(a * n / d)` over the naturals.
pub open spec fn ceil_mul_div(a: nat, n: nat, d: nat) -> nat
    recommends
        d > 0,
{
    ((a * n + d - 1) / (d as int)) as nat
}

pub open spec fn clamp_nat(v: nat, lo: nat, hi: nat) -> nat {
    if v < lo {
        lo
    } else if v > hi {
        hi
    } else {
        v
    }
}

pub open spec fn opt_or_zero(o: Option<u32>) -> nat {
    match o {
        Some(v) => v as nat,
        None => 0,
    }
}

/// The shrink factor `num / den`: the larger of `min_width / src_w` and
/// `min_height / src_h`, a missing bound counting as 0.
pub open spec fn scale_of(src_w: u32, src_h: u32, min_width: Option<u32>, min_height: Option<u32>) -> (nat, nat) {
    let nw = opt_or_zero(min_width);
    let nh = opt_or_zero(min_height);
    if nw * (src_h as nat) >= nh * (src_w as nat) {
        (nw, src_w as nat)
    } else {
        (nh, src_h as nat)
    }
}

/// Target output dimensions: keep the aspect ratio and only shrink.
///
/// With no bound at all, or an empty source, the source size is kept. Otherwise
/// the scale is the larger of the two requested ratios; at 1 or more the source
/// size is kept, below 1 each side becomes `ceil(side * scale)` kept within
/// `1..=side`.
pub open spec fn spec_target_dimensions(
    src_w: u32,
    src_h: u32,
    min_width: Option<u32>,
    min_height: Option<u32>,
) -> (u32, u32) {
    if src_w == 0 || src_h == 0 || (min_width is None && min_height is None) {
        (src_w, src_h)
    } else {
        let (n, d) = scale_of(src_w, src_h, min_width, min_height);
        if n >= d {
            (src_w, src_h)
        } else {
            (
                clamp_nat(ceil_mul_div(src_w as nat, n, d), 1, src_w as nat) as u32,
                clamp_nat(ceil_mul_div(src_h as nat, n, d), 1, src_h as nat) as u32,
            )
        }
    }
}

proof fn lemma_ceil_mul_div_bounds(a: nat, n: nat, d: nat)
    requires
        d > 0,
        n < d,
    ensures
        ceil_mul_div(a, n, d) <= a,
        ceil_mul_div(a, n, d) * d >= a * n,
{
    let c = ceil_mul_div(a, n, d);
    assert(a * n <= a * d) by (nonlinear_arith)
        requires n < d;
    assert((a * n + d - 1) / (d as int) <= a) by (nonlinear_arith)
        requires a * n <= a * d, d > 0, n < d;
    assert(((a * n + d - 1) / (d as int)) * d >= a * n) by (nonlinear_arith)
        requires d > 0;
}

fn ceil_mul_div_exec(a: u32, n: u32, d: u32) -> (res: u32)
    requires
        d > 0,
        n < d,
    ensures
        res as nat == ceil_mul_div(a as nat, n as nat, d as nat),
{
    proof {
        lemma_ceil_mul_div_bounds(a as nat, n as nat, d as nat);
        assert((a as nat) * (n as nat) <= 0xffff_ffffnat * 0xffff_ffffnat) by (nonlinear_arith);
    }
    let prod: u64 = (a as u64) * (n as u64);
    let q: u64 = (prod + (d as u64) - 1) / (d as u64);
    q as u32
}

/// Target dimensions for an optional lower bound on the output size: keeps
/// the aspect ratio, shrinks only, never upscales.
///
/// The scale and the rounding up are exact rational arithmetic; a
/// floating-point computation of the same formula can round a side to one
/// pixel more (for example 25 x 1 with a minimum width of 7 gives 7 here).
pub fn compute_target_dimensions(
    src_w: u32,
    src_h: u32,
    min_width: Option<u32>,
    min_height: Option<u32>,
) -> (res: (u32, u32))
    ensures
        res == spec_target_dimensions(src_w, src_h, min_width, min_height),
{
    if src_w == 0 || src_h == 0 {
        return (src_w, src_h);
    }
    if min_width.is_none() && min_height.is_none() {
        return (src_w, src_h);
    }
    let nw: u32 = match min_width {
        Some(v) => v,
        None => 0,
    };
    let nh: u32 = match min_height {
        Some(v) => v,
        None => 0,
    };
    proof {
        assert((nw as nat) * (src_h as nat) <= 0xffff_ffffnat * 0xffff_ffffnat) by (nonlinear_arith);
        assert((nh as nat) * (src_w as nat) <= 0xffff_ffffnat * 0xffff_ffffnat) by (nonlinear_arith);
    }
    let (n, d) = if (nw as u64) * (src_h as u64) >= (nh as u64) * (src_w as u64) {
        (nw, src_w)
    } else {
        (nh, src_h)
    };
    if n >= d {
        return (src_w, src_h);
    }
    let cw = ceil_mul_div_exec(src_w, n, d);
    let ch = ceil_mul_div_exec(src_h, n, d);
    let dst_w = if cw < 1 { 1 } else if cw > src_w { src_w } else { cw };
    let dst_h = if ch < 1 { 1 } else if ch > src_h { src_h } else { ch };
    (dst_w, dst_h)
}

/// Target dimensions never exceed the source, are positive for a non-empty
/// source, and meet each requested lower bound as far as the source allows.
pub proof fn lemma_target_dimensions_bounds(
    src_w: u32,
    src_h: u32,
    min_width: Option<u32>,
    min_height: Option<u32>,
)
    ensures
        spec_target_dimensions(src_w, src_h, min_width, min_height).0 <= src_w,
        spec_target_dimensions(src_w, src_h, min_width, min_height).1 <= src_h,
        src_w > 0 && src_h > 0 ==> spec_target_dimensions(src_w, src_h, min_width, min_height).0 >= 1
            && spec_target_dimensions(src_w, src_h, min_width, min_height).1 >= 1,
        min_width matches Some(m) ==> spec_target_dimensions(src_w, src_h, min_width, min_height).0
            >= if m <= src_w { m } else { src_w },
        min_height matches Some(m) ==> spec_target_dimensions(src_w, src_h, min_width, min_height).1
            >= if m <= src_h { m } else { src_h },
{
    if src_w == 0 || src_h == 0 || (min_width is None && min_height is None) {
    } else {
        let (n, d) = scale_of(src_w, src_h, min_width, min_height);
        if n < d {
            lemma_ceil_mul_div_bounds(src_w as nat, n, d);
            lemma_ceil_mul_div_bounds(src_h as nat, n, d);
            let nw = opt_or_zero(min_width);
            let nh = opt_or_zero(min_height);
            let cw = ceil_mul_div(src_w as nat, n, d);
            let ch = ceil_mul_div(src_h as nat, n, d);
            // each side is at least side * (its own requested ratio)
            if nw * (src_h as nat) >= nh * (src_w as nat) {
                assert(n == nw && d == src_w as nat);
                assert(cw * d >= (src_w as nat) * n);
                assert(cw >= nw) by (nonlinear_arith)
                    requires cw * d >= (d as nat) * n, n == nw, d > 0;
                assert(ch * (src_w as nat) >= (src_h as nat) * nw);
                assert(ch >= nh) by (nonlinear_arith)
                    requires ch * (src_w as nat) >= (src_h as nat) * nw,
                        nw * (src_h as nat) >= nh * (src_w as nat), src_w > 0;
            } else {
                assert(n == nh && d == src_h as nat);
                assert(ch >= nh) by (nonlinear_arith)
                    requires ch * d >= (d as nat) * n, n == nh, d > 0;
                assert(cw * (src_h as nat) >= (src_w as nat) * nh);
                assert(cw >= nw) by (nonlinear_arith)
                    requires cw * (src_h as nat) >= (src_w as nat) * nh,
                        nw * (src_h as nat) < nh * (src_w as nat), src_h > 0;
            }
        } else {
            let nw = opt_or_zero(min_width);
            let nh = opt_or_zero(min_height);
        }
    }
}

} // verus!
