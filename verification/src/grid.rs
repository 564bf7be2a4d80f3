use vstd::prelude::*;
use vstd::arithmetic::div_mod::lemma_fundamental_div_mod_converse;

verus! {

/// Row-major position of pixel `(x, y)` in a grid `w` pixels wide.
pub open spec fn cell(x: int, y: int, w: int) -> int {
    y * w + x
}

/// Splitting a row-major byte index of a grid with `k` bytes per pixel back
/// into pixel column, row and channel.
pub proof fn lemma_cell_decompose(x: int, y: int, w: int, k: int, c: int)
    requires
        0 <= x < w,
        0 <= y,
        0 <= c < k,
    ensures
        (cell(x, y, w) * k + c) / k == cell(x, y, w),
        (cell(x, y, w) * k + c) % k == c,
        cell(x, y, w) / w == y,
        cell(x, y, w) % w == x,
{
    lemma_fundamental_div_mod_converse(cell(x, y, w) * k + c, k, cell(x, y, w), c);
    lemma_fundamental_div_mod_converse(cell(x, y, w), w, y, x);
}

/// A pixel inside a `w x h` grid has its bytes inside the grid's buffer.
pub proof fn lemma_cell_in_bounds(x: int, y: int, w: int, h: int, k: int, c: int)
    requires
        0 <= x < w,
        0 <= y < h,
        0 <= c < k,
    ensures
        0 <= cell(x, y, w),
        cell(x, y, w) < w * h,
        0 <= cell(x, y, w) * k + c,
        cell(x, y, w) * k + c < w * h * k,
{
    assert(0 <= y * w) by (nonlinear_arith)
        requires 0 <= y, 0 <= w;
    assert(y * w + x < w * h) by (nonlinear_arith)
        requires 0 <= x < w, 0 <= y < h;
    assert((y * w + x) * k + c < w * h * k) by (nonlinear_arith)
        requires y * w + x < w * h, 0 <= c < k, 0 <= y * w + x;
    assert(0 <= (y * w + x) * k) by (nonlinear_arith)
        requires 0 <= y * w + x, 0 <= k;
}

/// Every index below `w * h * k` is the byte of some pixel and channel.
pub proof fn lemma_index_split(i: int, w: int, h: int, k: int)
    requires
        0 <= i < w * h * k,
        w > 0,
        k > 0,
    ensures
        0 <= (i / k) % w < w,
        0 <= (i / k) / w < h,
        0 <= i % k < k,
        i == cell((i / k) % w, (i / k) / w, w) * k + i % k,
{
    let p = i / k;
    let c = i % k;
    assert(i == p * k + c) by (nonlinear_arith)
        requires k > 0, p == i / k, c == i % k;
    assert(0 <= c < k);
    assert(0 <= p);
    assert(p < w * h) by (nonlinear_arith)
        requires i < w * h * k, i == p * k + c, 0 <= c, k > 0, 0 <= p;
    let x = p % w;
    let y = p / w;
    assert(p == y * w + x) by (nonlinear_arith)
        requires w > 0, x == p % w, y == p / w;
    assert(0 <= x < w);
    assert(0 <= y);
    assert(y < h) by (nonlinear_arith)
        requires p == y * w + x, p < w * h, 0 <= x, w > 0, 0 <= y;
}

} // verus!
