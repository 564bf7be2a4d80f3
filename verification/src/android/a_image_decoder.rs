use vstd::prelude::*;

verus! {

/// Tightly packed RGBA rows taken from a buffer whose rows are `stride`
/// bytes apart.
pub open spec fn spec_compact_rgba(buf: Seq<u8>, w: int, h: int, stride: int) -> Seq<u8> {
    let row_bytes = w * 4;
    Seq::new((row_bytes * h) as nat, |i: int| buf[(i / row_bytes) * stride + i % row_bytes])
}

/// When `stride > w * 4`, compact rows so that encoders receive tightly
/// packed RGBA without padding bytes.
pub fn compact_rgba(buf: &[u8], w: u32, h: u32, stride: usize) -> (res: Vec<u8>)
    requires
        h > 0 ==> (h - 1) * stride + w * 4 <= buf@.len(),
        w * 4 <= usize::MAX,
    ensures
        res@ == spec_compact_rgba(buf@, w as int, h as int, stride as int),
{
    let ghost target = spec_compact_rgba(buf@, w as int, h as int, stride as int);
    let ghost rb = w as int * 4;
    proof {
        if h > 0 {
            assert((w as int) * 4 <= buf.len());
        }
    }
    let row_bytes: usize = w as usize * 4;
    let mut out: Vec<u8> = Vec::new();
    let mut row: usize = 0;
    while row < h as usize
        invariant
            row_bytes == rb,
            rb == w * 4,
            h > 0 ==> (h - 1) * stride + w * 4 <= buf@.len(),
            target == spec_compact_rgba(buf@, w as int, h as int, stride as int),
            row <= h,
            out@.len() == row * rb,
            forall|i: int| 0 <= i < out@.len() ==> #[trigger] out@[i] == target[i],
        decreases h - row,
    {
        proof {
            assert(row * stride <= (h - 1) * stride) by (nonlinear_arith)
                requires row <= h - 1;
            assert(row * stride + row_bytes <= buf.len());
        }
        let start = row * stride;
        let mut col: usize = 0;
        while col < row_bytes
            invariant
                row_bytes == rb,
                rb == w * 4,
                row < h,
                start == row * stride,
                start + row_bytes <= buf.len(),
                target == spec_compact_rgba(buf@, w as int, h as int, stride as int),
                col <= row_bytes,
                out@.len() == row * rb + col,
                forall|i: int| 0 <= i < out@.len() ==> #[trigger] out@[i] == target[i],
            decreases row_bytes - col,
        {
            proof {
                let i = row * rb + col;
                assert(i / rb == row && i % rb == col) by {
                    vstd::arithmetic::div_mod::lemma_fundamental_div_mod_converse(i, rb, row as int, col as int);
                }
                assert(i < rb * h) by (nonlinear_arith)
                    requires i == row * rb + col, col < rb, row < h;
                assert(target[i] == buf@[start + col]);
            }
            out.push(buf[start + col]);
            col = col + 1;
        }
        proof {
            assert((row + 1) * rb == row * rb + rb) by (nonlinear_arith);
        }
        row = row + 1;
    }
    proof {
        assert(row * rb == rb * h) by (nonlinear_arith)
            requires row == h;
        assert(out@ =~= target);
    }
    out
}

} // verus!
