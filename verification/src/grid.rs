//! Row-major grids: cell `(x, y)` of a grid `w` cells wide sits at index
//! `y * w + x`, and positions beyond an edge fall back to the edge cell.
use vstd::arithmetic::div_mod::{
    lemma_fundamental_div_mod, lemma_fundamental_div_mod_converse, lemma_mod_bound,
};
use vstd::arithmetic::mul::lemma_mul_inequality;
use vstd::prelude::*;

verus! {

/// The smaller of two integers.
pub open spec fn lesser(a: int, b: int) -> int {
    if a <= b {
        a
    } else {
        b
    }
}

/// Every index of a `w` by `h` grid splits into a column and a row, and is
/// recovered from them.
pub proof fn lemma_split_index(i: int, w: int, h: int)
    requires
        0 <= i < w * h,
        0 <= w,
        0 <= h,
    ensures
        0 < w,
        0 < h,
        0 <= i % w < w,
        0 <= i / w < h,
        (i / w) * w + i % w == i,
{
    if w == 0 {
        assert(w * h == 0) by (nonlinear_arith)
            requires
                w == 0,
        ;
    }
    if h == 0 {
        assert(w * h == 0) by (nonlinear_arith)
            requires
                h == 0,
        ;
    }
    lemma_fundamental_div_mod(i, w);
    lemma_mod_bound(i, w);
    assert((i / w) * w + i % w == i) by (nonlinear_arith)
        requires
            i == w * (i / w) + i % w,
    ;
    assert(i / w >= 0) by (nonlinear_arith)
        requires
            0 <= i,
            0 < w,
    ;
    assert(i / w < h) by (nonlinear_arith)
        requires
            i < w * h,
            i == w * (i / w) + i % w,
            0 <= i % w,
            0 < w,
    ;
}

/// A column and a row inside a `w` by `h` grid give an index inside it, and
/// are recovered from that index.
pub proof fn lemma_join_index(x: int, y: int, w: int, h: int)
    requires
        0 <= x < w,
        0 <= y < h,
    ensures
        0 <= y * w,
        y * w + x < w * h,
        (y * w + x) % w == x,
        (y * w + x) / w == y,
{
    lemma_mul_inequality(y + 1, h, w);
    assert(y * w + x < w * h && 0 <= y * w) by (nonlinear_arith)
        requires
            0 <= x < w,
            0 <= y,
            (y + 1) * w <= h * w,
    ;
    lemma_fundamental_div_mod_converse(y * w + x, w, y, x);
}

/// `x - d`, or the first position where that would be negative.
pub fn back(x: usize, d: usize) -> (r: usize)
    ensures
        r == (if x >= d {
            x - d
        } else {
            0
        }),
{
    if x >= d {
        x - d
    } else {
        0
    }
}

/// `x + d`, or the last of `n` positions where that lies beyond it.
pub fn ahead(x: usize, d: usize, n: usize) -> (r: usize)
    requires
        x < n,
    ensures
        r == lesser(x + d, n - 1),
{
    if d <= n - 1 - x {
        x + d
    } else {
        n - 1
    }
}

/// The index of cell `(x, y)`.
pub fn index(x: usize, y: usize, w: usize, h: usize) -> (i: usize)
    requires
        x < w,
        y < h,
        w * h <= usize::MAX,
    ensures
        i == y * w + x,
        i < w * h,
{
    proof {
        lemma_join_index(x as int, y as int, w as int, h as int);
    }
    y * w + x
}

} // verus!
