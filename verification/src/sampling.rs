//! What sampling amounts to where arithmetic is exact.
use crate::exact::{
    fraction, is_exact, law_formulas_are_exact, lemma_bilinear, lemma_distribute, lemma_fraction,
    lemma_one, lemma_swap,
};
use crate::formulas::{
    bilinear_expr, difference, gauss_expr, is_cell, position_expr, product, Expr, Formulas, Scalar,
};
use crate::grid::{lemma_join_index, lemma_split_index, lesser};
use crate::image::{
    is_bilinear, is_blurred_columns, is_blurred_rows, is_column_tap, is_downsampled,
    is_gaussian_blurred, is_row_tap, is_sample, is_sample_at_double, is_thinned,
};
use crate::numerics::Numerics;
use vstd::prelude::*;

verus! {

/// `x`, kept between the first and the last of `n` positions.
pub open spec fn inside(x: real, n: int) -> real {
    if x < (0 as real) {
        0 as real
    } else if x > (n - 1) as real {
        (n - 1) as real
    } else {
        x
    }
}

/// A clamped position falls into a cell of the grid, and the fraction is what
/// lies beyond it.
pub proof fn lemma_cell<S: Scalar>(
    s: &S,
    val: spec_fn(S::T) -> real,
    p: S::T,
    n: usize,
    i: usize,
    f: S::T,
)
    requires
        is_exact(s, val),
        n > 0,
        is_cell(s, position_expr(p, n), i, f),
    ensures
        i < n,
        i as real + val(f) == inside(val(p), n as int),
        (0 as real) <= val(f) < (1 as real),
{
    let e = position_expr(p, n);
    let c = choose|c: S::T|
        {
            &&& e.gives(s, c)
            &&& #[trigger] call_ensures(S::whole, (s, c), i)
            &&& difference(Expr::Given(c), Expr::Index(i)).gives(s, f)
        };
    law_formulas_are_exact(s, val, e, c);
    law_formulas_are_exact(
        s,
        val,
        difference(Expr::Given(c), Expr::Index(i)),
        f,
    );
    lemma_fraction(0, 1);
    lemma_fraction(1, 1);
    lemma_one(fraction(1, 1));
    assert(e.exact(val) == inside(val(p), n as int)) by {
        reveal_with_fuel(Expr::exact, 5);
    }
    assert(difference(Expr::Given(c), Expr::Index(i)).exact(val) == val(c)
        - i as real) by {
        reveal_with_fuel(Expr::exact, 3);
    }
}

/// `a (1 - f) + b f`.
pub open spec fn mixed(a: real, b: real, f: real) -> real {
    a * ((1 as real) - f) + b * f
}

proof fn lemma_nonnegative(x: real, y: real)
    by (nonlinear_arith)
    requires
        x >= (0 as real),
        y >= (0 as real),
    ensures
        x * y >= (0 as real),
{
}

/// A weight that is not negative keeps the order.
pub(crate) proof fn lemma_weighed(lo: real, v: real, hi: real, weight: real)
    requires
        lo <= v <= hi,
        weight >= (0 as real),
    ensures
        lo * weight <= v * weight <= hi * weight,
{
    lemma_nonnegative(weight, v - lo);
    lemma_nonnegative(weight, hi - v);
    lemma_distribute(weight, v, lo);
    lemma_distribute(weight, hi, v);
    lemma_swap(weight, v);
    lemma_swap(weight, lo);
    lemma_swap(weight, hi);
}

proof fn lemma_mixed(lo: real, a: real, b: real, hi: real, f: real)
    requires
        lo <= a <= hi,
        lo <= b <= hi,
        (0 as real) <= f <= (1 as real),
    ensures
        lo <= mixed(a, b, f) <= hi,
{
    let one = 1 as real;
    lemma_weighed(lo, a, hi, one - f);
    lemma_weighed(lo, b, hi, f);
    lemma_distribute(lo, one - f, f);
    lemma_distribute(hi, one - f, f);
    lemma_one(lo);
    lemma_one(hi);
}

/// The cells and fractions that a sample is mixed from.
pub struct Spot<T> {
    pub cx: usize,
    pub fx: T,
    pub cy: usize,
    pub fy: T,
}

/// A sample is mixed from the four cells about the clamped position.
pub open spec fn is_spot<S: Scalar>(
    val: spec_fn(S::T) -> real,
    data: Seq<S::T>,
    w: usize,
    h: usize,
    px: S::T,
    py: S::T,
    out: S::T,
    t: Spot<S::T>,
) -> bool {
    let (x0, y0) = (t.cx as int, t.cy as int);
    let (x1, y1) = (lesser(x0 + 1, w - 1), lesser(y0 + 1, h - 1));
    let (x, y) = (val(t.fx), val(t.fy));
    &&& t.cx < w
    &&& t.cy < h
    &&& (0 as real) <= x < (1 as real)
    &&& (0 as real) <= y < (1 as real)
    &&& x0 as real + x == inside(val(px), w as int)
    &&& y0 as real + y == inside(val(py), h as int)
    &&& val(out) == mixed(
        mixed(val(data[y0 * w + x0]), val(data[y0 * w + x1]), x),
        mixed(val(data[y1 * w + x0]), val(data[y1 * w + x1]), x),
        y,
    )
}

pub(crate) proof fn lemma_spot<S: Scalar>(
    k: &Formulas<S>,
    val: spec_fn(S::T) -> real,
    data: Seq<S::T>,
    w: usize,
    h: usize,
    px: S::T,
    py: S::T,
    out: S::T,
) -> (t: Spot<S::T>)
    requires
        is_exact(&k.0, val),
        w > 0,
        h > 0,
        is_sample(k, data, w, h, px, py, out),
    ensures
        is_spot::<S>(val, data, w, h, px, py, out, t),
{
    let (cx, fx, cy, fy) = choose|cx: usize, fx: S::T, cy: usize, fy: S::T|
        call_ensures(Formulas::<S>::cell, (k, px, w), (cx, fx)) && call_ensures(
            Formulas::<S>::cell,
            (k, py, h),
            (cy, fy),
        ) && #[trigger] is_bilinear(k, data, w, h, cx, cy, fx, fy, out);
    lemma_cell(&k.0, val, px, w, cx, fx);
    lemma_cell(&k.0, val, py, h, cy, fy);
    let (x1, y1) = (lesser(cx + 1, w - 1), lesser(cy + 1, h - 1));
    let (s00, s10) = (data[cy * w + cx], data[cy * w + x1]);
    let (s01, s11) = (data[y1 * w + cx], data[y1 * w + x1]);
    law_formulas_are_exact(&k.0, val, bilinear_expr(s00, s10, s01, s11, fx, fy), out);
    lemma_bilinear(val, s00, s10, s01, s11, fx, fy);
    Spot { cx, fx, cy, fy }
}

/// At a whole position the sample is that of the cell, up to the last column
/// and row.
pub proof fn law_sample_hits_cells<S: Scalar>(
    k: &Formulas<S>,
    val: spec_fn(S::T) -> real,
    data: Seq<S::T>,
    w: usize,
    h: usize,
    px: S::T,
    py: S::T,
    out: S::T,
    i: int,
    j: int,
)
    requires
        is_exact(&k.0, val),
        is_sample(k, data, w, h, px, py, out),
        0 <= i < w,
        0 <= j < h,
        val(px) == i as real,
        val(py) == j as real,
    ensures
        val(out) == val(data[j * w + i]),
{
    let t = lemma_spot(k, val, data, w, h, px, py, out);
    assert(t.cx == i && t.cy == j);
    let (x1, y1) = (lesser(i + 1, w - 1), lesser(j + 1, h - 1));
    lemma_one(val(data[j * w + i]));
    lemma_one(val(data[j * w + x1]));
    lemma_one(val(data[y1 * w + i]));
    lemma_one(val(data[y1 * w + x1]));
}

/// Positions beyond a border act as the border: two positions that are the same
/// once they are clamped give the same sample.
pub proof fn law_sample_stops_at_border<S: Scalar>(
    k: &Formulas<S>,
    val: spec_fn(S::T) -> real,
    data: Seq<S::T>,
    w: usize,
    h: usize,
    p: (S::T, S::T),
    q: (S::T, S::T),
    at_p: S::T,
    at_q: S::T,
)
    requires
        is_exact(&k.0, val),
        w > 0,
        h > 0,
        is_sample(k, data, w, h, p.0, p.1, at_p),
        is_sample(k, data, w, h, q.0, q.1, at_q),
        inside(val(p.0), w as int) == inside(val(q.0), w as int),
        inside(val(p.1), h as int) == inside(val(q.1), h as int),
    ensures
        val(at_p) == val(at_q),
{
    let t = lemma_spot(k, val, data, w, h, p.0, p.1, at_p);
    let u = lemma_spot(k, val, data, w, h, q.0, q.1, at_q);
    assert(t.cx == u.cx && t.cy == u.cy);
}

/// A sample lies between the least and the greatest value of the image.
pub proof fn law_sample_stays_in_range<S: Scalar>(
    k: &Formulas<S>,
    val: spec_fn(S::T) -> real,
    data: Seq<S::T>,
    w: usize,
    h: usize,
    px: S::T,
    py: S::T,
    out: S::T,
    lo: real,
    hi: real,
)
    requires
        is_exact(&k.0, val),
        w > 0,
        h > 0,
        data.len() == w * h,
        is_sample(k, data, w, h, px, py, out),
        forall|i: int| 0 <= i < data.len() ==> lo <= val(#[trigger] data[i]) <= hi,
    ensures
        lo <= val(out) <= hi,
{
    let t = lemma_spot(k, val, data, w, h, px, py, out);
    let (x0, y0) = (t.cx as int, t.cy as int);
    let (x1, y1) = (lesser(x0 + 1, w - 1), lesser(y0 + 1, h - 1));
    lemma_join_index(x0, y0, w as int, h as int);
    lemma_join_index(x1, y0, w as int, h as int);
    lemma_join_index(x0, y1, w as int, h as int);
    lemma_join_index(x1, y1, w as int, h as int);
    let (s00, s10) = (val(data[y0 * w + x0]), val(data[y0 * w + x1]));
    let (s01, s11) = (val(data[y1 * w + x0]), val(data[y1 * w + x1]));
    let (x, y) = (val(t.fx), val(t.fy));
    lemma_mixed(lo, s00, s10, hi, x);
    lemma_mixed(lo, s01, s11, hi, x);
    lemma_mixed(lo, mixed(s00, s10, x), mixed(s01, s11, x), hi, y);
}

proof fn lemma_gauss<S: Scalar>(
    k: &Formulas<S>,
    val: spec_fn(S::T) -> real,
    a: (S::T, S::T, S::T, S::T, S::T),
    b: (S::T, S::T, S::T, S::T, S::T),
    x: S::T,
    y: S::T,
)
    requires
        is_exact(&k.0, val),
        call_ensures(Formulas::<S>::gauss5, (k, a.0, a.1, a.2, a.3, a.4), x),
        call_ensures(Formulas::<S>::gauss5, (k, b.0, b.1, b.2, b.3, b.4), y),
        val(a.0) == val(b.0),
        val(a.1) == val(b.1),
        val(a.2) == val(b.2),
        val(a.3) == val(b.3),
        val(a.4) == val(b.4),
    ensures
        val(x) == val(y),
{
    let e = gauss_expr(a.0, a.1, a.2, a.3, a.4);
    let f = gauss_expr(b.0, b.1, b.2, b.3, b.4);
    law_formulas_are_exact(&k.0, val, e, x);
    law_formulas_are_exact(&k.0, val, f, y);
    assert(e.exact(val) == f.exact(val)) by {
        reveal_with_fuel(Expr::exact, 8);
    }
}

/// The blurred image holds one value in every cell.
proof fn lemma_blurred_values<S: Scalar>(
    k: &Formulas<S>,
    val: spec_fn(S::T) -> real,
    src: Seq<S::T>,
    w: int,
    h: int,
    x: Seq<S::T>,
    y: Seq<S::T>,
    i: int,
)
    requires
        is_exact(&k.0, val),
        w >= 0,
        h >= 0,
        is_gaussian_blurred(k, src, w, h, x),
        is_gaussian_blurred(k, src, w, h, y),
        0 <= i < w * h,
    ensures
        val(x[i]) == val(y[i]),
{
    let a = choose|a: Seq<S::T>| #[trigger]
        is_blurred_rows(k, src, w, h, a) && is_blurred_columns(k, a, w, h, x);
    let b = choose|b: Seq<S::T>| #[trigger]
        is_blurred_rows(k, src, w, h, b) && is_blurred_columns(k, b, w, h, y);
    assert forall|j: int| 0 <= j < w * h implies val(#[trigger] a[j]) == val(b[j]) by {
        let (c, r) = (j % w, j / w);
        let from = (
            src[r * w + (if c >= 2 {
                c - 2
            } else {
                0
            })],
            src[r * w + (if c >= 1 {
                c - 1
            } else {
                0
            })],
            src[r * w + c],
            src[r * w + lesser(c + 1, w - 1)],
            src[r * w + lesser(c + 2, w - 1)],
        );
        assert(is_row_tap(k, src, w, c, r, a[j]));
        assert(is_row_tap(k, src, w, c, r, b[j]));
        lemma_gauss(k, val, from, from, a[j], b[j]);
    }
    lemma_split_index(i, w, h);
    let (c, r) = (i % w, i / w);
    let (r0, r1) = (
        if r >= 2 {
            r - 2
        } else {
            0
        },
        if r >= 1 {
            r - 1
        } else {
            0
        },
    );
    let (r3, r4) = (lesser(r + 1, h - 1), lesser(r + 2, h - 1));
    lemma_join_index(c, r0, w, h);
    lemma_join_index(c, r1, w, h);
    lemma_join_index(c, r, w, h);
    lemma_join_index(c, r3, w, h);
    lemma_join_index(c, r4, w, h);
    assert(is_column_tap(k, a, w, h, c, r, x[i]));
    assert(is_column_tap(k, b, w, h, c, r, y[i]));
    lemma_gauss(
        k,
        val,
        (a[r0 * w + c], a[r1 * w + c], a[r * w + c], a[r3 * w + c], a[r4 * w + c]),
        (b[r0 * w + c], b[r1 * w + c], b[r * w + c], b[r3 * w + c], b[r4 * w + c]),
        x[i],
        y[i],
    );
}

/// Halving an image keeps every other cell of every other row of the blurred
/// image.
pub proof fn law_halving_keeps_every_other_cell<S: Scalar>(
    k: &Formulas<S>,
    val: spec_fn(S::T) -> real,
    src: Seq<S::T>,
    w: usize,
    h: usize,
    blurred: Seq<S::T>,
    dst: Seq<S::T>,
)
    requires
        is_exact(&k.0, val),
        is_gaussian_blurred(k, src, w as int, h as int, blurred),
        is_downsampled(k, src, w, h, (w / 2) as usize, (h / 2) as usize, dst),
    ensures
        holds_every_other::<S>(val, blurred, w as int, w as int / 2, h as int / 2, dst),
{
    let (nw, nh) = ((w / 2) as usize, (h / 2) as usize);
    let mid = choose|mid: Seq<S::T>| #[trigger]
        is_gaussian_blurred(k, src, w as int, h as int, mid) && is_thinned(
            k,
            mid,
            w,
            h,
            nw,
            nh,
            dst,
        );
    assert forall|x: int, y: int| 0 <= x < nw && 0 <= y < nh implies val(
        #[trigger] dst[y * nw + x],
    ) == val(blurred[2 * y * w + 2 * x]) by {
        lemma_join_index(x, y, nw as int, nh as int);
        lemma_join_index(2 * x, 2 * y, w as int, h as int);
        let out = dst[y * nw + x];
        assert(is_sample_at_double(k, mid, w, h, x as usize, y as usize, out));
        let (px, py) = choose|px: S::T, py: S::T|
            call_ensures(Formulas::<S>::twice, (k, x as usize), px) && call_ensures(
                Formulas::<S>::twice,
                (k, y as usize),
                py,
            ) && #[trigger] is_sample(k, mid, w, h, px, py, out);
        lemma_twice(k, val, x as usize, px);
        lemma_twice(k, val, y as usize, py);
        law_sample_hits_cells(k, val, mid, w, h, px, py, out, 2 * x, 2 * y);
        let i = 2 * y * w + 2 * x;
        lemma_blurred_values(k, val, src, w as int, h as int, mid, blurred, i);
    }
}

/// `dst`, `nw` by `nh` cells, holds every other cell of every other row of an
/// image `w` cells wide.
pub open spec fn holds_every_other<S: Scalar>(
    val: spec_fn(S::T) -> real,
    src: Seq<S::T>,
    w: int,
    nw: int,
    nh: int,
    dst: Seq<S::T>,
) -> bool {
    forall|x: int, y: int|
        0 <= x < nw && 0 <= y < nh ==> val(#[trigger] dst[y * nw + x]) == val(
            src[2 * y * w + 2 * x],
        )
}

proof fn lemma_twice<S: Scalar>(k: &Formulas<S>, val: spec_fn(S::T) -> real, i: usize, p: S::T)
    requires
        is_exact(&k.0, val),
        call_ensures(Formulas::<S>::twice, (k, i), p),
    ensures
        val(p) == (2 * i) as real,
{
    let e = product(Expr::Index(i), Expr::Const(2, 1));
    law_formulas_are_exact(&k.0, val, e, p);
    lemma_fraction(2, 1);
    lemma_one(fraction(2, 1));
    assert(e.exact(val) == (i as real) * fraction(2, 1)) by {
        reveal_with_fuel(Expr::exact, 3);
    }
}

} // verus!
