//! What one level of motion estimation on the host amounts to where arithmetic is
//! exact, told over pictures.
use crate::boxsum::{
    box_filter, column, is_box_filtered, is_scan, is_window_difference, row, sums_columns,
    sums_rows,
};
use crate::exact::{
    is_exact, law_formulas_are_exact, law_update_solves_normal_equations, lemma_fraction,
    lemma_scale,
};
use crate::formulas::{
    bounded, damped, det_expr, difference, is_less, magnitude, product, raw_u_expr, raw_v_expr,
    sum, Expr, Formulas, Scalar,
};
use crate::grid::lemma_join_index;
use crate::lucas_kanade::{
    is_gradient, is_level_solution, is_mismatch, is_mismatch_at, is_moved, is_product,
    is_refined, is_refinement, is_refinement_run, is_slope_x, is_slope_y, is_tensor,
    is_window_product, lk_level, mismatch, refine, tensor, Tensor,
};
use crate::model::{
    damping, edge, end_of, first_in, is_cell_step, is_excess, is_step, is_steps, is_update,
    is_value_at, on_grid, same_on, slope_x, slope_y, slopes_x, slopes_y, solves, sum_of,
    window_product, window_sum, within_five, Img,
};
use crate::image::{is_sample, FlowField, Gray};
use crate::moving::{lemma_sum_same, lemma_window_same};
use crate::numerics::Numerics;
use crate::reading::{lemma_sample, picture};
use vstd::prelude::*;

verus! {

proof fn lemma_sum_from(f: spec_fn(int) -> real, lo: int, mid: int, hi: int)
    requires
        lo <= mid <= hi,
    ensures
        sum_of(f, lo, hi) == sum_of(f, lo, mid) + sum_of(f, mid, hi),
    decreases hi - mid,
{
    if mid < hi {
        lemma_sum_from(f, lo, mid, hi - 1);
    }
}

proof fn lemma_plus<S: Scalar>(
    k: &Formulas<S>,
    val: spec_fn(S::T) -> real,
    a: S::T,
    b: S::T,
    out: S::T,
)
    requires
        is_exact(&k.0, val),
        call_ensures(Formulas::<S>::plus, (k, a, b), out),
    ensures
        val(out) == val(a) + val(b),
{
    law_formulas_are_exact(&k.0, val, sum(Expr::Given(a), Expr::Given(b)), out);
    reveal_with_fuel(Expr::exact, 3);
}

proof fn lemma_minus<S: Scalar>(
    k: &Formulas<S>,
    val: spec_fn(S::T) -> real,
    a: S::T,
    b: S::T,
    out: S::T,
)
    requires
        is_exact(&k.0, val),
        call_ensures(Formulas::<S>::minus, (k, a, b), out),
    ensures
        val(out) == val(a) - val(b),
{
    law_formulas_are_exact(&k.0, val, difference(Expr::Given(a), Expr::Given(b)), out);
    reveal_with_fuel(Expr::exact, 3);
}

proof fn lemma_times<S: Scalar>(
    k: &Formulas<S>,
    val: spec_fn(S::T) -> real,
    a: S::T,
    b: S::T,
    out: S::T,
)
    requires
        is_exact(&k.0, val),
        call_ensures(Formulas::<S>::times, (k, a, b), out),
    ensures
        val(out) == val(a) * val(b),
{
    law_formulas_are_exact(&k.0, val, product(Expr::Given(a), Expr::Given(b)), out);
    reveal_with_fuel(Expr::exact, 3);
}

proof fn lemma_running_sums<S: Scalar>(
    k: &Formulas<S>,
    val: spec_fn(S::T) -> real,
    items: Seq<S::T>,
    sums: Seq<S::T>,
    n: int,
)
    requires
        is_exact(&k.0, val),
        is_scan(k, items, sums),
        0 <= n <= items.len(),
    ensures
        val(sums[n]) == sum_of(|i: int| val(items[i]), 0, n),
    decreases n,
{
    if n > 0 {
        lemma_running_sums(k, val, items, sums, n - 1);
        let item = items[n - 1];
        lemma_plus(k, val, sums[n - 1], item, sums[n]);
    } else {
        law_formulas_are_exact(&k.0, val, Expr::Const(0, 1), sums[0]);
        lemma_fraction(0, 1);
    }
}

proof fn lemma_part<S: Scalar>(
    k: &Formulas<S>,
    val: spec_fn(S::T) -> real,
    items: Seq<S::T>,
    sums: Seq<S::T>,
    x: int,
    r: int,
    out: S::T,
)
    requires
        is_exact(&k.0, val),
        is_scan(k, items, sums),
        0 <= x < items.len(),
        0 <= r,
        is_window_difference(k, sums, x, r, out),
    ensures
        val(out) == sum_of(
            |i: int| val(items[i]),
            first_in(x, r),
            end_of(x, r, items.len() as int),
        ),
{
    let lo = first_in(x, r);
    let hi = end_of(x, r, items.len() as int);
    lemma_running_sums(k, val, items, sums, lo);
    lemma_running_sums(k, val, items, sums, hi);
    lemma_minus(k, val, sums[hi], sums[lo], out);
    lemma_sum_from(|i: int| val(items[i]), 0, lo, hi);
}

/// A box-filtered image holds at every cell the sum over the window.
pub(crate) proof fn lemma_window<S: Scalar>(
    k: &Formulas<S>,
    val: spec_fn(S::T) -> real,
    src: Seq<S::T>,
    w: int,
    h: int,
    r: int,
    dst: Seq<S::T>,
    x: int,
    y: int,
)
    requires
        is_exact(&k.0, val),
        is_box_filtered(k, src, w, h, r, dst),
        0 <= r,
        on_grid(x, y, w, h),
    ensures
        val(dst[y * w + x]) == window_sum(picture(val, src, w), w, h, r, x, y),
{
    let p = picture(val, src, w);
    let (rows, mid, cols) = choose|
        rows: Seq<Seq<S::T>>,
        mid: Seq<S::T>,
        cols: Seq<Seq<S::T>>,
    | #[trigger]
        sums_rows(k, src, w, h, r, rows, mid) && #[trigger] sums_columns(
            k,
            mid,
            w,
            h,
            r,
            cols,
            dst,
        );
    let (x0, x1) = (first_in(x, r), end_of(x, r, w));
    let (y0, y1) = (first_in(y, r), end_of(y, r, h));
    lemma_join_index(x, y, w, h);
    let here = dst[y * w + x];
    assert(is_window_difference(k, cols[x], y, r, here));
    assert(is_scan(k, column(mid, w, h, x), cols[x]));
    let col = column(mid, w, h, x);
    lemma_part(k, val, col, cols[x], y, r, here);
    let down = |j: int| val(col[j]);
    let along = |j: int| sum_of(|i: int| p(i, j), x0, x1);
    assert forall|j: int| y0 <= j < y1 implies #[trigger] down(j) == along(j) by {
        lemma_join_index(x, j, w, h);
        let line = row(src, w, j);
        let there = mid[j * w + x];
        assert(is_window_difference(k, rows[j], x, r, there));
        assert(is_scan(k, line, rows[j]));
        lemma_part(k, val, line, rows[j], x, r, there);
        lemma_sum_same(|i: int| val(line[i]), |i: int| p(i, j), x0, x1);
    }
    lemma_sum_same(down, along, y0, y1);
}

/// The box filter sums the square window about every cell, cut off at the edges.
pub proof fn law_box_filter_sums_the_window<S: Scalar>(
    k: &Formulas<S>,
    val: spec_fn(S::T) -> real,
    src: &[S::T],
    w: usize,
    h: usize,
    r: usize,
    dst: Vec<S::T>,
    x: int,
    y: int,
)
    requires
        is_exact(&k.0, val),
        call_ensures(box_filter::<Formulas<S>>, (k, src, w, h, r), dst),
        on_grid(x, y, w as int, h as int),
    ensures
        val(dst@[y * w + x]) == window_sum(
            picture(val, src@, w as int),
            w as int,
            h as int,
            r as int,
            x,
            y,
        ),
{
    box_contract(k, src, w, h, r, dst);
    lemma_window(k, val, src@, w as int, h as int, r as int, dst@, x, y);
}

proof fn box_contract<K: Numerics>(
    k: &K,
    src: &[K::T],
    w: usize,
    h: usize,
    r: usize,
    dst: Vec<K::T>,
)
    requires
        call_ensures(box_filter::<K>, (k, src, w, h, r), dst),
    ensures
        is_box_filtered(k, src@, w as int, h as int, r as int, dst@),
{
}

proof fn lemma_window_product<S: Scalar>(
    k: &Formulas<S>,
    val: spec_fn(S::T) -> real,
    p: Seq<S::T>,
    q: Seq<S::T>,
    w: int,
    h: int,
    r: int,
    out: Seq<S::T>,
    f: Img,
    g: Img,
    x: int,
    y: int,
)
    requires
        is_exact(&k.0, val),
        p.len() == w * h,
        0 <= r,
        is_window_product(k, p, q, w, h, r, out),
        same_on(picture(val, p, w), f, w, h),
        same_on(picture(val, q, w), g, w, h),
        on_grid(x, y, w, h),
    ensures
        val(out[y * w + x]) == window_product(f, g, w, h, r, x, y),
{
    let prod = choose|prod: Seq<S::T>| #[trigger]
        is_product(k, p, q, prod) && is_box_filtered(k, prod, w, h, r, out);
    lemma_window(k, val, prod, w, h, r, out, x, y);
    let a = picture(val, prod, w);
    let b = |i: int, j: int| f(i, j) * g(i, j);
    assert forall|i: int, j: int| on_grid(i, j, w, h) implies #[trigger] a(i, j) == b(i, j) by {
        lemma_join_index(i, j, w, h);
        let n = j * w + i;
        lemma_times(k, val, p[n], q[n], prod[n]);
        assert(picture(val, p, w)(i, j) == f(i, j));
        assert(picture(val, q, w)(i, j) == g(i, j));
    }
    lemma_window_same(a, b, w, h, r, x, y);
}

proof fn lemma_slope<S: Scalar>(
    k: &Formulas<S>,
    val: spec_fn(S::T) -> real,
    ahead: S::T,
    behind: S::T,
    out: S::T,
)
    requires
        is_exact(&k.0, val),
        call_ensures(Formulas::<S>::slope, (k, ahead, behind), out),
    ensures
        val(out) == (val(ahead) - val(behind)) / (2 as real),
{
    let e = product(
        Expr::Const(1, 2),
        difference(Expr::Given(ahead), Expr::Given(behind)),
    );
    law_formulas_are_exact(&k.0, val, e, out);
    lemma_scale(val(ahead) - val(behind), 1, 2);
    reveal_with_fuel(Expr::exact, 4);
}

proof fn lemma_gradient<S: Scalar>(
    k: &Formulas<S>,
    val: spec_fn(S::T) -> real,
    a: Seq<S::T>,
    w: int,
    h: int,
    ix: Seq<S::T>,
    iy: Seq<S::T>,
)
    requires
        is_exact(&k.0, val),
        is_gradient(k, a, w, h, ix, iy),
    ensures
        same_on(picture(val, ix, w), slopes_x(picture(val, a, w), w), w, h),
        same_on(picture(val, iy, w), slopes_y(picture(val, a, w), h), w, h),
{
    let p = picture(val, a, w);
    let (f, g) = (picture(val, ix, w), picture(val, iy, w));
    assert forall|x: int, y: int| on_grid(x, y, w, h) implies #[trigger] f(x, y) == slopes_x(
        p,
        w,
    )(x, y) by {
        lemma_join_index(x, y, w, h);
        assert(is_slope_x(k, a, w, x, y, ix[y * w + x]));
        let (ahead, behind) = (a[y * w + edge(x + 1, w)], a[y * w + edge(x - 1, w)]);
        lemma_slope(k, val, ahead, behind, ix[y * w + x]);
    }
    assert forall|x: int, y: int| on_grid(x, y, w, h) implies #[trigger] g(x, y) == slopes_y(
        p,
        h,
    )(x, y) by {
        lemma_join_index(x, y, w, h);
        assert(is_slope_y(k, a, w, h, x, y, iy[y * w + x]));
        let (ahead, behind) = (a[edge(y + 1, h) * w + x], a[edge(y - 1, h) * w + x]);
        lemma_slope(k, val, ahead, behind, iy[y * w + x]);
    }
}

proof fn lemma_shifted<S: Scalar>(
    k: &Formulas<S>,
    val: spec_fn(S::T) -> real,
    i: usize,
    d: S::T,
    out: S::T,
)
    requires
        is_exact(&k.0, val),
        call_ensures(Formulas::<S>::shifted, (k, i, d), out),
    ensures
        val(out) == (i as real) + val(d),
{
    law_formulas_are_exact(&k.0, val, sum(Expr::Index(i), Expr::Given(d)), out);
    reveal_with_fuel(Expr::exact, 3);
}

proof fn lemma_excess<S: Scalar>(
    k: &Formulas<S>,
    val: spec_fn(S::T) -> real,
    a: Seq<S::T>,
    w: int,
    h: int,
    b: Seq<S::T>,
    bw: usize,
    bh: usize,
    u: Seq<S::T>,
    v: Seq<S::T>,
    diff: Seq<S::T>,
)
    requires
        is_exact(&k.0, val),
        w <= usize::MAX,
        h <= usize::MAX,
        bw > 0,
        bh > 0,
        is_mismatch(k, a, w, h, b, bw, bh, u, v, diff),
    ensures
        is_excess(
            picture(val, a, w),
            picture(val, b, bw as int),
            w,
            h,
            bw as int,
            bh as int,
            picture(val, u, w),
            picture(val, v, w),
            picture(val, diff, w),
        ),
{
    let (pa, pb) = (picture(val, a, w), picture(val, b, bw as int));
    let (pu, pv, pd) = (picture(val, u, w), picture(val, v, w), picture(val, diff, w));
    assert forall|x: int, y: int| on_grid(x, y, w, h) implies is_value_at(
        pb,
        bw as int,
        bh as int,
        (x as real) + pu(x, y),
        (y as real) + pv(x, y),
        pa(x, y) + #[trigger] pd(x, y),
    ) by {
        lemma_join_index(x, y, w, h);
        let n = y * w + x;
        let (cx, cy) = (x as usize, y as usize);
        assert(is_mismatch_at(k, b, bw, bh, cx, cy, u[n], v[n], a[n], diff[n]));
        let (px, py, s) = choose|px: S::T, py: S::T, s: S::T|
            call_ensures(Formulas::<S>::shifted, (k, cx, u[n]), px) && call_ensures(
                Formulas::<S>::shifted,
                (k, cy, v[n]),
                py,
            ) && #[trigger] is_sample(k, b, bw, bh, px, py, s) && call_ensures(
                Formulas::<S>::minus,
                (k, s, a[n]),
                diff[n],
            );
        lemma_shifted(k, val, cx, u[n], px);
        lemma_shifted(k, val, cy, v[n], py);
        lemma_minus(k, val, s, a[n], diff[n]);
        lemma_sample(k, val, b, bw, bh, px, py, s);
    }
}

proof fn lemma_update<S: Scalar>(
    k: &Formulas<S>,
    val: spec_fn(S::T) -> real,
    xx: S::T,
    yy: S::T,
    xy: S::T,
    xt: S::T,
    yt: S::T,
    u: S::T,
    v: S::T,
    u2: S::T,
    v2: S::T,
)
    requires
        is_exact(&k.0, val),
        is_moved(k, xx, yy, xy, xt, yt, u, v, u2, v2),
    ensures
        is_update(
            val(xx),
            val(yy),
            val(xy),
            val(xt),
            val(yt),
            val(u2) - val(u),
            val(v2) - val(v),
        ),
{
    let s = &k.0;
    let step = choose|step: Option<(S::T, S::T)>| #[trigger]
        call_ensures(Formulas::<S>::solve, (k, xx, yy, xy, xt, yt), step) && match step {
            None => u2 == u && v2 == v,
            Some(d) => call_ensures(Formulas::<S>::plus, (k, u, d.0), u2) && call_ensures(
                Formulas::<S>::plus,
                (k, v, d.1),
                v2,
            ),
        };
    let (a, d) = (val(xx) + damping(), val(yy) + damping());
    let det = a * d - val(xy) * val(xy);
    let tiny = (1 as real) / (1000000000 as real);
    let (e, t) = (magnitude(det_expr(xx, yy, xy)), Expr::Const(1, 1_000_000_000));
    assert(is_less(s, e, t, step is None));
    let (p, q) = choose|p: S::T, q: S::T|
        e.gives(s, p) && t.gives(s, q) && #[trigger] call_ensures(
            S::less,
            (s, p, q),
            step is None,
        );
    law_formulas_are_exact(s, val, e, p);
    law_formulas_are_exact(s, val, t, q);
    lemma_fraction(1, 1000);
    lemma_fraction(1, 1_000_000_000);
    assert(damped(xx).exact(val) == a && damped(yy).exact(val) == d) by {
        reveal_with_fuel(Expr::exact, 3);
    }
    assert(det_expr(xx, yy, xy).exact(val) == det) by {
        reveal_with_fuel(Expr::exact, 4);
    }
    assert(val(q) == tiny && val(p) == (if det < (0 as real) {
        -det
    } else {
        det
    })) by {
        reveal_with_fuel(Expr::exact, 2);
    }
    assert((step is None) == (-tiny < det < tiny));
    if let Some(m) = step {
        let (eu, ev) = (raw_u_expr(xx, yy, xy, xt, yt), raw_v_expr(xx, yy, xy, xt, yt));
        let (ru, rv) = (eu.exact(val), ev.exact(val));
        law_formulas_are_exact(s, val, bounded(eu), m.0);
        law_formulas_are_exact(s, val, bounded(ev), m.1);
        lemma_within_five(val, eu);
        lemma_within_five(val, ev);
        law_update_solves_normal_equations(val, xx, yy, xy, xt, yt);
        assert(solves(a, val(xy), d, val(xt), val(yt), ru, rv));
        lemma_plus(k, val, u, m.0, u2);
        lemma_plus(k, val, v, m.1, v2);
    }
}

proof fn lemma_within_five<T>(val: spec_fn(T) -> real, e: Expr<T>)
    ensures
        bounded(e).exact(val) == within_five(e.exact(val)),
{
    reveal_with_fuel(Expr::exact, 4);
    lemma_fraction(5, 1);
}

/// One refinement of the motion is one step of the estimate.
pub proof fn law_refinement_is_a_step<S: Scalar>(
    k: &Formulas<S>,
    val: spec_fn(S::T) -> real,
    t: Tensor<S::T>,
    a: Seq<S::T>,
    w: int,
    h: int,
    b: Seq<S::T>,
    bw: usize,
    bh: usize,
    r: int,
    u: Seq<S::T>,
    v: Seq<S::T>,
    u2: Seq<S::T>,
    v2: Seq<S::T>,
)
    requires
        is_exact(&k.0, val),
        w <= usize::MAX,
        h <= usize::MAX,
        bw > 0,
        bh > 0,
        0 <= r,
        is_tensor(k, a, w, h, r, t),
        is_refined(k, t, a, w, h, b, bw, bh, r, u, v, u2, v2),
    ensures
        is_step(
            picture(val, a, w),
            picture(val, b, bw as int),
            w,
            h,
            bw as int,
            bh as int,
            r,
            picture(val, u, w),
            picture(val, v, w),
            picture(val, u2, w),
            picture(val, v2, w),
        ),
{
    let (diff, sxt, syt) = choose|d: Seq<S::T>, p: Seq<S::T>, q: Seq<S::T>| #[trigger]
        is_refinement(k, t, a, w, h, b, bw, bh, r, u, v, d, p, q, u2, v2);
    let p = picture(val, a, w);
    let (pu, pv) = (picture(val, u, w), picture(val, v, w));
    let (pu2, pv2) = (picture(val, u2, w), picture(val, v2, w));
    let d = picture(val, diff, w);
    let (gx, gy) = (slopes_x(p, w), slopes_y(p, h));
    lemma_excess(k, val, a, w, h, b, bw, bh, u, v, diff);
    lemma_gradient(k, val, a, w, h, t.ix@, t.iy@);
    assert forall|x: int, y: int| on_grid(x, y, w, h) implies #[trigger] is_cell_step(
        p,
        d,
        w,
        h,
        r,
        pu,
        pv,
        pu2,
        pv2,
        x,
        y,
    ) by {
        lemma_join_index(x, y, w, h);
        let n = y * w + x;
        lemma_window_product(k, val, t.ix@, t.ix@, w, h, r, t.xx@, gx, gx, x, y);
        lemma_window_product(k, val, t.iy@, t.iy@, w, h, r, t.yy@, gy, gy, x, y);
        lemma_window_product(k, val, t.ix@, t.iy@, w, h, r, t.xy@, gx, gy, x, y);
        lemma_window_product(k, val, t.ix@, diff, w, h, r, sxt, gx, d, x, y);
        lemma_window_product(k, val, t.iy@, diff, w, h, r, syt, gy, d, x, y);
        let moved = u2[n];
        lemma_update(
            k,
            val,
            t.xx@[n],
            t.yy@[n],
            t.xy@[n],
            sxt[n],
            syt[n],
            u[n],
            v[n],
            u2[n],
            v2[n],
        );
    }
}

proof fn lemma_steps<S: Scalar>(
    k: &Formulas<S>,
    val: spec_fn(S::T) -> real,
    t: Tensor<S::T>,
    a: Seq<S::T>,
    w: int,
    h: int,
    b: Seq<S::T>,
    bw: usize,
    bh: usize,
    r: int,
    us: Seq<Seq<S::T>>,
    vs: Seq<Seq<S::T>>,
    n: int,
)
    requires
        is_exact(&k.0, val),
        w <= usize::MAX,
        h <= usize::MAX,
        n > 0 ==> bw > 0 && bh > 0,
        0 <= r,
        is_tensor(k, a, w, h, r, t),
        is_refinement_run(k, t, a, w, h, b, bw, bh, r, us, vs),
        0 <= n < us.len(),
    ensures
        is_steps(
            picture(val, a, w),
            picture(val, b, bw as int),
            w,
            h,
            bw as int,
            bh as int,
            r,
            n,
            picture(val, us[0], w),
            picture(val, vs[0], w),
            picture(val, us[n], w),
            picture(val, vs[n], w),
        ),
    decreases n,
{
    if n > 0 {
        lemma_steps(k, val, t, a, w, h, b, bw, bh, r, us, vs, n - 1);
        let (p, q) = (us[n - 1], vs[n - 1]);
        law_refinement_is_a_step(k, val, t, a, w, h, b, bw, bh, r, p, q, us[n], vs[n]);
    }
}

/// The iterations of a level are as many steps of the estimate.
pub proof fn law_level_is_steps<S: Scalar>(
    k: &Formulas<S>,
    val: spec_fn(S::T) -> real,
    a: Seq<S::T>,
    w: int,
    h: int,
    b: Seq<S::T>,
    bw: usize,
    bh: usize,
    r: int,
    iters: int,
    u: Seq<S::T>,
    v: Seq<S::T>,
    u2: Seq<S::T>,
    v2: Seq<S::T>,
)
    requires
        is_exact(&k.0, val),
        w <= usize::MAX,
        h <= usize::MAX,
        iters > 0 ==> bw > 0 && bh > 0,
        0 <= r,
        0 <= iters,
        is_level_solution(k, a, w, h, b, bw, bh, r, iters, u, v, u2, v2),
    ensures
        is_steps(
            picture(val, a, w),
            picture(val, b, bw as int),
            w,
            h,
            bw as int,
            bh as int,
            r,
            iters,
            picture(val, u, w),
            picture(val, v, w),
            picture(val, u2, w),
            picture(val, v2, w),
        ),
{
    let (t, us, vs) = choose|t: Tensor<S::T>, us: Seq<Seq<S::T>>, vs: Seq<Seq<S::T>>|
        is_tensor(k, a, w, h, r, t) && #[trigger] is_refinement_run(
            k,
            t,
            a,
            w,
            h,
            b,
            bw,
            bh,
            r,
            us,
            vs,
        ) && us.len() == iters + 1 && us[0] == u && vs[0] == v && us[iters] == u2 && vs[iters]
            == v2;
    lemma_steps(k, val, t, a, w, h, b, bw, bh, r, us, vs, iters);
}

proof fn tensor_contract<K: Numerics>(k: &K, a: &Gray<K::T>, r: usize, t: Tensor<K::T>)
    requires
        call_ensures(tensor::<K>, (k, a, r), t),
    ensures
        is_tensor(k, a.data@, a.w as int, a.h as int, r as int, t),
{
}

/// The structure tensor holds the slopes of an image and the sums of their products
/// over the window: those along the rows, those along the columns, and the mixed
/// ones.
pub proof fn law_tensor_sums_the_slopes<S: Scalar>(
    k: &Formulas<S>,
    val: spec_fn(S::T) -> real,
    a: &Gray<S::T>,
    r: usize,
    t: Tensor<S::T>,
    x: int,
    y: int,
)
    requires
        is_exact(&k.0, val),
        call_ensures(tensor::<Formulas<S>>, (k, a, r), t),
        on_grid(x, y, a.w as int, a.h as int),
    ensures
        ({
            let (w, h, n) = (a.w as int, a.h as int, y * a.w + x);
            let p = picture(val, a.data@, w);
            let (gx, gy) = (slopes_x(p, w), slopes_y(p, h));
            &&& val(t.ix@[n]) == slope_x(p, w, x, y)
            &&& val(t.iy@[n]) == slope_y(p, h, x, y)
            &&& val(t.xx@[n]) == window_product(gx, gx, w, h, r as int, x, y)
            &&& val(t.yy@[n]) == window_product(gy, gy, w, h, r as int, x, y)
            &&& val(t.xy@[n]) == window_product(gx, gy, w, h, r as int, x, y)
        }),
{
    tensor_contract(k, a, r, t);
    let (w, h) = (a.w as int, a.h as int);
    let p = picture(val, a.data@, w);
    let (gx, gy) = (slopes_x(p, w), slopes_y(p, h));
    lemma_gradient(k, val, a.data@, w, h, t.ix@, t.iy@);
    lemma_window_product(k, val, t.ix@, t.ix@, w, h, r as int, t.xx@, gx, gx, x, y);
    lemma_window_product(k, val, t.iy@, t.iy@, w, h, r as int, t.yy@, gy, gy, x, y);
    lemma_window_product(k, val, t.ix@, t.iy@, w, h, r as int, t.xy@, gx, gy, x, y);
    let (f, g) = (picture(val, t.ix@, w), picture(val, t.iy@, w));
    assert(f(x, y) == gx(x, y));
    assert(g(x, y) == gy(x, y));
}

proof fn mismatch_contract<K: Numerics>(
    k: &K,
    a: &Gray<K::T>,
    b: &Gray<K::T>,
    flow: &FlowField<K::T>,
    diff: Vec<K::T>,
)
    requires
        call_ensures(mismatch::<K>, (k, a, b, flow), diff),
    ensures
        is_mismatch(
            k,
            a.data@,
            a.w as int,
            a.h as int,
            b.data@,
            b.w,
            b.h,
            flow.u@,
            flow.v@,
            diff@,
        ),
{
}

/// The mismatch is how much the second image, taken where the motion leads, exceeds
/// the first.
pub proof fn law_mismatch_is_the_excess<S: Scalar>(
    k: &Formulas<S>,
    val: spec_fn(S::T) -> real,
    a: &Gray<S::T>,
    b: &Gray<S::T>,
    flow: &FlowField<S::T>,
    diff: Vec<S::T>,
)
    requires
        is_exact(&k.0, val),
        b.w > 0,
        b.h > 0,
        call_ensures(mismatch::<Formulas<S>>, (k, a, b, flow), diff),
    ensures
        is_excess(
            picture(val, a.data@, a.w as int),
            picture(val, b.data@, b.w as int),
            a.w as int,
            a.h as int,
            b.w as int,
            b.h as int,
            picture(val, flow.u@, a.w as int),
            picture(val, flow.v@, a.w as int),
            picture(val, diff@, a.w as int),
        ),
{
    mismatch_contract(k, a, b, flow, diff);
    lemma_excess(
        k,
        val,
        a.data@,
        a.w as int,
        a.h as int,
        b.data@,
        b.w,
        b.h,
        flow.u@,
        flow.v@,
        diff@,
    );
}

proof fn refine_contract<K: Numerics>(
    k: &K,
    t: &Tensor<K::T>,
    a: &Gray<K::T>,
    b: &Gray<K::T>,
    flow: &mut FlowField<K::T>,
    r: usize,
)
    requires
        call_ensures(refine::<K>, (k, t, a, b, flow, r), ()),
    ensures
        is_refined(
            k,
            *t,
            a.data@,
            a.w as int,
            a.h as int,
            b.data@,
            b.w,
            b.h,
            r as int,
            old(flow).u@,
            old(flow).v@,
            final(flow).u@,
            final(flow).v@,
        ),
{
}

/// A refinement in place, by the tensor of the first image, is one step of the
/// estimate from what was there to what is there.
pub proof fn law_refining_takes_a_step<S: Scalar>(
    k: &Formulas<S>,
    val: spec_fn(S::T) -> real,
    t: &Tensor<S::T>,
    a: &Gray<S::T>,
    b: &Gray<S::T>,
    flow: &mut FlowField<S::T>,
    r: usize,
)
    requires
        is_exact(&k.0, val),
        b.w > 0,
        b.h > 0,
        is_tensor(k, a.data@, a.w as int, a.h as int, r as int, *t),
        call_ensures(refine::<Formulas<S>>, (k, t, a, b, flow, r), ()),
    ensures
        is_step(
            picture(val, a.data@, a.w as int),
            picture(val, b.data@, b.w as int),
            a.w as int,
            a.h as int,
            b.w as int,
            b.h as int,
            r as int,
            picture(val, old(flow).u@, a.w as int),
            picture(val, old(flow).v@, a.w as int),
            picture(val, final(flow).u@, a.w as int),
            picture(val, final(flow).v@, a.w as int),
        ),
{
    refine_contract(k, t, a, b, flow, r);
    law_refinement_is_a_step(
        k,
        val,
        *t,
        a.data@,
        a.w as int,
        a.h as int,
        b.data@,
        b.w,
        b.h,
        r as int,
        old(flow).u@,
        old(flow).v@,
        final(flow).u@,
        final(flow).v@,
    );
}

proof fn level_contract<K: Numerics>(
    k: &K,
    a: &Gray<K::T>,
    b: &Gray<K::T>,
    flow: &mut FlowField<K::T>,
    win_r: usize,
    iters: usize,
)
    requires
        call_ensures(lk_level::<K>, (k, a, b, flow, win_r, iters), ()),
    ensures
        is_level_solution(
            k,
            a.data@,
            a.w as int,
            a.h as int,
            b.data@,
            b.w,
            b.h,
            win_r as int,
            iters as int,
            old(flow).u@,
            old(flow).v@,
            final(flow).u@,
            final(flow).v@,
        ),
{
}

/// One level of motion estimation in place takes as many steps as it was asked for.
pub proof fn law_level_takes_its_steps<S: Scalar>(
    k: &Formulas<S>,
    val: spec_fn(S::T) -> real,
    a: &Gray<S::T>,
    b: &Gray<S::T>,
    flow: &mut FlowField<S::T>,
    win_r: usize,
    iters: usize,
)
    requires
        is_exact(&k.0, val),
        b.w > 0,
        b.h > 0,
        call_ensures(lk_level::<Formulas<S>>, (k, a, b, flow, win_r, iters), ()),
    ensures
        is_steps(
            picture(val, a.data@, a.w as int),
            picture(val, b.data@, b.w as int),
            a.w as int,
            a.h as int,
            b.w as int,
            b.h as int,
            win_r as int,
            iters as int,
            picture(val, old(flow).u@, a.w as int),
            picture(val, old(flow).v@, a.w as int),
            picture(val, final(flow).u@, a.w as int),
            picture(val, final(flow).v@, a.w as int),
        ),
{
    level_contract(k, a, b, flow, win_r, iters);
    law_level_is_steps(
        k,
        val,
        a.data@,
        a.w as int,
        a.h as int,
        b.data@,
        b.w,
        b.h,
        win_r as int,
        iters as int,
        old(flow).u@,
        old(flow).v@,
        final(flow).u@,
        final(flow).v@,
    );
}

} // verus!
