//! What the estimated motion says: equal pictures do not move, a picture without
//! any detail does not move, and a picture that is brighter on one side moves
//! to that side where its neighbour is darker.
use crate::exact::{lemma_cancel, lemma_distribute, lemma_one, lemma_regroup, lemma_swap};
use crate::levels::level_side;
use crate::model::{
    coarse_cell, coarse_part, damping, edge, first_in, end_of, four, is_cell_of, is_cell_step,
    is_excess, is_filtered, is_lift, is_middle_of, is_motion_at, is_smooth_motion, is_step,
    is_steps, is_update, is_value_at, kept_on, mix, on_grid, same_on, slope_x, slope_y, slopes_x,
    slopes_y, solves, sum_of, window_product, window_sum, within_five, zero_on, Img,
};
use vstd::prelude::*;

verus! {

pub(crate) proof fn lemma_sum_same(
    f: spec_fn(int) -> real,
    g: spec_fn(int) -> real,
    lo: int,
    hi: int,
)
    requires
        forall|i: int| lo <= i < hi ==> #[trigger] f(i) == g(i),
    ensures
        sum_of(f, lo, hi) == sum_of(g, lo, hi),
    decreases hi - lo,
{
    if lo < hi {
        lemma_sum_same(f, g, lo, hi - 1);
        assert(f(hi - 1) == g(hi - 1));
    }
}

/// A sum has the sign of its terms.
proof fn lemma_sum_sign(f: spec_fn(int) -> real, lo: int, hi: int)
    ensures
        (forall|i: int| lo <= i < hi ==> #[trigger] f(i) == (0 as real)) ==> sum_of(f, lo, hi) == (
        0 as real),
        (forall|i: int| lo <= i < hi ==> #[trigger] f(i) >= (0 as real)) ==> sum_of(f, lo, hi) >= (
        0 as real),
        lo < hi && (forall|i: int| lo <= i < hi ==> #[trigger] f(i) > (0 as real)) ==> sum_of(
            f,
            lo,
            hi,
        ) > (0 as real),
        lo < hi && (forall|i: int| lo <= i < hi ==> #[trigger] f(i) < (0 as real)) ==> sum_of(
            f,
            lo,
            hi,
        ) < (0 as real),
    decreases hi - lo,
{
    if lo < hi {
        lemma_sum_sign(f, lo, hi - 1);
        let last = f(hi - 1);
        if lo == hi - 1 {
            assert(sum_of(f, lo, lo) == (0 as real));
        }
    }
}

/// Windows of pictures that agree have the same sum.
pub(crate) proof fn lemma_window_same(f: Img, g: Img, w: int, h: int, r: int, x: int, y: int)
    requires
        forall|i: int, j: int| on_grid(i, j, w, h) ==> #[trigger] f(i, j) == g(i, j),
        r >= 0,
    ensures
        window_sum(f, w, h, r, x, y) == window_sum(g, w, h, r, x, y),
{
    let (x0, x1) = (first_in(x, r), end_of(x, r, w));
    let (y0, y1) = (first_in(y, r), end_of(y, r, h));
    let p = |j: int| sum_of(|i: int| f(i, j), x0, x1);
    let q = |j: int| sum_of(|i: int| g(i, j), x0, x1);
    assert forall|j: int| y0 <= j < y1 implies #[trigger] p(j) == q(j) by {
        lemma_sum_same(|i: int| f(i, j), |i: int| g(i, j), x0, x1);
    }
    lemma_sum_same(p, q, y0, y1);
}

/// The sum over a window has the sign of what is summed.
proof fn lemma_window_sign(f: Img, w: int, h: int, r: int, x: int, y: int)
    requires
        r >= 0,
        on_grid(x, y, w, h),
    ensures
        (forall|i: int, j: int| on_grid(i, j, w, h) ==> #[trigger] f(i, j) == (0 as real))
            ==> window_sum(f, w, h, r, x, y) == (0 as real),
        (forall|i: int, j: int| on_grid(i, j, w, h) ==> #[trigger] f(i, j) >= (0 as real))
            ==> window_sum(f, w, h, r, x, y) >= (0 as real),
        (forall|i: int, j: int| on_grid(i, j, w, h) ==> #[trigger] f(i, j) > (0 as real))
            ==> window_sum(f, w, h, r, x, y) > (0 as real),
        (forall|i: int, j: int| on_grid(i, j, w, h) ==> #[trigger] f(i, j) < (0 as real))
            ==> window_sum(f, w, h, r, x, y) < (0 as real),
{
    let (x0, x1) = (first_in(x, r), end_of(x, r, w));
    let (y0, y1) = (first_in(y, r), end_of(y, r, h));
    let p = |j: int| sum_of(|i: int| f(i, j), x0, x1);
    assert forall|j: int| y0 <= j < y1 implies {
        &&& (forall|i: int, k: int| on_grid(i, k, w, h) ==> #[trigger] f(i, k) == (0 as real))
            ==> #[trigger] p(j) == (0 as real)
        &&& (forall|i: int, k: int| on_grid(i, k, w, h) ==> #[trigger] f(i, k) >= (0 as real))
            ==> p(j) >= (0 as real)
        &&& (forall|i: int, k: int| on_grid(i, k, w, h) ==> #[trigger] f(i, k) > (0 as real))
            ==> p(j) > (0 as real)
        &&& (forall|i: int, k: int| on_grid(i, k, w, h) ==> #[trigger] f(i, k) < (0 as real))
            ==> p(j) < (0 as real)
    } by {
        lemma_sum_sign(|i: int| f(i, j), x0, x1);
    }
    lemma_sum_sign(p, y0, y1);
}

/// At a cell of the grid a picture has the value of the cell.
pub(crate) proof fn lemma_value_at_cell(
    a: Img,
    w: int,
    h: int,
    px: real,
    py: real,
    x: int,
    y: int,
    out: real,
)
    requires
        on_grid(x, y, w, h),
        px == (x as real),
        py == (y as real),
        is_value_at(a, w, h, px, py, out),
    ensures
        out == a(x, y),
{
    let (i, j) = choose|i: int, j: int| #[trigger]
        is_cell_of(i, px, w) && #[trigger] is_cell_of(j, py, h) && out == four(
            a,
            w,
            h,
            i,
            j,
            kept_on(px, w) - (i as real),
            kept_on(py, h) - (j as real),
        );
    assert(kept_on(px, w) == (x as real));
    assert(kept_on(py, h) == (y as real));
    assert(i == x && j == y);
    let (xr, yb) = (edge(x + 1, w), edge(y + 1, h));
    lemma_one(a(x, y));
    lemma_one(a(xr, y));
    lemma_one(a(x, yb));
    lemma_one(a(xr, yb));
}

/// A picture has one value at every position.
pub proof fn law_a_picture_has_one_value(
    a: Img,
    w: int,
    h: int,
    px: real,
    py: real,
    x: real,
    y: real,
)
    requires
        is_value_at(a, w, h, px, py, x),
        is_value_at(a, w, h, px, py, y),
    ensures
        x == y,
{
    let (i, j) = choose|i: int, j: int| #[trigger]
        is_cell_of(i, px, w) && #[trigger] is_cell_of(j, py, h) && x == four(
            a,
            w,
            h,
            i,
            j,
            kept_on(px, w) - (i as real),
            kept_on(py, h) - (j as real),
        );
    let (k, l) = choose|i: int, j: int| #[trigger]
        is_cell_of(i, px, w) && #[trigger] is_cell_of(j, py, h) && y == four(
            a,
            w,
            h,
            i,
            j,
            kept_on(px, w) - (i as real),
            kept_on(py, h) - (j as real),
        );
    assert(i == k && j == l);
}

/// Without an excess there is nothing to explain.
proof fn lemma_no_excess(a: real, b: real, d: real, p: real, q: real)
    requires
        solves(a, b, d, 0 as real, 0 as real, p, q),
        a * d - b * b != (0 as real),
    ensures
        p == (0 as real),
        q == (0 as real),
{
    lemma_eliminated(a, b, d, p, q);
    lemma_swap(a, d);
    lemma_swap(a * p, b * q);
    lemma_eliminated(d, b, a, q, p);
    lemma_one(a * d - b * b);
    lemma_swap(a * d - b * b, 0 as real);
    lemma_cancel(p, 0 as real, a * d - b * b);
    lemma_cancel(q, 0 as real, a * d - b * b);
}

proof fn lemma_eliminated(a: real, b: real, d: real, p: real, q: real)
    requires
        a * p + b * q == (0 as real),
        b * p + d * q == (0 as real),
    ensures
        p * (a * d - b * b) == (0 as real),
{
    lemma_distribute(d, a * p, b * q);
    lemma_distribute(b, b * p, d * q);
    lemma_one(d);
    lemma_one(b);
    lemma_regroup(d, a, p);
    lemma_regroup(b, b, p);
    lemma_regroup(d, b, q);
    lemma_regroup(b, d, q);
    lemma_swap(d, b);
    lemma_swap(d, a);
    lemma_distribute(p, a * d, b * b);
    lemma_swap(p, a * d);
    lemma_swap(p, b * b);
}

/// Where nothing is to be explained, nothing moves.
proof fn lemma_no_update(xx: real, yy: real, xy: real, du: real, dv: real)
    requires
        is_update(xx, yy, xy, 0 as real, 0 as real, du, dv),
    ensures
        du == (0 as real),
        dv == (0 as real),
{
    let (a, d) = (xx + damping(), yy + damping());
    let det = a * d - xy * xy;
    let tiny = (1 as real) / (1000000000 as real);
    if !(-tiny < det < tiny) {
        let (p, q) = choose|p: real, q: real| #[trigger]
            solves(a, xy, d, 0 as real, 0 as real, p, q) && du == within_five(p) && dv
                == within_five(q);
        lemma_no_excess(a, xy, d, p, q);
    }
}

/// A window without slopes, or without an excess, sums to nothing.
proof fn lemma_nothing_in_window(f: Img, g: Img, w: int, h: int, r: int, x: int, y: int)
    requires
        r >= 0,
        on_grid(x, y, w, h),
        zero_on(f, w, h) || zero_on(g, w, h),
    ensures
        window_product(f, g, w, h, r, x, y) == (0 as real),
{
    let p = |i: int, j: int| f(i, j) * g(i, j);
    assert forall|i: int, j: int| on_grid(i, j, w, h) implies #[trigger] p(i, j) == (
    0 as real) by {
        lemma_one(f(i, j));
        lemma_one(g(i, j));
        lemma_swap(f(i, j), g(i, j));
        assert(f(i, j) == (0 as real) || g(i, j) == (0 as real));
    }
    lemma_window_sign(p, w, h, r, x, y);
}

/// A step changes nothing where the slopes of the picture, or the excess of its
/// neighbour, are zero everywhere.
proof fn lemma_step_stays(
    a: Img,
    d: Img,
    w: int,
    h: int,
    r: int,
    u: Img,
    v: Img,
    u2: Img,
    v2: Img,
    x: int,
    y: int,
)
    requires
        r >= 0,
        on_grid(x, y, w, h),
        is_cell_step(a, d, w, h, r, u, v, u2, v2, x, y),
        zero_on(d, w, h) || zero_on(slopes_x(a, w), w, h) && zero_on(slopes_y(a, h), w, h),
    ensures
        u2(x, y) == u(x, y),
        v2(x, y) == v(x, y),
{
    let (gx, gy) = (slopes_x(a, w), slopes_y(a, h));
    lemma_nothing_in_window(gx, d, w, h, r, x, y);
    lemma_nothing_in_window(gy, d, w, h, r, x, y);
    lemma_no_update(
        window_product(gx, gx, w, h, r, x, y),
        window_product(gy, gy, w, h, r, x, y),
        window_product(gx, gy, w, h, r, x, y),
        u2(x, y) - u(x, y),
        v2(x, y) - v(x, y),
    );
}

/// Two pictures that agree, or a first picture without any detail.
pub open spec fn is_at_rest(a: Img, b: Img, w: int, h: int, bw: int, bh: int) -> bool {
    ||| w == bw && h == bh && same_on(a, b, w, h)
    ||| zero_on(slopes_x(a, w), w, h) && zero_on(slopes_y(a, h), w, h)
}

proof fn lemma_rest_stays(
    a: Img,
    b: Img,
    w: int,
    h: int,
    bw: int,
    bh: int,
    r: int,
    n: int,
    u: Img,
    v: Img,
    u2: Img,
    v2: Img,
)
    requires
        r >= 0,
        is_at_rest(a, b, w, h, bw, bh),
        zero_on(u, w, h),
        zero_on(v, w, h),
        is_steps(a, b, w, h, bw, bh, r, n, u, v, u2, v2),
    ensures
        zero_on(u2, w, h),
        zero_on(v2, w, h),
    decreases n,
{
    if n > 0 {
        let (p, q) = choose|p: Img, q: Img|
            is_steps(a, b, w, h, bw, bh, r, n - 1, u, v, p, q) && #[trigger] is_step(
                a,
                b,
                w,
                h,
                bw,
                bh,
                r,
                p,
                q,
                u2,
                v2,
            );
        lemma_rest_stays(a, b, w, h, bw, bh, r, n - 1, u, v, p, q);
        let d = choose|d: Img| #[trigger]
            is_excess(a, b, w, h, bw, bh, p, q, d) && forall|x: int, y: int|
                on_grid(x, y, w, h) ==> #[trigger] is_cell_step(
                    a,
                    d,
                    w,
                    h,
                    r,
                    p,
                    q,
                    u2,
                    v2,
                    x,
                    y,
                );
        if w == bw && h == bh && same_on(a, b, w, h) {
            assert forall|x: int, y: int| on_grid(x, y, w, h) implies #[trigger] d(x, y) == (
            0 as real) by {
                let (px, py) = ((x as real) + p(x, y), (y as real) + q(x, y));
                lemma_value_at_cell(b, w, h, px, py, x, y, a(x, y) + d(x, y));
            }
        }
        assert forall|x: int, y: int| on_grid(x, y, w, h) implies #[trigger] u2(x, y) == (
        0 as real) by {
            assert(is_cell_step(a, d, w, h, r, p, q, u2, v2, x, y));
            lemma_step_stays(a, d, w, h, r, p, q, u2, v2, x, y);
            assert(p(x, y) == (0 as real));
        }
        assert forall|x: int, y: int| on_grid(x, y, w, h) implies #[trigger] v2(x, y) == (
        0 as real) by {
            assert(is_cell_step(a, d, w, h, r, p, q, u2, v2, x, y));
            lemma_step_stays(a, d, w, h, r, p, q, u2, v2, x, y);
            assert(q(x, y) == (0 as real));
        }
    }
}

/// Between equal values there is no other.
proof fn lemma_mix_same(a: real, t: real)
    ensures
        mix(a, a, t) == a,
{
    lemma_distribute(a, (1 as real) - t, t);
    lemma_one(a);
}

proof fn lemma_lift_of_zero(c: Img, sw: int, sh: int, f: Img, w: int, h: int)
    requires
        sw >= 2,
        sh >= 2,
        zero_on(c, sw, sh),
        is_lift(c, sw, sh, f, w, h),
    ensures
        zero_on(f, w, h),
{
    assert forall|x: int, y: int| on_grid(x, y, w, h) implies #[trigger] f(x, y) == (
    0 as real) by {
        let (i, j) = (coarse_cell(x, sw), coarse_cell(y, sh));
        let (tx, ty) = (coarse_part(x, sw), coarse_part(y, sh));
        assert(c(i, j) == (0 as real));
        assert(c(edge(i + 1, sw), j) == (0 as real));
        assert(c(i, edge(j + 1, sh)) == (0 as real));
        assert(c(edge(i + 1, sw), edge(j + 1, sh)) == (0 as real));
        lemma_mix_same(0 as real, tx);
        lemma_mix_same(0 as real, ty);
        assert(f(x, y) == (2 as real) * four(c, sw, sh, i, j, tx, ty));
    }
}

/// All levels but the finest have at least two cells on either side.
pub open spec fn has_coarse_levels(w: int, h: int, levels: int) -> bool {
    forall|l: int|
        0 < l < levels ==> #[trigger] level_side(w, l) >= 2 && level_side(h, l) >= 2
}

/// At rest on every level means at rest.
pub proof fn law_nothing_moves_at_rest(
    pa: Seq<Img>,
    pb: Seq<Img>,
    w: int,
    h: int,
    bw: int,
    bh: int,
    r: int,
    iters: int,
    l: int,
    u: Img,
    v: Img,
)
    requires
        r >= 0,
        0 <= l < pa.len(),
        has_coarse_levels(w, h, pa.len() as int),
        forall|k: int|
            0 <= k < pa.len() ==> is_at_rest(
                #[trigger] pa[k],
                pb[k],
                level_side(w, k),
                level_side(h, k),
                level_side(bw, k),
                level_side(bh, k),
            ),
        is_motion_at(pa, pb, w, h, bw, bh, r, iters, l, u, v),
    ensures
        zero_on(u, level_side(w, l), level_side(h, l)),
        zero_on(v, level_side(w, l), level_side(h, l)),
    decreases pa.len() - l,
{
    let (lw, lh) = (level_side(w, l), level_side(h, l));
    let (cw, ch) = (level_side(w, l + 1), level_side(h, l + 1));
    let (aw, ah) = (level_side(bw, l), level_side(bh, l));
    let (su, sv) = choose|su: Img, sv: Img|
        {
            &&& #[trigger] is_steps(pa[l], pb[l], lw, lh, aw, ah, r, iters, su, sv, u, v)
            &&& if l >= pa.len() - 1 {
                zero_on(su, lw, lh) && zero_on(sv, lw, lh)
            } else {
                exists|cu: Img, cv: Img|
                    {
                        &&& is_motion_at(pa, pb, w, h, bw, bh, r, iters, l + 1, cu, cv)
                        &&& #[trigger] is_lift(cu, cw, ch, su, lw, lh)
                        &&& #[trigger] is_lift(cv, cw, ch, sv, lw, lh)
                    }
            }
        };
    if l < pa.len() - 1 {
        let (cu, cv) = choose|cu: Img, cv: Img|
            {
                &&& is_motion_at(pa, pb, w, h, bw, bh, r, iters, l + 1, cu, cv)
                &&& #[trigger] is_lift(cu, cw, ch, su, lw, lh)
                &&& #[trigger] is_lift(cv, cw, ch, sv, lw, lh)
            };
        law_nothing_moves_at_rest(pa, pb, w, h, bw, bh, r, iters, l + 1, cu, cv);
        lemma_lift_of_zero(cu, cw, ch, su, lw, lh);
        lemma_lift_of_zero(cv, cw, ch, sv, lw, lh);
    }
    lemma_rest_stays(pa[l], pb[l], lw, lh, aw, ah, r, iters, su, sv, u, v);
}

proof fn lemma_square(x: real)
    by (nonlinear_arith)
    ensures
        x * x >= (0 as real),
{
}

pub(crate) proof fn lemma_product_sign(x: real, y: real)
    by (nonlinear_arith)
    ensures
        x > (0 as real) && y > (0 as real) ==> x * y > (0 as real),
        x > (0 as real) && y < (0 as real) ==> x * y < (0 as real),
        x < (0 as real) && y > (0 as real) ==> x * y < (0 as real),
        x < (0 as real) && y < (0 as real) ==> x * y > (0 as real),
        y == (0 as real) ==> x * y == (0 as real),
{
}

/// Where all slopes lie along one line, the motion lies along it, against the
/// sum of the excess.
proof fn lemma_line(ss: real, st: real, along: real, other: real, horizontal: bool)
    requires
        ss >= (0 as real),
        horizontal ==> is_update(
            ss,
            0 as real,
            0 as real,
            st,
            0 as real,
            along,
            other,
        ),
        !horizontal ==> is_update(0 as real, ss, 0 as real, 0 as real, st, other, along),
    ensures
        other == (0 as real),
        st == (0 as real) ==> along == (0 as real),
        st < (0 as real) ==> along > (0 as real),
        st > (0 as real) ==> along < (0 as real),
{
    let z = 0 as real;
    let (a, d) = (ss + damping(), damping());
    assert(a * d - z * z >= (1 as real) / (1000000000 as real)) by {
        lemma_one(z);
    }
    lemma_swap(a, d);
    let (p, q) = if horizontal {
        choose|p: real, q: real| #[trigger]
            solves(a, z, d, st, z, p, q) && along == within_five(p) && other == within_five(q)
    } else {
        let (p, q) = choose|p: real, q: real| #[trigger]
            solves(z + damping(), z, a, z, st, p, q) && other == within_five(p) && along
                == within_five(q);
        (q, p)
    };
    lemma_one(p);
    lemma_one(q);
    lemma_swap(z, p);
    lemma_swap(z, q);
    assert(a * p == -st);
    assert(d * q == z);
    lemma_product_sign(a, p);
    lemma_product_sign(p, a);
}

/// One step of a picture that changes along rows only, `up` telling which way it gets
/// brighter: the motion is horizontal, toward the brighter side where the
/// neighbour is darker, toward the darker side where it is brighter.
proof fn lemma_step_along_x(
    a: Img,
    d: Img,
    w: int,
    h: int,
    r: int,
    e: real,
    up: bool,
    u: Img,
    v: Img,
    u2: Img,
    v2: Img,
    x: int,
    y: int,
)
    requires
        r >= 0,
        on_grid(x, y, w, h),
        is_cell_step(a, d, w, h, r, u, v, u2, v2, x, y),
        zero_on(slopes_y(a, h), w, h),
        forall|i: int, j: int|
            on_grid(i, j, w, h) ==> (if up {
                #[trigger] slope_x(a, w, i, j) > (0 as real)
            } else {
                slope_x(a, w, i, j) < (0 as real)
            }),
        forall|i: int, j: int| on_grid(i, j, w, h) ==> #[trigger] d(i, j) == e,
    ensures
        v2(x, y) == v(x, y),
        e == (0 as real) ==> u2(x, y) == u(x, y),
        (e < (0 as real)) == up && e != (0 as real) ==> u2(x, y) > u(x, y),
        (e < (0 as real)) != up && e != (0 as real) ==> u2(x, y) < u(x, y),
{
    let (gx, gy) = (slopes_x(a, w), slopes_y(a, h));
    let g = gx;
    let ss = window_product(g, g, w, h, r, x, y);
    let st = window_product(g, d, w, h, r, x, y);
    lemma_nothing_in_window(gy, gy, w, h, r, x, y);
    lemma_nothing_in_window(gx, gy, w, h, r, x, y);
    lemma_nothing_in_window(gy, d, w, h, r, x, y);
    let sq = |i: int, j: int| g(i, j) * g(i, j);
    let pr = |i: int, j: int| g(i, j) * d(i, j);
    assert forall|i: int, j: int| on_grid(i, j, w, h) implies #[trigger] sq(i, j) >= (
    0 as real) by {
        lemma_square(g(i, j));
    }
    assert forall|i: int, j: int| on_grid(i, j, w, h) implies {
        &&& e == (0 as real) ==> #[trigger] pr(i, j) == (0 as real)
        &&& (e < (0 as real)) == up && e != (0 as real) ==> pr(i, j) < (0 as real)
        &&& (e < (0 as real)) != up && e != (0 as real) ==> pr(i, j) > (0 as real)
    } by {
        assert(g(i, j) == slope_x(a, w, i, j));
        assert(d(i, j) == e);
        lemma_product_sign(g(i, j), e);
    }
    lemma_window_sign(sq, w, h, r, x, y);
    lemma_window_sign(pr, w, h, r, x, y);
    lemma_line(ss, st, u2(x, y) - u(x, y), v2(x, y) - v(x, y), true);
}

/// One step of a picture that changes along columns only, `up` telling which way it gets
/// brighter: the motion is vertical, toward the brighter side where the
/// neighbour is darker, toward the darker side where it is brighter.
proof fn lemma_step_along_y(
    a: Img,
    d: Img,
    w: int,
    h: int,
    r: int,
    e: real,
    up: bool,
    u: Img,
    v: Img,
    u2: Img,
    v2: Img,
    x: int,
    y: int,
)
    requires
        r >= 0,
        on_grid(x, y, w, h),
        is_cell_step(a, d, w, h, r, u, v, u2, v2, x, y),
        zero_on(slopes_x(a, w), w, h),
        forall|i: int, j: int|
            on_grid(i, j, w, h) ==> (if up {
                #[trigger] slope_y(a, h, i, j) > (0 as real)
            } else {
                slope_y(a, h, i, j) < (0 as real)
            }),
        forall|i: int, j: int| on_grid(i, j, w, h) ==> #[trigger] d(i, j) == e,
    ensures
        u2(x, y) == u(x, y),
        e == (0 as real) ==> v2(x, y) == v(x, y),
        (e < (0 as real)) == up && e != (0 as real) ==> v2(x, y) > v(x, y),
        (e < (0 as real)) != up && e != (0 as real) ==> v2(x, y) < v(x, y),
{
    let (gx, gy) = (slopes_x(a, w), slopes_y(a, h));
    let g = gy;
    let ss = window_product(g, g, w, h, r, x, y);
    let st = window_product(g, d, w, h, r, x, y);
    lemma_nothing_in_window(gx, gx, w, h, r, x, y);
    lemma_nothing_in_window(gx, gy, w, h, r, x, y);
    lemma_nothing_in_window(gx, d, w, h, r, x, y);
    let sq = |i: int, j: int| g(i, j) * g(i, j);
    let pr = |i: int, j: int| g(i, j) * d(i, j);
    assert forall|i: int, j: int| on_grid(i, j, w, h) implies #[trigger] sq(i, j) >= (
    0 as real) by {
        lemma_square(g(i, j));
    }
    assert forall|i: int, j: int| on_grid(i, j, w, h) implies {
        &&& e == (0 as real) ==> #[trigger] pr(i, j) == (0 as real)
        &&& (e < (0 as real)) == up && e != (0 as real) ==> pr(i, j) < (0 as real)
        &&& (e < (0 as real)) != up && e != (0 as real) ==> pr(i, j) > (0 as real)
    } by {
        assert(g(i, j) == slope_y(a, h, i, j));
        assert(d(i, j) == e);
        lemma_product_sign(g(i, j), e);
    }
    lemma_window_sign(sq, w, h, r, x, y);
    lemma_window_sign(pr, w, h, r, x, y);
    lemma_line(ss, st, v2(x, y) - v(x, y), u2(x, y) - u(x, y), false);
}

/// What holds of every cell holds of every middle value.
proof fn lemma_filtered(
    f: Img,
    w: int,
    h: int,
    g: Img,
    good: spec_fn(real) -> bool,
    x: int,
    y: int,
)
    requires
        on_grid(x, y, w, h),
        is_filtered(f, w, h, g),
        forall|i: int, j: int| on_grid(i, j, w, h) ==> good(#[trigger] f(i, j)),
    ensures
        good(g(x, y)),
{
    let out = g(x, y);
    assert(is_middle_of(f, w, h, x, y, out));
    let (l, r) = (edge(x - 1, w), edge(x + 1, w));
    let (t, b) = (edge(y - 1, h), edge(y + 1, h));
    assert(good(f(l, t)) && good(f(x, t)) && good(f(r, t)));
    assert(good(f(l, y)) && good(f(x, y)) && good(f(r, y)));
    assert(good(f(l, b)) && good(f(x, b)) && good(f(r, b)));
}

/// The filtered motion of pictures at rest is none.
pub proof fn law_smooth_motion_at_rest(
    pa: Seq<Img>,
    pb: Seq<Img>,
    w: int,
    h: int,
    bw: int,
    bh: int,
    r: int,
    iters: int,
    u: Img,
    v: Img,
    x: int,
    y: int,
)
    requires
        r >= 0,
        pa.len() > 0,
        on_grid(x, y, w, h),
        has_coarse_levels(w, h, pa.len() as int),
        forall|k: int|
            0 <= k < pa.len() ==> is_at_rest(
                #[trigger] pa[k],
                pb[k],
                level_side(w, k),
                level_side(h, k),
                level_side(bw, k),
                level_side(bh, k),
            ),
        is_smooth_motion(pa, pb, w, h, bw, bh, r, iters, u, v),
    ensures
        u(x, y) == (0 as real),
        v(x, y) == (0 as real),
{
    let (p, q) = choose|p: Img, q: Img| #[trigger]
        is_motion_at(pa, pb, w, h, bw, bh, r, iters, 0, p, q) && is_filtered(p, w, h, u)
            && is_filtered(q, w, h, v);
    law_nothing_moves_at_rest(pa, pb, w, h, bw, bh, r, iters, 0, p, q);
    let zero = |t: real| t == (0 as real);
    lemma_filtered(p, w, h, u, zero, x, y);
    lemma_filtered(q, w, h, v, zero, x, y);
}

/// A picture that gets brighter along its rows (or darker, where `up` is false)
/// and does not change across them, and a neighbour that is brighter by the same
/// amount `e` everywhere: the motion is horizontal, to the brighter side where the
/// neighbour is darker, to the darker side where it is brighter.
pub proof fn law_motion_along_x(
    a: Img,
    b: Img,
    w: int,
    h: int,
    r: int,
    e: real,
    up: bool,
    u: Img,
    v: Img,
    x: int,
    y: int,
)
    requires
        r >= 0,
        on_grid(x, y, w, h),
        zero_on(slopes_y(a, h), w, h),
        forall|i: int, j: int|
            on_grid(i, j, w, h) ==> (if up {
                #[trigger] slope_x(a, w, i, j) > (0 as real)
            } else {
                slope_x(a, w, i, j) < (0 as real)
            }),
        forall|i: int, j: int| on_grid(i, j, w, h) ==> #[trigger] b(i, j) == a(i, j) + e,
        is_smooth_motion(seq![a], seq![b], w, h, w, h, r, 1, u, v),
    ensures
        v(x, y) == (0 as real),
        e == (0 as real) ==> u(x, y) == (0 as real),
        (e < (0 as real)) == up && e != (0 as real) ==> u(x, y) > (0 as real),
        (e < (0 as real)) != up && e != (0 as real) ==> u(x, y) < (0 as real),
{
    let (pa, pb) = (seq![a], seq![b]);
    let (p, q) = choose|p: Img, q: Img| #[trigger]
        is_motion_at(pa, pb, w, h, w, h, r, 1, 0, p, q) && is_filtered(p, w, h, u) && is_filtered(
            q,
            w,
            h,
            v,
        );
    let (su, sv) = choose|su: Img, sv: Img|
        {
            &&& #[trigger] is_steps(a, b, w, h, w, h, r, 1, su, sv, p, q)
            &&& zero_on(su, w, h)
            &&& zero_on(sv, w, h)
        };
    let (mu, mv) = choose|mu: Img, mv: Img|
        is_steps(a, b, w, h, w, h, r, 0, su, sv, mu, mv) && #[trigger] is_step(
            a,
            b,
            w,
            h,
            w,
            h,
            r,
            mu,
            mv,
            p,
            q,
        );
    assert(zero_on(mu, w, h) && zero_on(mv, w, h));
    let d = choose|d: Img| #[trigger]
        is_excess(a, b, w, h, w, h, mu, mv, d) && forall|i: int, j: int|
            on_grid(i, j, w, h) ==> #[trigger] is_cell_step(a, d, w, h, r, mu, mv, p, q, i, j);
    assert forall|i: int, j: int| on_grid(i, j, w, h) implies #[trigger] d(i, j) == e by {
        let (px, py) = ((i as real) + mu(i, j), (j as real) + mv(i, j));
        assert(mu(i, j) == (0 as real) && mv(i, j) == (0 as real));
        lemma_value_at_cell(b, w, h, px, py, i, j, a(i, j) + d(i, j));
        assert(b(i, j) == a(i, j) + e);
    }
    let zero = |t: real| t == (0 as real);
    let good = |t: real|
        if e == (0 as real) {
            t == (0 as real)
        } else if (e < (0 as real)) == up {
            t > (0 as real)
        } else {
            t < (0 as real)
        };
    assert forall|i: int, j: int| on_grid(i, j, w, h) implies good(
        #[trigger] p(i, j),
    ) by {
        assert(is_cell_step(a, d, w, h, r, mu, mv, p, q, i, j));
        lemma_step_along_x(a, d, w, h, r, e, up, mu, mv, p, q, i, j);
        assert(mu(i, j) == (0 as real) && mv(i, j) == (0 as real));
    }
    assert forall|i: int, j: int| on_grid(i, j, w, h) implies zero(
        #[trigger] q(i, j),
    ) by {
        assert(is_cell_step(a, d, w, h, r, mu, mv, p, q, i, j));
        lemma_step_along_x(a, d, w, h, r, e, up, mu, mv, p, q, i, j);
        assert(mu(i, j) == (0 as real) && mv(i, j) == (0 as real));
    }
    lemma_filtered(p, w, h, u, good, x, y);
    lemma_filtered(q, w, h, v, zero, x, y);
}

/// A picture that gets brighter along its columns (or darker, where `up` is false)
/// and does not change across them, and a neighbour that is brighter by the same
/// amount `e` everywhere: the motion is vertical, to the brighter side where the
/// neighbour is darker, to the darker side where it is brighter.
pub proof fn law_motion_along_y(
    a: Img,
    b: Img,
    w: int,
    h: int,
    r: int,
    e: real,
    up: bool,
    u: Img,
    v: Img,
    x: int,
    y: int,
)
    requires
        r >= 0,
        on_grid(x, y, w, h),
        zero_on(slopes_x(a, w), w, h),
        forall|i: int, j: int|
            on_grid(i, j, w, h) ==> (if up {
                #[trigger] slope_y(a, h, i, j) > (0 as real)
            } else {
                slope_y(a, h, i, j) < (0 as real)
            }),
        forall|i: int, j: int| on_grid(i, j, w, h) ==> #[trigger] b(i, j) == a(i, j) + e,
        is_smooth_motion(seq![a], seq![b], w, h, w, h, r, 1, u, v),
    ensures
        u(x, y) == (0 as real),
        e == (0 as real) ==> v(x, y) == (0 as real),
        (e < (0 as real)) == up && e != (0 as real) ==> v(x, y) > (0 as real),
        (e < (0 as real)) != up && e != (0 as real) ==> v(x, y) < (0 as real),
{
    let (pa, pb) = (seq![a], seq![b]);
    let (p, q) = choose|p: Img, q: Img| #[trigger]
        is_motion_at(pa, pb, w, h, w, h, r, 1, 0, p, q) && is_filtered(p, w, h, u) && is_filtered(
            q,
            w,
            h,
            v,
        );
    let (su, sv) = choose|su: Img, sv: Img|
        {
            &&& #[trigger] is_steps(a, b, w, h, w, h, r, 1, su, sv, p, q)
            &&& zero_on(su, w, h)
            &&& zero_on(sv, w, h)
        };
    let (mu, mv) = choose|mu: Img, mv: Img|
        is_steps(a, b, w, h, w, h, r, 0, su, sv, mu, mv) && #[trigger] is_step(
            a,
            b,
            w,
            h,
            w,
            h,
            r,
            mu,
            mv,
            p,
            q,
        );
    assert(zero_on(mu, w, h) && zero_on(mv, w, h));
    let d = choose|d: Img| #[trigger]
        is_excess(a, b, w, h, w, h, mu, mv, d) && forall|i: int, j: int|
            on_grid(i, j, w, h) ==> #[trigger] is_cell_step(a, d, w, h, r, mu, mv, p, q, i, j);
    assert forall|i: int, j: int| on_grid(i, j, w, h) implies #[trigger] d(i, j) == e by {
        let (px, py) = ((i as real) + mu(i, j), (j as real) + mv(i, j));
        assert(mu(i, j) == (0 as real) && mv(i, j) == (0 as real));
        lemma_value_at_cell(b, w, h, px, py, i, j, a(i, j) + d(i, j));
        assert(b(i, j) == a(i, j) + e);
    }
    let zero = |t: real| t == (0 as real);
    let good = |t: real|
        if e == (0 as real) {
            t == (0 as real)
        } else if (e < (0 as real)) == up {
            t > (0 as real)
        } else {
            t < (0 as real)
        };
    assert forall|i: int, j: int| on_grid(i, j, w, h) implies good(
        #[trigger] q(i, j),
    ) by {
        assert(is_cell_step(a, d, w, h, r, mu, mv, p, q, i, j));
        lemma_step_along_y(a, d, w, h, r, e, up, mu, mv, p, q, i, j);
        assert(mu(i, j) == (0 as real) && mv(i, j) == (0 as real));
    }
    assert forall|i: int, j: int| on_grid(i, j, w, h) implies zero(
        #[trigger] p(i, j),
    ) by {
        assert(is_cell_step(a, d, w, h, r, mu, mv, p, q, i, j));
        lemma_step_along_y(a, d, w, h, r, e, up, mu, mv, p, q, i, j);
        assert(mu(i, j) == (0 as real) && mv(i, j) == (0 as real));
    }
    lemma_filtered(p, w, h, u, zero, x, y);
    lemma_filtered(q, w, h, v, good, x, y);
}

} // verus!
