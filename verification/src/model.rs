//! What motion estimation and motion blur are for, told over pictures of real
//! numbers: where a picture is brighter on one side, where it has a value between
//! its cells, and which motion explains the change from one picture to the next.
use crate::levels::level_side;
use vstd::prelude::*;

verus! {

/// A picture: its value at every column and row.
pub type Img = spec_fn(int, int) -> real;

/// The cell of a line of `n` that is nearest to `i`.
pub open spec fn edge(i: int, n: int) -> int {
    if i < 0 {
        0
    } else if i >= n {
        n - 1
    } else {
        i
    }
}

/// A cell of a grid.
pub open spec fn on_grid(x: int, y: int, w: int, h: int) -> bool {
    0 <= x < w && 0 <= y < h
}

/// Two pictures that agree on a grid.
pub open spec fn same_on(f: Img, g: Img, w: int, h: int) -> bool {
    forall|x: int, y: int| on_grid(x, y, w, h) ==> #[trigger] f(x, y) == g(x, y)
}

/// A picture that is zero on a grid.
pub open spec fn zero_on(f: Img, w: int, h: int) -> bool {
    forall|x: int, y: int| on_grid(x, y, w, h) ==> #[trigger] f(x, y) == (0 as real)
}

/// The Gaussian mean of five neighbours.
pub open spec fn five(a: real, b: real, c: real, d: real, e: real) -> real {
    (a + (4 as real) * b + (6 as real) * c + (4 as real) * d + e) / (16 as real)
}

/// The Gaussian mean along a row.
pub open spec fn across(a: Img, w: int, x: int, y: int) -> real {
    five(
        a(edge(x - 2, w), y),
        a(edge(x - 1, w), y),
        a(x, y),
        a(edge(x + 1, w), y),
        a(edge(x + 2, w), y),
    )
}

/// The Gaussian mean about a cell.
pub open spec fn soft(a: Img, w: int, h: int, x: int, y: int) -> real {
    five(
        across(a, w, x, edge(y - 2, h)),
        across(a, w, x, edge(y - 1, h)),
        across(a, w, x, y),
        across(a, w, x, edge(y + 1, h)),
        across(a, w, x, edge(y + 2, h)),
    )
}

/// How much brighter the picture gets from one column to the next.
pub open spec fn slope_x(a: Img, w: int, x: int, y: int) -> real {
    (a(edge(x + 1, w), y) - a(edge(x - 1, w), y)) / (2 as real)
}

/// How much brighter the picture gets from one row to the next.
pub open spec fn slope_y(a: Img, h: int, x: int, y: int) -> real {
    (a(x, edge(y + 1, h)) - a(x, edge(y - 1, h))) / (2 as real)
}

/// `f(lo) + .. + f(hi - 1)`.
pub open spec fn sum_of(f: spec_fn(int) -> real, lo: int, hi: int) -> real
    decreases hi - lo,
{
    if lo >= hi {
        0 as real
    } else {
        sum_of(f, lo, hi - 1) + f(hi - 1)
    }
}

/// The first cell of a window of radius `r` about `x`.
pub open spec fn first_in(x: int, r: int) -> int {
    if x >= r {
        x - r
    } else {
        0
    }
}

/// The end of a window of radius `r` about `x`.
pub open spec fn end_of(x: int, r: int, n: int) -> int {
    if x + r + 1 <= n {
        x + r + 1
    } else {
        n
    }
}

/// The sum of a picture over the square window of radius `r` about a cell.
pub open spec fn window_sum(f: Img, w: int, h: int, r: int, x: int, y: int) -> real {
    sum_of(
        |j: int| sum_of(|i: int| f(i, j), first_in(x, r), end_of(x, r, w)),
        first_in(y, r),
        end_of(y, r, h),
    )
}

/// `a`, changed by the share `t` of the way to `b`.
pub open spec fn mix(a: real, b: real, t: real) -> real {
    a * ((1 as real) - t) + b * t
}

/// A position, kept on a line of `n` cells.
pub open spec fn kept_on(p: real, n: int) -> real {
    if p < (0 as real) {
        0 as real
    } else if p > (n - 1) as real {
        (n - 1) as real
    } else {
        p
    }
}

/// The cell that a position on a line of `n` cells lies in, or just beyond.
pub open spec fn is_cell_of(i: int, p: real, n: int) -> bool {
    0 <= i < n && (i as real) <= kept_on(p, n) < (i + 1) as real
}

/// Four cells of a picture mixed, `tx` of the way across and `ty` down.
pub open spec fn four(a: Img, w: int, h: int, i: int, j: int, tx: real, ty: real) -> real {
    mix(
        mix(a(i, j), a(edge(i + 1, w), j), tx),
        mix(a(i, edge(j + 1, h)), a(edge(i + 1, w), edge(j + 1, h)), tx),
        ty,
    )
}

/// `out` is the value of a picture at any position, between cells as between
/// neighbours, beyond the border as at the border.
pub open spec fn is_value_at(a: Img, w: int, h: int, px: real, py: real, out: real) -> bool {
    exists|i: int, j: int| #[trigger]
        is_cell_of(i, px, w) && #[trigger] is_cell_of(j, py, h) && out == four(
            a,
            w,
            h,
            i,
            j,
            kept_on(px, w) - (i as real),
            kept_on(py, h) - (j as real),
        )
}

/// At most five either way.
pub open spec fn within_five(x: real) -> real {
    if x < -(5 as real) {
        -(5 as real)
    } else if x > (5 as real) {
        5 as real
    } else {
        x
    }
}

/// `p` and `q` solve two equations with a symmetric matrix.
pub open spec fn solves(a: real, b: real, d: real, xt: real, yt: real, p: real, q: real) -> bool {
    a * p + b * q == -xt && b * p + d * q == -yt
}

/// What is added to both sides of the matrix to keep it regular.
pub open spec fn damping() -> real {
    (1 as real) / (1000 as real)
}

/// The motion of a cell changes by `du` and `dv`: the bounded solution of the
/// normal equations, or nothing where they are singular.
pub open spec fn is_update(
    xx: real,
    yy: real,
    xy: real,
    xt: real,
    yt: real,
    du: real,
    dv: real,
) -> bool {
    let (a, d) = (xx + damping(), yy + damping());
    let det = a * d - xy * xy;
    let tiny = (1 as real) / (1000000000 as real);
    if -tiny < det < tiny {
        du == (0 as real) && dv == (0 as real)
    } else {
        exists|p: real, q: real| #[trigger]
            solves(a, xy, d, xt, yt, p, q) && du == within_five(p) && dv == within_five(q)
    }
}

/// `d` is how much the picture `b`, taken where the motion `(u, v)` leads,
/// exceeds `a`.
pub open spec fn is_excess(
    a: Img,
    b: Img,
    w: int,
    h: int,
    bw: int,
    bh: int,
    u: Img,
    v: Img,
    d: Img,
) -> bool {
    forall|x: int, y: int|
        on_grid(x, y, w, h) ==> is_value_at(
            b,
            bw,
            bh,
            (x as real) + u(x, y),
            (y as real) + v(x, y),
            a(x, y) + #[trigger] d(x, y),
        )
}

/// The sum over the window of the product of two pictures.
pub open spec fn window_product(f: Img, g: Img, w: int, h: int, r: int, x: int, y: int) -> real {
    window_sum(|i: int, j: int| f(i, j) * g(i, j), w, h, r, x, y)
}

/// The picture of the horizontal slopes.
pub open spec fn slopes_x(a: Img, w: int) -> Img {
    |x: int, y: int| slope_x(a, w, x, y)
}

/// The picture of the vertical slopes.
pub open spec fn slopes_y(a: Img, h: int) -> Img {
    |x: int, y: int| slope_y(a, h, x, y)
}

/// One cell takes one step of the estimate: the motion that explains the excess
/// `d` in the window best, by the slopes of `a`, is added.
pub open spec fn is_cell_step(
    a: Img,
    d: Img,
    w: int,
    h: int,
    r: int,
    u: Img,
    v: Img,
    u2: Img,
    v2: Img,
    x: int,
    y: int,
) -> bool {
    let (gx, gy) = (slopes_x(a, w), slopes_y(a, h));
    is_update(
        window_product(gx, gx, w, h, r, x, y),
        window_product(gy, gy, w, h, r, x, y),
        window_product(gx, gy, w, h, r, x, y),
        window_product(gx, d, w, h, r, x, y),
        window_product(gy, d, w, h, r, x, y),
        u2(x, y) - u(x, y),
        v2(x, y) - v(x, y),
    )
}

/// One step of the estimate of the motion from `a` to `b`.
pub open spec fn is_step(
    a: Img,
    b: Img,
    w: int,
    h: int,
    bw: int,
    bh: int,
    r: int,
    u: Img,
    v: Img,
    u2: Img,
    v2: Img,
) -> bool {
    exists|d: Img| #[trigger]
        is_excess(a, b, w, h, bw, bh, u, v, d) && forall|x: int, y: int|
            on_grid(x, y, w, h) ==> #[trigger] is_cell_step(a, d, w, h, r, u, v, u2, v2, x, y)
}

/// `n` steps of the estimate.
pub open spec fn is_steps(
    a: Img,
    b: Img,
    w: int,
    h: int,
    bw: int,
    bh: int,
    r: int,
    n: int,
    u: Img,
    v: Img,
    u2: Img,
    v2: Img,
) -> bool
    decreases n,
{
    if n <= 0 {
        same_on(u2, u, w, h) && same_on(v2, v, w, h)
    } else {
        exists|p: Img, q: Img|
            is_steps(a, b, w, h, bw, bh, r, n - 1, u, v, p, q) && #[trigger] is_step(
                a,
                b,
                w,
                h,
                bw,
                bh,
                r,
                p,
                q,
                u2,
                v2,
            )
    }
}

/// The cell of a coarse line of `n` that cell `x` of the finer line starts from.
pub open spec fn coarse_cell(x: int, n: int) -> int {
    if x <= 2 * n - 3 {
        x / 2
    } else {
        n - 2
    }
}

/// How far beyond its coarse cell a cell of the finer line lies: half way at odd
/// cells, and just short of the last one at the end.
pub open spec fn coarse_part(x: int, n: int) -> real {
    if x <= 2 * n - 3 {
        if x % 2 == 0 {
            0 as real
        } else {
            (1 as real) / (2 as real)
        }
    } else {
        (999 as real) / (1000 as real)
    }
}

/// `f` is `c` on a grid with twice the resolution, with all values doubled.
pub open spec fn is_lift(c: Img, sw: int, sh: int, f: Img, w: int, h: int) -> bool {
    forall|x: int, y: int|
        on_grid(x, y, w, h) ==> #[trigger] f(x, y) == (2 as real) * four(
            c,
            sw,
            sh,
            coarse_cell(x, sw),
            coarse_cell(y, sh),
            coarse_part(x, sw),
            coarse_part(y, sh),
        )
}

/// `(u, v)` is the motion at level `l` of two pyramids, estimated from the
/// coarsest level, which starts at rest, down to this one.
pub open spec fn is_motion_at(
    pa: Seq<Img>,
    pb: Seq<Img>,
    w: int,
    h: int,
    bw: int,
    bh: int,
    r: int,
    iters: int,
    l: int,
    u: Img,
    v: Img,
) -> bool
    decreases pa.len() - l,
{
    let (lw, lh) = (level_side(w, l), level_side(h, l));
    let (cw, ch) = (level_side(w, l + 1), level_side(h, l + 1));
    exists|su: Img, sv: Img|
        {
            &&& #[trigger] is_steps(
                pa[l],
                pb[l],
                lw,
                lh,
                level_side(bw, l),
                level_side(bh, l),
                r,
                iters,
                su,
                sv,
                u,
                v,
            )
            &&& if l >= pa.len() - 1 {
                zero_on(su, lw, lh) && zero_on(sv, lw, lh)
            } else {
                exists|cu: Img, cv: Img|
                    {
                        &&& is_motion_at(pa, pb, w, h, bw, bh, r, iters, l + 1, cu, cv)
                        &&& #[trigger] is_lift(cu, cw, ch, su, lw, lh)
                        &&& #[trigger] is_lift(cv, cw, ch, sv, lw, lh)
                    }
            }
        }
}

/// One if it is so.
pub open spec fn one_if(yes: bool) -> int {
    if yes {
        1
    } else {
        0
    }
}

/// How many of the nine cells about a cell have a value that is `good`.
pub open spec fn nine(f: Img, w: int, h: int, x: int, y: int, good: spec_fn(real) -> bool) -> int {
    let (l, r) = (edge(x - 1, w), edge(x + 1, w));
    let (t, b) = (edge(y - 1, h), edge(y + 1, h));
    one_if(good(f(l, t))) + one_if(good(f(x, t))) + one_if(good(f(r, t))) + one_if(good(f(l, y)))
        + one_if(good(f(x, y))) + one_if(good(f(r, y))) + one_if(good(f(l, b))) + one_if(
        good(f(x, b)),
    ) + one_if(good(f(r, b)))
}

/// `out` is the middle value of the nine cells about a cell: one of them, with
/// at least half of them at most as great, and at least half at least as great.
pub open spec fn is_middle_of(f: Img, w: int, h: int, x: int, y: int, out: real) -> bool {
    &&& nine(f, w, h, x, y, |v: real| v == out) >= 1
    &&& nine(f, w, h, x, y, |v: real| v <= out) >= 5
    &&& nine(f, w, h, x, y, |v: real| v >= out) >= 5
}

/// `g` is `f` with every cell replaced by the middle value about it.
pub open spec fn is_filtered(f: Img, w: int, h: int, g: Img) -> bool {
    forall|x: int, y: int|
        on_grid(x, y, w, h) ==> is_middle_of(f, w, h, x, y, #[trigger] g(x, y))
}

/// `(u, v)` is the filtered motion between the pictures of two pyramids: each
/// component is that of the estimate, filtered.
pub open spec fn is_smooth_motion(
    pa: Seq<Img>,
    pb: Seq<Img>,
    w: int,
    h: int,
    bw: int,
    bh: int,
    r: int,
    iters: int,
    u: Img,
    v: Img,
) -> bool {
    exists|p: Img, q: Img| #[trigger]
        is_motion_at(pa, pb, w, h, bw, bh, r, iters, 0, p, q) && is_filtered(p, w, h, u)
            && is_filtered(q, w, h, v)
}

/// The part of a frame interval that a shutter angle exposes on either side of
/// the frame: half of it at a full turn, none at a closed shutter.
pub open spec fn exposed(shutter: real) -> real {
    if shutter < (0 as real) {
        0 as real
    } else if shutter > (360 as real) {
        (1 as real) / (2 as real)
    } else {
        shutter / (720 as real)
    }
}

/// How far tap `s` of `n` lies from the middle of the exposure: the taps are
/// spread evenly from one end to the other.
pub open spec fn reach(s: int, n: int) -> real {
    if 2 * s + 1 < n {
        ((n - 1 - 2 * s) as real) / (n as real)
    } else {
        ((2 * s + 1 - n) as real) / (n as real)
    }
}

/// The component of the motion that a tap follows: the backward one in the first
/// half of the exposure, the forward one in the second.
pub open spec fn followed(s: int, n: int, back: real, ahead: real) -> real {
    if 2 * s + 1 < n {
        back
    } else {
        ahead
    }
}

/// `t` holds the values of a picture along the motion of a pixel: tap `s` is taken
/// where its share of both components leads.
pub open spec fn are_taps(
    a: Img,
    w: int,
    h: int,
    x: int,
    y: int,
    fu: real,
    fv: real,
    bu: real,
    bv: real,
    n: int,
    t: Seq<real>,
) -> bool {
    &&& t.len() == n
    &&& forall|s: int|
        0 <= s < n ==> is_value_at(
            a,
            w,
            h,
            (x as real) + reach(s, n) * followed(s, n, bu, fu),
            (y as real) + reach(s, n) * followed(s, n, bv, fv),
            #[trigger] t[s],
        )
}

/// `out` is the whole number nearest to the mean of `n` taps along the motion.
pub open spec fn is_mean_along(
    a: Img,
    w: int,
    h: int,
    x: int,
    y: int,
    fu: real,
    fv: real,
    bu: real,
    bv: real,
    n: int,
    out: int,
) -> bool {
    exists|t: Seq<real>|
        {
            let gap = (n * out) as real - sum_of(|s: int| t[s], 0, n);
            &&& #[trigger] are_taps(a, w, h, x, y, fu, fv, bu, bv, n, t)
            &&& -(n as real) <= (2 as real) * gap <= (n as real)
        }
}

/// `out` is a pixel of a picture of whole numbers after the exposure: as it was
/// where it hardly moves, and the mean along its motion elsewhere.
pub open spec fn is_exposed(
    a: Img,
    w: int,
    h: int,
    x: int,
    y: int,
    fu: real,
    fv: real,
    bu: real,
    bv: real,
    n: int,
    out: int,
) -> bool {
    if fu * fu + fv * fv + bu * bu + bv * bv < (1 as real) / (10000 as real) {
        (out as real) == a(x, y)
    } else {
        is_mean_along(a, w, h, x, y, fu, fv, bu, bv, n, out)
    }
}

/// Channel `c` of a frame as a picture.
pub open spec fn channel_of(frame: Seq<u8>, w: int, c: int) -> Img {
    |x: int, y: int| (frame[3 * (y * w + x) + c]) as real
}

/// `out` is a frame blurred along a forward and a backward motion field, with a
/// shutter angle and a number of taps, of which there are at least two.
pub open spec fn is_blur(
    frame: Seq<u8>,
    w: int,
    h: int,
    fu: Img,
    fv: Img,
    bu: Img,
    bv: Img,
    shutter: real,
    samples: int,
    out: Seq<u8>,
) -> bool {
    forall|x: int, y: int, c: int|
        #![trigger out[3 * (y * w + x) + c]]
        on_grid(x, y, w, h) && 0 <= c < 3 ==> is_exposed(
            channel_of(frame, w, c),
            w,
            h,
            x,
            y,
            fu(x, y) * exposed(shutter),
            fv(x, y) * exposed(shutter),
            bu(x, y) * exposed(shutter),
            bv(x, y) * exposed(shutter),
            if samples >= 2 {
                samples
            } else {
                2
            },
            out[3 * (y * w + x) + c] as int,
        )
}

} // verus!
