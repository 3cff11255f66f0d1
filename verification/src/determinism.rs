//! Where the arithmetic gives the same answer every time, so do the passes.
use crate::blur::{
    is_blurred_over, is_blurred_pixel, is_exposed_motion, is_exposure, is_motion_blurred,
    is_pixel_index, is_smeared, is_tap, tap_count, Motion, Tap,
};
use crate::boxsum::{column, is_box_filtered, is_scan, row, sums_columns, sums_rows};
use crate::flow::is_pyramid;
use crate::grid::lemma_split_index;
use crate::image::{
    is_blurred_columns, is_blurred_rows, is_downsampled, is_gaussian_blurred,
    is_sample, is_sample_at_double, is_thinned, FlowField,
};
use crate::levels::level_side;
use crate::lucas_kanade::{
    is_level_solution, is_mismatch, is_mismatch_at, is_moved, is_product, is_refined,
    is_refinement, is_refinement_run, is_tensor, is_window_product, law_iterations_part,
    Tensor,
};
use crate::numerics::Numerics;
use vstd::prelude::*;

verus! {

/// The sums and differences have one outcome.
pub open spec fn sums_agree<K: Numerics>(k: &K) -> bool {
    &&& forall|x: K::T, y: K::T|
        #![trigger call_ensures(K::zero, (k,), x), call_ensures(K::zero, (k,), y)]
        call_ensures(K::zero, (k,), x) && call_ensures(K::zero, (k,), y) ==> x == y
    &&& forall|a: K::T, b: K::T, x: K::T, y: K::T|
        #![trigger call_ensures(K::plus, (k, a, b), x), call_ensures(K::plus, (k, a, b), y)]
        call_ensures(K::plus, (k, a, b), x) && call_ensures(K::plus, (k, a, b), y) ==> x == y
    &&& forall|a: K::T, b: K::T, x: K::T, y: K::T|
        #![trigger call_ensures(K::minus, (k, a, b), x), call_ensures(K::minus, (k, a, b), y)]
        call_ensures(K::minus, (k, a, b), x) && call_ensures(K::minus, (k, a, b), y) ==> x == y
    &&& forall|a: K::T, b: K::T, x: K::T, y: K::T|
        #![trigger call_ensures(K::times, (k, a, b), x), call_ensures(K::times, (k, a, b), y)]
        call_ensures(K::times, (k, a, b), x) && call_ensures(K::times, (k, a, b), y) ==> x == y
}

/// Sampling an image has one outcome.
pub open spec fn samples_agree<K: Numerics>(k: &K) -> bool {
    &&& forall|i: usize, d: K::T, x: K::T, y: K::T|
        #![trigger call_ensures(K::shifted, (k, i, d), x), call_ensures(K::shifted, (k, i, d), y)]
        call_ensures(K::shifted, (k, i, d), x) && call_ensures(K::shifted, (k, i, d), y) ==> x
            == y
    &&& forall|i: usize, x: K::T, y: K::T|
        #![trigger call_ensures(K::twice, (k, i), x), call_ensures(K::twice, (k, i), y)]
        call_ensures(K::twice, (k, i), x) && call_ensures(K::twice, (k, i), y) ==> x == y
    &&& forall|p: K::T, n: usize, x: (usize, K::T), y: (usize, K::T)|
        #![trigger call_ensures(K::cell, (k, p, n), x), call_ensures(K::cell, (k, p, n), y)]
        call_ensures(K::cell, (k, p, n), x) && call_ensures(K::cell, (k, p, n), y) ==> x == y
    &&& forall|
        a: K::T,
        b: K::T,
        c: K::T,
        d: K::T,
        fx: K::T,
        fy: K::T,
        x: K::T,
        y: K::T,
    |
        #![trigger
            call_ensures(K::bilinear, (k, a, b, c, d, fx, fy), x),
            call_ensures(K::bilinear, (k, a, b, c, d, fx, fy), y)
        ]
        call_ensures(K::bilinear, (k, a, b, c, d, fx, fy), x) && call_ensures(
            K::bilinear,
            (k, a, b, c, d, fx, fy),
            y,
        ) ==> x == y
}

/// The Gaussian, the slope and the update have one outcome.
pub open spec fn solutions_agree<K: Numerics>(k: &K) -> bool {
    &&& forall|a: K::T, b: K::T, c: K::T, d: K::T, e: K::T, x: K::T, y: K::T|
        #![trigger
            call_ensures(K::gauss5, (k, a, b, c, d, e), x),
            call_ensures(K::gauss5, (k, a, b, c, d, e), y)
        ]
        call_ensures(K::gauss5, (k, a, b, c, d, e), x) && call_ensures(
            K::gauss5,
            (k, a, b, c, d, e),
            y,
        ) ==> x == y
    &&& forall|a: K::T, b: K::T, x: K::T, y: K::T|
        #![trigger call_ensures(K::slope, (k, a, b), x), call_ensures(K::slope, (k, a, b), y)]
        call_ensures(K::slope, (k, a, b), x) && call_ensures(K::slope, (k, a, b), y) ==> x == y
    &&& forall|
        a: K::T,
        b: K::T,
        c: K::T,
        d: K::T,
        e: K::T,
        x: Option<(K::T, K::T)>,
        y: Option<(K::T, K::T)>,
    |
        #![trigger
            call_ensures(K::solve, (k, a, b, c, d, e), x),
            call_ensures(K::solve, (k, a, b, c, d, e), y)
        ]
        call_ensures(K::solve, (k, a, b, c, d, e), x) && call_ensures(
            K::solve,
            (k, a, b, c, d, e),
            y,
        ) ==> x == y
}

/// The exposure of a pixel has one outcome.
pub open spec fn exposures_agree<K: Numerics>(k: &K) -> bool {
    &&& forall|a: K::T, b: K::T, c: K::T, d: K::T, x: bool, y: bool|
        #![trigger
            call_ensures(K::is_still, (k, a, b, c, d), x),
            call_ensures(K::is_still, (k, a, b, c, d), y)
        ]
        call_ensures(K::is_still, (k, a, b, c, d), x) && call_ensures(
            K::is_still,
            (k, a, b, c, d),
            y,
        ) ==> x == y
    &&& forall|s: usize, n: usize, d: K::T, x: K::T, y: K::T|
        #![trigger
            call_ensures(K::tap_offset, (k, s, n, d), x),
            call_ensures(K::tap_offset, (k, s, n, d), y)
        ]
        call_ensures(K::tap_offset, (k, s, n, d), x) && call_ensures(
            K::tap_offset,
            (k, s, n, d),
            y,
        ) ==> x == y
    &&& forall|a: u8, b: u8, c: u8, d: u8, fx: K::T, fy: K::T, x: K::T, y: K::T|
        #![trigger
            call_ensures(K::blend_bytes, (k, a, b, c, d, fx, fy), x),
            call_ensures(K::blend_bytes, (k, a, b, c, d, fx, fy), y)
        ]
        call_ensures(K::blend_bytes, (k, a, b, c, d, fx, fy), x) && call_ensures(
            K::blend_bytes,
            (k, a, b, c, d, fx, fy),
            y,
        ) ==> x == y
    &&& forall|a: K::T, x: K::T, y: K::T|
        #![trigger call_ensures(K::span, (k, a), x), call_ensures(K::span, (k, a), y)]
        call_ensures(K::span, (k, a), x) && call_ensures(K::span, (k, a), y) ==> x == y
    &&& forall|a: K::T, n: usize, x: u8, y: u8|
        #![trigger
            call_ensures(K::mean_byte, (k, a, n), x),
            call_ensures(K::mean_byte, (k, a, n), y)
        ]
        call_ensures(K::mean_byte, (k, a, n), x) && call_ensures(K::mean_byte, (k, a, n), y) ==> x
            == y
}

/// Brightness, order and the steps between motion fields have one outcome.
pub open spec fn motions_agree<K: Numerics>(k: &K) -> bool {
    &&& forall|r: u8, g: u8, b: u8, x: K::T, y: K::T|
        #![trigger call_ensures(K::luma, (k, r, g, b), x), call_ensures(K::luma, (k, r, g, b), y)]
        call_ensures(K::luma, (k, r, g, b), x) && call_ensures(K::luma, (k, r, g, b), y) ==> x == y
    &&& forall|a: K::T, x: K::T, y: K::T|
        #![trigger call_ensures(K::negated, (k, a), x), call_ensures(K::negated, (k, a), y)]
        call_ensures(K::negated, (k, a), x) && call_ensures(K::negated, (k, a), y) ==> x == y
    &&& forall|a: K::T, x: K::T, y: K::T|
        #![trigger call_ensures(K::doubled, (k, a), x), call_ensures(K::doubled, (k, a), y)]
        call_ensures(K::doubled, (k, a), x) && call_ensures(K::doubled, (k, a), y) ==> x == y
    &&& forall|i: usize, x: K::T, y: K::T|
        #![trigger call_ensures(K::half, (k, i), x), call_ensures(K::half, (k, i), y)]
        call_ensures(K::half, (k, i), x) && call_ensures(K::half, (k, i), y) ==> x == y
    &&& forall|p: K::T, n: usize, x: (usize, K::T), y: (usize, K::T)|
        #![trigger
            call_ensures(K::cell_below, (k, p, n), x),
            call_ensures(K::cell_below, (k, p, n), y)
        ]
        call_ensures(K::cell_below, (k, p, n), x) && call_ensures(
            K::cell_below,
            (k, p, n),
            y,
        ) ==> x == y
    &&& forall|a: K::T, x: bool, y: bool|
        #![trigger call_ensures(K::is_ordered, (k, a), x), call_ensures(K::is_ordered, (k, a), y)]
        call_ensures(K::is_ordered, (k, a), x) && call_ensures(K::is_ordered, (k, a), y) ==> x == y
    &&& forall|a: K::T, x: i64, y: i64|
        #![trigger call_ensures(K::rank, (k, a), x), call_ensures(K::rank, (k, a), y)]
        call_ensures(K::rank, (k, a), x) && call_ensures(K::rank, (k, a), y) ==> x == y
    &&& forall|a: K::T, x: bool, y: bool|
        #![trigger
            call_ensures(K::shutter_closed, (k, a), x),
            call_ensures(K::shutter_closed, (k, a), y)
        ]
        call_ensures(K::shutter_closed, (k, a), x) && call_ensures(
            K::shutter_closed,
            (k, a),
            y,
        ) ==> x == y
}

/// Every operation has one outcome.
pub open spec fn is_deterministic<K: Numerics>(k: &K) -> bool {
    &&& sums_agree(k)
    &&& samples_agree(k)
    &&& solutions_agree(k)
    &&& exposures_agree(k)
    &&& motions_agree(k)
}

proof fn lemma_scan<K: Numerics>(k: &K, items: Seq<K::T>, x: Seq<K::T>, y: Seq<K::T>, n: int)
    requires
        sums_agree(k),
        is_scan(k, items, x),
        is_scan(k, items, y),
        0 <= n <= items.len(),
    ensures
        x[n] == y[n],
    decreases n,
{
    if n > 0 {
        lemma_scan(k, items, x, y, n - 1);
        let item = items[n - 1];
    }
}

proof fn lemma_scans<K: Numerics>(k: &K, items: Seq<K::T>, x: Seq<K::T>, y: Seq<K::T>)
    requires
        sums_agree(k),
        is_scan(k, items, x),
        is_scan(k, items, y),
    ensures
        x == y,
{
    assert forall|n: int| 0 <= n < x.len() implies x[n] == y[n] by {
        lemma_scan(k, items, x, y, n);
    }
    assert(x =~= y);
}

/// The box filter has one outcome.
pub proof fn lemma_box<K: Numerics>(
    k: &K,
    src: Seq<K::T>,
    w: int,
    h: int,
    r: int,
    x: Seq<K::T>,
    y: Seq<K::T>,
)
    requires
        sums_agree(k),
        w >= 0,
        h >= 0,
        is_box_filtered(k, src, w, h, r, x),
        is_box_filtered(k, src, w, h, r, y),
    ensures
        x == y,
{
    let (rx, mx, cx) = choose|rx: Seq<Seq<K::T>>, mx: Seq<K::T>, cx: Seq<Seq<K::T>>|
        #[trigger] sums_rows(k, src, w, h, r, rx, mx) && #[trigger] sums_columns(
            k,
            mx,
            w,
            h,
            r,
            cx,
            x,
        );
    let (ry, my, cy) = choose|ry: Seq<Seq<K::T>>, my: Seq<K::T>, cy: Seq<Seq<K::T>>|
        #[trigger] sums_rows(k, src, w, h, r, ry, my) && #[trigger] sums_columns(
            k,
            my,
            w,
            h,
            r,
            cy,
            y,
        );
    assert forall|j: int| 0 <= j < h implies rx[j] == ry[j] by {
        lemma_scans(k, row(src, w, j), rx[j], ry[j]);
    }
    assert forall|i: int| 0 <= i < w * h implies mx[i] == my[i] by {
        lemma_split_index(i, w, h);
    }
    assert(mx =~= my);
    assert forall|j: int| 0 <= j < w implies cx[j] == cy[j] by {
        lemma_scans(k, column(mx, w, h, j), cx[j], cy[j]);
    }
    assert forall|i: int| 0 <= i < w * h implies x[i] == y[i] by {
        lemma_split_index(i, w, h);
    }
    assert(x =~= y);
}

proof fn lemma_window<K: Numerics>(
    k: &K,
    p: Seq<K::T>,
    q: Seq<K::T>,
    w: int,
    h: int,
    r: int,
    x: Seq<K::T>,
    y: Seq<K::T>,
)
    requires
        sums_agree(k),
        w >= 0,
        h >= 0,
        is_window_product(k, p, q, w, h, r, x),
        is_window_product(k, p, q, w, h, r, y),
    ensures
        x == y,
{
    let a = choose|a: Seq<K::T>| #[trigger]
        is_product(k, p, q, a) && is_box_filtered(k, a, w, h, r, x);
    let b = choose|b: Seq<K::T>| #[trigger]
        is_product(k, p, q, b) && is_box_filtered(k, b, w, h, r, y);
    assert(a =~= b);
    lemma_box(k, a, w, h, r, x, y);
}

/// Two tensors with equal entries.
pub open spec fn same_tensor<T>(s: Tensor<T>, t: Tensor<T>) -> bool {
    s.ix@ == t.ix@ && s.iy@ == t.iy@ && s.xx@ == t.xx@ && s.yy@ == t.yy@ && s.xy@ == t.xy@
}

pub(crate) proof fn lemma_tensor<K: Numerics>(
    k: &K,
    a: Seq<K::T>,
    w: int,
    h: int,
    r: int,
    s: Tensor<K::T>,
    t: Tensor<K::T>,
)
    requires
        sums_agree(k),
        solutions_agree(k),
        w >= 0,
        h >= 0,
        is_tensor(k, a, w, h, r, s),
        is_tensor(k, a, w, h, r, t),
    ensures
        same_tensor(s, t),
{
    assert(s.ix@ =~= t.ix@);
    assert(s.iy@ =~= t.iy@);
    lemma_window(k, s.ix@, s.ix@, w, h, r, s.xx@, t.xx@);
    lemma_window(k, s.iy@, s.iy@, w, h, r, s.yy@, t.yy@);
    lemma_window(k, s.ix@, s.iy@, w, h, r, s.xy@, t.xy@);
}

proof fn lemma_sample<K: Numerics>(
    k: &K,
    data: Seq<K::T>,
    w: usize,
    h: usize,
    px: K::T,
    py: K::T,
    x: K::T,
    y: K::T,
)
    requires
        samples_agree(k),
        is_sample(k, data, w, h, px, py, x),
        is_sample(k, data, w, h, px, py, y),
    ensures
        x == y,
{
}

proof fn lemma_mismatch<K: Numerics>(
    k: &K,
    a: Seq<K::T>,
    w: int,
    h: int,
    b: Seq<K::T>,
    bw: usize,
    bh: usize,
    u: Seq<K::T>,
    v: Seq<K::T>,
    x: Seq<K::T>,
    y: Seq<K::T>,
)
    requires
        sums_agree(k),
        samples_agree(k),
        is_mismatch(k, a, w, h, b, bw, bh, u, v, x),
        is_mismatch(k, a, w, h, b, bw, bh, u, v, y),
    ensures
        x == y,
{
    assert forall|i: int| 0 <= i < w * h implies x[i] == y[i] by {
        let (c, d) = ((i % w) as usize, (i / w) as usize);
        assert(is_mismatch_at(k, b, bw, bh, c, d, u[i], v[i], a[i], x[i]));
        assert(is_mismatch_at(k, b, bw, bh, c, d, u[i], v[i], a[i], y[i]));
        lemma_mismatch_at(k, b, bw, bh, c, d, u[i], v[i], a[i], x[i], y[i]);
    }
    assert(x =~= y);
}

proof fn lemma_mismatch_at<K: Numerics>(
    k: &K,
    b: Seq<K::T>,
    bw: usize,
    bh: usize,
    c: usize,
    d: usize,
    u: K::T,
    v: K::T,
    reference: K::T,
    x: K::T,
    y: K::T,
)
    requires
        sums_agree(k),
        samples_agree(k),
        is_mismatch_at(k, b, bw, bh, c, d, u, v, reference, x),
        is_mismatch_at(k, b, bw, bh, c, d, u, v, reference, y),
    ensures
        x == y,
{
    let (px, py, s) = choose|px: K::T, py: K::T, s: K::T|
        call_ensures(K::shifted, (k, c, u), px) && call_ensures(K::shifted, (k, d, v), py)
            && #[trigger] is_sample(k, b, bw, bh, px, py, s) && call_ensures(
            K::minus,
            (k, s, reference),
            x,
        );
    let (qx, qy, t) = choose|px: K::T, py: K::T, s: K::T|
        call_ensures(K::shifted, (k, c, u), px) && call_ensures(K::shifted, (k, d, v), py)
            && #[trigger] is_sample(k, b, bw, bh, px, py, s) && call_ensures(
            K::minus,
            (k, s, reference),
            y,
        );
    lemma_sample(k, b, bw, bh, px, py, s, t);
}

/// One refinement has one outcome.
proof fn lemma_refined<K: Numerics>(
    k: &K,
    s: Tensor<K::T>,
    t: Tensor<K::T>,
    a: Seq<K::T>,
    w: int,
    h: int,
    b: Seq<K::T>,
    bw: usize,
    bh: usize,
    r: int,
    u: Seq<K::T>,
    v: Seq<K::T>,
    x: (Seq<K::T>, Seq<K::T>),
    y: (Seq<K::T>, Seq<K::T>),
)
    requires
        sums_agree(k),
        samples_agree(k),
        solutions_agree(k),
        w >= 0,
        h >= 0,
        same_tensor(s, t),
        is_refined(k, s, a, w, h, b, bw, bh, r, u, v, x.0, x.1),
        is_refined(k, t, a, w, h, b, bw, bh, r, u, v, y.0, y.1),
    ensures
        x == y,
{
    let (dx, px, qx) = choose|d: Seq<K::T>, p: Seq<K::T>, q: Seq<K::T>| #[trigger]
        is_refinement(k, s, a, w, h, b, bw, bh, r, u, v, d, p, q, x.0, x.1);
    let (dy, py, qy) = choose|d: Seq<K::T>, p: Seq<K::T>, q: Seq<K::T>| #[trigger]
        is_refinement(k, t, a, w, h, b, bw, bh, r, u, v, d, p, q, y.0, y.1);
    lemma_mismatch(k, a, w, h, b, bw, bh, u, v, dx, dy);
    lemma_window(k, s.ix@, dx, w, h, r, px, py);
    lemma_window(k, s.iy@, dx, w, h, r, qx, qy);
    assert forall|i: int| 0 <= i < w * h implies x.0[i] == y.0[i] && x.1[i] == y.1[i] by {
        lemma_moved(
            k,
            s.xx@[i],
            s.yy@[i],
            s.xy@[i],
            px[i],
            qx[i],
            u[i],
            v[i],
            (x.0[i], x.1[i]),
            (y.0[i], y.1[i]),
        );
    }
    assert(x.0 =~= y.0);
    assert(x.1 =~= y.1);
}

proof fn lemma_moved<K: Numerics>(
    k: &K,
    xx: K::T,
    yy: K::T,
    xy: K::T,
    xt: K::T,
    yt: K::T,
    u: K::T,
    v: K::T,
    x: (K::T, K::T),
    y: (K::T, K::T),
)
    requires
        sums_agree(k),
        solutions_agree(k),
        is_moved(k, xx, yy, xy, xt, yt, u, v, x.0, x.1),
        is_moved(k, xx, yy, xy, xt, yt, u, v, y.0, y.1),
    ensures
        x == y,
{
}

/// Two runs of refinements from the same motion stay together.
pub(crate) proof fn lemma_runs<K: Numerics>(
    k: &K,
    s: Tensor<K::T>,
    t: Tensor<K::T>,
    a: Seq<K::T>,
    w: int,
    h: int,
    b: Seq<K::T>,
    bw: usize,
    bh: usize,
    r: int,
    us: (Seq<Seq<K::T>>, Seq<Seq<K::T>>),
    vs: (Seq<Seq<K::T>>, Seq<Seq<K::T>>),
    n: int,
)
    requires
        sums_agree(k),
        samples_agree(k),
        solutions_agree(k),
        w >= 0,
        h >= 0,
        same_tensor(s, t),
        is_refinement_run(k, s, a, w, h, b, bw, bh, r, us.0, vs.0),
        is_refinement_run(k, t, a, w, h, b, bw, bh, r, us.1, vs.1),
        0 <= n < us.0.len(),
        n < us.1.len(),
        us.0[0] == us.1[0],
        vs.0[0] == vs.1[0],
    ensures
        us.0[n] == us.1[n],
        vs.0[n] == vs.1[n],
    decreases n,
{
    if n > 0 {
        lemma_runs(k, s, t, a, w, h, b, bw, bh, r, us, vs, n - 1);
        let (u0, u1) = (us.0[n - 1], us.1[n - 1]);
        lemma_refined(
            k,
            s,
            t,
            a,
            w,
            h,
            b,
            bw,
            bh,
            r,
            u0,
            vs.0[n - 1],
            (us.0[n], vs.0[n]),
            (us.1[n], vs.1[n]),
        );
    }
}

/// Iterations add up: `m` of them followed by `n` give what `m + n` give. In
/// particular, none at all change nothing.
pub proof fn law_iterations_add_up<K: Numerics>(
    k: &K,
    a: Seq<K::T>,
    w: int,
    h: int,
    b: Seq<K::T>,
    bw: usize,
    bh: usize,
    r: int,
    m: int,
    n: int,
    start: (Seq<K::T>, Seq<K::T>),
    between: (Seq<K::T>, Seq<K::T>),
    parted: (Seq<K::T>, Seq<K::T>),
    whole: (Seq<K::T>, Seq<K::T>),
)
    requires
        is_deterministic(k),
        w >= 0,
        h >= 0,
        m >= 0,
        n >= 0,
        is_level_solution(k, a, w, h, b, bw, bh, r, m, start.0, start.1, between.0, between.1),
        is_level_solution(k, a, w, h, b, bw, bh, r, n, between.0, between.1, parted.0, parted.1),
        is_level_solution(k, a, w, h, b, bw, bh, r, m + n, start.0, start.1, whole.0, whole.1),
    ensures
        parted == whole,
        m + n == 0 ==> whole == start,
{
    let (t1, us1, vs1) = choose|t: Tensor<K::T>, us: Seq<Seq<K::T>>, vs: Seq<Seq<K::T>>|
        is_tensor(k, a, w, h, r, t) && #[trigger] is_refinement_run(
            k,
            t,
            a,
            w,
            h,
            b,
            bw,
            bh,
            r,
            us,
            vs,
        ) && us.len() == m + 1 && us[0] == start.0 && vs[0] == start.1 && us[m] == between.0
            && vs[m] == between.1;
    let (t2, us2, vs2) = choose|t: Tensor<K::T>, us: Seq<Seq<K::T>>, vs: Seq<Seq<K::T>>|
        is_tensor(k, a, w, h, r, t) && #[trigger] is_refinement_run(
            k,
            t,
            a,
            w,
            h,
            b,
            bw,
            bh,
            r,
            us,
            vs,
        ) && us.len() == n + 1 && us[0] == between.0 && vs[0] == between.1 && us[n] == parted.0
            && vs[n] == parted.1;
    let (t3, us3, vs3) = choose|t: Tensor<K::T>, us: Seq<Seq<K::T>>, vs: Seq<Seq<K::T>>|
        is_tensor(k, a, w, h, r, t) && #[trigger] is_refinement_run(
            k,
            t,
            a,
            w,
            h,
            b,
            bw,
            bh,
            r,
            us,
            vs,
        ) && us.len() == m + n + 1 && us[0] == start.0 && vs[0] == start.1 && us[m + n]
            == whole.0 && vs[m + n] == whole.1;
    lemma_tensor(k, a, w, h, r, t1, t3);
    lemma_tensor(k, a, w, h, r, t2, t3);
    lemma_runs(k, t1, t3, a, w, h, b, bw, bh, r, (us1, us3), (vs1, vs3), m);
    let (ux, vx) = (us3.skip(m), vs3.skip(m));
    law_iterations_part(k, t3, a, w, h, b, bw, bh, r, us3, vs3, m);
    lemma_runs(k, t2, t3, a, w, h, b, bw, bh, r, (us2, ux), (vs2, vx), n);
    assert(ux[n] == us3[m + n]);
    assert(vx[n] == vs3[m + n]);
}

pub(crate) proof fn lemma_gaussian<K: Numerics>(
    k: &K,
    src: Seq<K::T>,
    w: int,
    h: int,
    x: Seq<K::T>,
    y: Seq<K::T>,
)
    requires
        solutions_agree(k),
        is_gaussian_blurred(k, src, w, h, x),
        is_gaussian_blurred(k, src, w, h, y),
    ensures
        x == y,
{
    let a = choose|a: Seq<K::T>| #[trigger]
        is_blurred_rows(k, src, w, h, a) && is_blurred_columns(k, a, w, h, x);
    let b = choose|b: Seq<K::T>| #[trigger]
        is_blurred_rows(k, src, w, h, b) && is_blurred_columns(k, b, w, h, y);
    assert(a =~= b);
    assert(x =~= y);
}

proof fn lemma_downsampled<K: Numerics>(
    k: &K,
    src: Seq<K::T>,
    w: usize,
    h: usize,
    nw: usize,
    nh: usize,
    x: Seq<K::T>,
    y: Seq<K::T>,
)
    requires
        solutions_agree(k),
        samples_agree(k),
        is_downsampled(k, src, w, h, nw, nh, x),
        is_downsampled(k, src, w, h, nw, nh, y),
    ensures
        x == y,
{
    let a = choose|a: Seq<K::T>| #[trigger]
        is_gaussian_blurred(k, src, w as int, h as int, a) && is_thinned(k, a, w, h, nw, nh, x);
    let b = choose|b: Seq<K::T>| #[trigger]
        is_gaussian_blurred(k, src, w as int, h as int, b) && is_thinned(k, b, w, h, nw, nh, y);
    lemma_gaussian(k, src, w as int, h as int, a, b);
    assert forall|i: int| 0 <= i < x.len() implies x[i] == y[i] by {
        let (c, d) = ((i % nw as int) as usize, (i / nw as int) as usize);
        assert(is_sample_at_double(k, a, w, h, c, d, x[i]));
        assert(is_sample_at_double(k, a, w, h, c, d, y[i]));
        let (px, py) = choose|px: K::T, py: K::T|
            call_ensures(K::twice, (k, c), px) && call_ensures(K::twice, (k, d), py)
                && #[trigger] is_sample(k, a, w, h, px, py, x[i]);
        let (qx, qy) = choose|px: K::T, py: K::T|
            call_ensures(K::twice, (k, c), px) && call_ensures(K::twice, (k, d), py)
                && #[trigger] is_sample(k, a, w, h, px, py, y[i]);
        lemma_sample(k, a, w, h, px, py, x[i], y[i]);
    }
    assert(x =~= y);
}

/// More levels never change the finer ones: two pyramids over the same image
/// agree on every level that both have.
pub proof fn law_finer_levels_stay<K: Numerics>(
    k: &K,
    base: Seq<K::T>,
    w: int,
    h: int,
    p: Seq<Seq<K::T>>,
    q: Seq<Seq<K::T>>,
    l: int,
)
    requires
        is_deterministic(k),
        is_pyramid(k, base, w, h, p),
        is_pyramid(k, base, w, h, q),
        0 <= l < p.len(),
        l < q.len(),
    ensures
        p[l] == q[l],
    decreases l,
{
    if l > 0 {
        law_finer_levels_stay(k, base, w, h, p, q, l - 1);
        lemma_downsampled(
            k,
            p[l - 1],
            level_side(w, l - 1) as usize,
            level_side(h, l - 1) as usize,
            level_side(w, l) as usize,
            level_side(h, l) as usize,
            p[l],
            q[l],
        );
    }
}

proof fn lemma_tap<K: Numerics>(
    k: &K,
    frame: Seq<u8>,
    w: usize,
    h: usize,
    x: usize,
    y: usize,
    m: Motion<K::T>,
    n: usize,
    s: usize,
    t: Tap<K::T>,
    u: Tap<K::T>,
)
    requires
        samples_agree(k),
        exposures_agree(k),
        is_tap(k, frame, w, h, x, y, m, n, s, t),
        is_tap(k, frame, w, h, x, y, m, n, s, u),
    ensures
        t.color == u.color,
{
}

proof fn lemma_exposure<K: Numerics>(
    k: &K,
    frame: Seq<u8>,
    w: usize,
    h: usize,
    x: usize,
    y: usize,
    m: Motion<K::T>,
    n: usize,
    taps: (Seq<Tap<K::T>>, Seq<Tap<K::T>>),
    sums: (Seq<(K::T, K::T, K::T)>, Seq<(K::T, K::T, K::T)>),
    s: int,
)
    requires
        sums_agree(k),
        samples_agree(k),
        exposures_agree(k),
        is_exposure(k, frame, w, h, x, y, m, n, taps.0, sums.0),
        is_exposure(k, frame, w, h, x, y, m, n, taps.1, sums.1),
        0 <= s <= taps.0.len(),
        s <= taps.1.len(),
    ensures
        sums.0[s] == sums.1[s],
    decreases s,
{
    if s > 0 {
        lemma_exposure(k, frame, w, h, x, y, m, n, taps, sums, s - 1);
        let (t, u) = (taps.0[s - 1], taps.1[s - 1]);
        lemma_tap(k, frame, w, h, x, y, m, n, (s - 1) as usize, t, u);
    }
}

proof fn lemma_smeared<K: Numerics>(
    k: &K,
    frame: Seq<u8>,
    w: usize,
    h: usize,
    x: usize,
    y: usize,
    m: Motion<K::T>,
    n: usize,
    p: (u8, u8, u8),
    q: (u8, u8, u8),
)
    requires
        sums_agree(k),
        samples_agree(k),
        exposures_agree(k),
        is_smeared(k, frame, w, h, x, y, m, n, p),
        is_smeared(k, frame, w, h, x, y, m, n, q),
    ensures
        p == q,
{
    let (t, a) = choose|t: Seq<Tap<K::T>>, a: Seq<(K::T, K::T, K::T)>|
        {
            &&& #[trigger] is_exposure(k, frame, w, h, x, y, m, n, t, a)
            &&& t.len() == n
            &&& call_ensures(K::mean_byte, (k, a[n as int].0, n), p.0)
            &&& call_ensures(K::mean_byte, (k, a[n as int].1, n), p.1)
            &&& call_ensures(K::mean_byte, (k, a[n as int].2, n), p.2)
        };
    let (u, b) = choose|t: Seq<Tap<K::T>>, a: Seq<(K::T, K::T, K::T)>|
        {
            &&& #[trigger] is_exposure(k, frame, w, h, x, y, m, n, t, a)
            &&& t.len() == n
            &&& call_ensures(K::mean_byte, (k, a[n as int].0, n), q.0)
            &&& call_ensures(K::mean_byte, (k, a[n as int].1, n), q.1)
            &&& call_ensures(K::mean_byte, (k, a[n as int].2, n), q.2)
        };
    lemma_exposure(k, frame, w, h, x, y, m, n, (t, u), (a, b), n as int);
}

proof fn lemma_blurred_pixel<K: Numerics>(
    k: &K,
    frame: Seq<u8>,
    w: usize,
    h: usize,
    fwd: FlowField<K::T>,
    bwd: FlowField<K::T>,
    span: K::T,
    n: usize,
    i: int,
    p: (u8, u8, u8),
    q: (u8, u8, u8),
)
    requires
        is_deterministic(k),
        is_blurred_pixel(k, frame, w, h, fwd, bwd, span, n, i, p),
        is_blurred_pixel(k, frame, w, h, fwd, bwd, span, n, i, q),
    ensures
        p == q,
{
    let (x, y) = ((i % w as int) as usize, (i / w as int) as usize);
    let (m, s) = choose|m: Motion<K::T>, still: bool|
        {
            &&& #[trigger] is_exposed_motion(k, fwd, bwd, span, i, m)
            &&& #[trigger] call_ensures(K::is_still, (k, m.fu, m.fv, m.bu, m.bv), still)
            &&& if still {
                p == (frame[3 * i], frame[3 * i + 1], frame[3 * i + 2])
            } else {
                is_smeared(k, frame, w, h, x, y, m, n, p)
            }
        };
    let (o, t) = choose|m: Motion<K::T>, still: bool|
        {
            &&& #[trigger] is_exposed_motion(k, fwd, bwd, span, i, m)
            &&& #[trigger] call_ensures(K::is_still, (k, m.fu, m.fv, m.bu, m.bv), still)
            &&& if still {
                q == (frame[3 * i], frame[3 * i + 1], frame[3 * i + 2])
            } else {
                is_smeared(k, frame, w, h, x, y, m, n, q)
            }
        };
    assert(m == o);
    assert(s == t);
    if !s {
        lemma_smeared(k, frame, w, h, x, y, m, n, p, q);
    }
}

/// The blur of a frame over a span has one outcome.
pub(crate) proof fn lemma_blurred<K: Numerics>(
    k: &K,
    frame: Seq<u8>,
    w: usize,
    h: usize,
    fwd: FlowField<K::T>,
    bwd: FlowField<K::T>,
    span: K::T,
    n: usize,
    p: Seq<u8>,
    q: Seq<u8>,
)
    requires
        is_deterministic(k),
        is_blurred_over(k, frame, w, h, fwd, bwd, span, n, p),
        is_blurred_over(k, frame, w, h, fwd, bwd, span, n, q),
    ensures
        p == q,
{
    assert forall|j: int| 0 <= j < p.len() implies p[j] == q[j] by {
        let i = j / 3;
        assert(is_pixel_index(i, w, h));
        lemma_blurred_pixel(
            k,
            frame,
            w,
            h,
            fwd,
            bwd,
            span,
            n,
            i,
            (p[3 * i], p[3 * i + 1], p[3 * i + 2]),
            (q[3 * i], q[3 * i + 1], q[3 * i + 2]),
        );
        assert(3 * i <= j < 3 * i + 3);
    }
    assert(p =~= q);
}

/// The blur of a frame has one outcome.
pub proof fn law_blur_is_deterministic<K: Numerics>(
    k: &K,
    frame: Seq<u8>,
    w: usize,
    h: usize,
    fwd: FlowField<K::T>,
    bwd: FlowField<K::T>,
    shutter: K::T,
    samples: usize,
    p: Seq<u8>,
    q: Seq<u8>,
)
    requires
        is_deterministic(k),
        is_motion_blurred(k, frame, w, h, fwd, bwd, shutter, samples, p),
        is_motion_blurred(k, frame, w, h, fwd, bwd, shutter, samples, q),
    ensures
        p == q,
{
    let n = tap_count(samples as int) as usize;
    let a = choose|span: K::T|
        call_ensures(K::span, (k, shutter), span) && #[trigger] is_blurred_over(
            k,
            frame,
            w,
            h,
            fwd,
            bwd,
            span,
            n,
            p,
        );
    let b = choose|span: K::T|
        call_ensures(K::span, (k, shutter), span) && #[trigger] is_blurred_over(
            k,
            frame,
            w,
            h,
            fwd,
            bwd,
            span,
            n,
            q,
        );
    assert(a == b);
    lemma_blurred(k, frame, w, h, fwd, bwd, a, n, p, q);
}

} // verus!
