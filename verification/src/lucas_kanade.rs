//! One level of Lucas-Kanade motion refinement.
use crate::boxsum::{box_filter, is_box_filtered};
use crate::grid::{ahead, back, index, lemma_split_index, lesser};
use crate::image::{is_sample, FlowField, Gray};
use crate::numerics::Numerics;
use crate::parallel::par_map;
use vstd::prelude::*;

verus! {

/// `ix` and `iy` are the central differences of `a` along rows and columns.
pub open spec fn is_gradient<K: Numerics>(
    k: &K,
    a: Seq<K::T>,
    w: int,
    h: int,
    ix: Seq<K::T>,
    iy: Seq<K::T>,
) -> bool {
    &&& ix.len() == w * h
    &&& iy.len() == w * h
    &&& forall|i: int|
        0 <= i < w * h ==> is_slope_x(k, a, w, i % w, i / w, #[trigger] ix[i])
    &&& forall|i: int|
        0 <= i < w * h ==> is_slope_y(k, a, w, h, i % w, i / w, #[trigger] iy[i])
}

/// The central difference along the row at column `x` of row `y`.
pub open spec fn is_slope_x<K: Numerics>(
    k: &K,
    a: Seq<K::T>,
    w: int,
    x: int,
    y: int,
    out: K::T,
) -> bool {
    call_ensures(
        K::slope,
        (k, a[y * w + lesser(x + 1, w - 1)], a[y * w + (if x >= 1 { x - 1 } else { 0 })]),
        out,
    )
}

/// The central difference along the column at row `y` of column `x`.
pub open spec fn is_slope_y<K: Numerics>(
    k: &K,
    a: Seq<K::T>,
    w: int,
    h: int,
    x: int,
    y: int,
    out: K::T,
) -> bool {
    call_ensures(
        K::slope,
        (k, a[lesser(y + 1, h - 1) * w + x], a[(if y >= 1 { y - 1 } else { 0 }) * w + x]),
        out,
    )
}

/// `out` is the product of `p` and `q`, entry by entry.
pub open spec fn is_product<K: Numerics>(
    k: &K,
    p: Seq<K::T>,
    q: Seq<K::T>,
    out: Seq<K::T>,
) -> bool {
    &&& out.len() == p.len()
    &&& forall|i: int|
        0 <= i < p.len() ==> call_ensures(K::times, (k, p[i], q[i]), #[trigger] out[i])
}

/// `out` is the product of `p` and `q`, summed over the window of radius `r`.
pub open spec fn is_window_product<K: Numerics>(
    k: &K,
    p: Seq<K::T>,
    q: Seq<K::T>,
    w: int,
    h: int,
    r: int,
    out: Seq<K::T>,
) -> bool {
    exists|prod: Seq<K::T>| #[trigger]
        is_product(k, p, q, prod) && is_box_filtered(k, prod, w, h, r, out)
}

/// Everything about the reference image that stays fixed while the motion is
/// refined: its gradient and the structure tensor.
pub struct Tensor<T> {
    pub ix: Vec<T>,
    pub iy: Vec<T>,
    pub xx: Vec<T>,
    pub yy: Vec<T>,
    pub xy: Vec<T>,
}

/// The gradient of `a`, and its products summed over the window of radius `r`.
pub open spec fn is_tensor<K: Numerics>(
    k: &K,
    a: Seq<K::T>,
    w: int,
    h: int,
    r: int,
    t: Tensor<K::T>,
) -> bool {
    &&& is_gradient(k, a, w, h, t.ix@, t.iy@)
    &&& is_window_product(k, t.ix@, t.ix@, w, h, r, t.xx@)
    &&& is_window_product(k, t.iy@, t.iy@, w, h, r, t.yy@)
    &&& is_window_product(k, t.ix@, t.iy@, w, h, r, t.xy@)
}

/// `out` is how much the moved image, at the position that cell `(x, y)` has
/// moved to by `(u, v)`, exceeds `reference`.
pub open spec fn is_mismatch_at<K: Numerics>(
    k: &K,
    b: Seq<K::T>,
    bw: usize,
    bh: usize,
    x: usize,
    y: usize,
    u: K::T,
    v: K::T,
    reference: K::T,
    out: K::T,
) -> bool {
    exists|px: K::T, py: K::T, warped: K::T|
        call_ensures(K::shifted, (k, x, u), px) && call_ensures(K::shifted, (k, y, v), py)
            && #[trigger] is_sample(k, b, bw, bh, px, py, warped) && call_ensures(
            K::minus,
            (k, warped, reference),
            out,
        )
}

/// `diff` holds, for every cell, the mismatch between the reference image `a`
/// and the image `b` warped by the motion `(u, v)`.
pub open spec fn is_mismatch<K: Numerics>(
    k: &K,
    a: Seq<K::T>,
    w: int,
    h: int,
    b: Seq<K::T>,
    bw: usize,
    bh: usize,
    u: Seq<K::T>,
    v: Seq<K::T>,
    diff: Seq<K::T>,
) -> bool {
    &&& diff.len() == w * h
    &&& forall|i: int|
        0 <= i < w * h ==> is_mismatch_at(
            k,
            b,
            bw,
            bh,
            (i % w) as usize,
            (i / w) as usize,
            u[i],
            v[i],
            a[i],
            #[trigger] diff[i],
        )
}

/// The motion `(u, v)` of one cell becomes `(u2, v2)`: the update that solves
/// the normal equations is added, or nothing where they have no solution.
pub open spec fn is_moved<K: Numerics>(
    k: &K,
    xx: K::T,
    yy: K::T,
    xy: K::T,
    xt: K::T,
    yt: K::T,
    u: K::T,
    v: K::T,
    u2: K::T,
    v2: K::T,
) -> bool {
    exists|step: Option<(K::T, K::T)>| #[trigger]
        call_ensures(K::solve, (k, xx, yy, xy, xt, yt), step) && match step {
            None => u2 == u && v2 == v,
            Some(d) => call_ensures(K::plus, (k, u, d.0), u2) && call_ensures(
                K::plus,
                (k, v, d.1),
                v2,
            ),
        }
}

/// One refinement: with the mismatch `diff` of the motion `(u, v)`, weighted by
/// the gradient and summed over the window (`sxt`, `syt`), every cell moves.
pub open spec fn is_refinement<K: Numerics>(
    k: &K,
    t: Tensor<K::T>,
    a: Seq<K::T>,
    w: int,
    h: int,
    b: Seq<K::T>,
    bw: usize,
    bh: usize,
    r: int,
    u: Seq<K::T>,
    v: Seq<K::T>,
    diff: Seq<K::T>,
    sxt: Seq<K::T>,
    syt: Seq<K::T>,
    u2: Seq<K::T>,
    v2: Seq<K::T>,
) -> bool {
    &&& is_mismatch(k, a, w, h, b, bw, bh, u, v, diff)
    &&& is_window_product(k, t.ix@, diff, w, h, r, sxt)
    &&& is_window_product(k, t.iy@, diff, w, h, r, syt)
    &&& u2.len() == w * h
    &&& v2.len() == w * h
    &&& forall|i: int|
        #![trigger u2[i]]
        #![trigger v2[i]]
        0 <= i < w * h ==> is_moved(
            k,
            t.xx@[i],
            t.yy@[i],
            t.xy@[i],
            sxt[i],
            syt[i],
            u[i],
            v[i],
            u2[i],
            v2[i],
        )
}

/// One refinement takes the motion `(u, v)` to `(u2, v2)`.
pub open spec fn is_refined<K: Numerics>(
    k: &K,
    t: Tensor<K::T>,
    a: Seq<K::T>,
    w: int,
    h: int,
    b: Seq<K::T>,
    bw: usize,
    bh: usize,
    r: int,
    u: Seq<K::T>,
    v: Seq<K::T>,
    u2: Seq<K::T>,
    v2: Seq<K::T>,
) -> bool {
    exists|diff: Seq<K::T>, sxt: Seq<K::T>, syt: Seq<K::T>| #[trigger]
        is_refinement(k, t, a, w, h, b, bw, bh, r, u, v, diff, sxt, syt, u2, v2)
}

/// `us` and `vs` are the successive motions of a refinement run, from the
/// incoming estimate to the outcome.
pub open spec fn is_refinement_run<K: Numerics>(
    k: &K,
    t: Tensor<K::T>,
    a: Seq<K::T>,
    w: int,
    h: int,
    b: Seq<K::T>,
    bw: usize,
    bh: usize,
    r: int,
    us: Seq<Seq<K::T>>,
    vs: Seq<Seq<K::T>>,
) -> bool {
    &&& us.len() == vs.len()
    &&& forall|j: int|
        #![trigger us[j]]
        0 <= j < us.len() - 1 ==> is_refined(
            k,
            t,
            a,
            w,
            h,
            b,
            bw,
            bh,
            r,
            us[j],
            vs[j],
            us[j + 1],
            vs[j + 1],
        )
}

/// `iters` refinements with window radius `r` take the motion `(u, v)` of the
/// cells of `a` toward `b` to `(u2, v2)`.
pub open spec fn is_level_solution<K: Numerics>(
    k: &K,
    a: Seq<K::T>,
    w: int,
    h: int,
    b: Seq<K::T>,
    bw: usize,
    bh: usize,
    r: int,
    iters: int,
    u: Seq<K::T>,
    v: Seq<K::T>,
    u2: Seq<K::T>,
    v2: Seq<K::T>,
) -> bool {
    exists|t: Tensor<K::T>, us: Seq<Seq<K::T>>, vs: Seq<Seq<K::T>>|
        is_tensor(k, a, w, h, r, t) && #[trigger] is_refinement_run(
            k,
            t,
            a,
            w,
            h,
            b,
            bw,
            bh,
            r,
            us,
            vs,
        ) && us.len() == iters + 1 && us[0] == u && vs[0] == v && us[iters] == u2 && vs[iters]
            == v2
}

fn window_product<K: Numerics>(
    k: &K,
    p: &Vec<K::T>,
    q: &Vec<K::T>,
    w: usize,
    h: usize,
    r: usize,
) -> (out: Vec<K::T>)
    requires
        w > 0,
        p.len() == w * h,
        q.len() == w * h,
    ensures
        out.len() == w * h,
        is_window_product(k, p@, q@, w as int, h as int, r as int, out@),
{
    let prod = par_map(
        w * h,
        |i: usize| -> (out: K::T)
            requires
                w * h > i,
                p.len() == w * h,
                q.len() == w * h,
            ensures
                call_ensures(K::times, (k, p@[i as int], q@[i as int]), out)
            { k.times(p[i], q[i]) },
    );
    assert(is_product(k, p@, q@, prod@));
    box_filter(k, prod.as_slice(), w, h, r)
}

fn gradient_x<K: Numerics>(k: &K, a: &Gray<K::T>) -> (ix: Vec<K::T>)
    requires
        a.wf(),
    ensures
        ix.len() == a.w * a.h,
        forall|i: int|
            0 <= i < a.w * a.h ==> is_slope_x(
                k,
                a.data@,
                a.w as int,
                i % a.w as int,
                i / a.w as int,
                #[trigger] ix@[i],
            ),
{
    let w: usize = a.w;
    let h: usize = a.h;
    par_map(
        w * h,
        |i: usize| -> (out: K::T)
            requires
                w * h > i,
                a.wf(),
                a.w == w,
                a.h == h,
            ensures
                is_slope_x(k, a.data@, w as int, i as int % w as int, i as int / w as int, out)
            {
                proof {
                    lemma_split_index(i as int, w as int, h as int);
                }
                let x: usize = i % w;
                let y: usize = i / w;
                k.slope(
                    a.data[index(ahead(x, 1, w), y, w, h)],
                    a.data[index(back(x, 1), y, w, h)],
                )
            },
    )
}

fn gradient_y<K: Numerics>(k: &K, a: &Gray<K::T>) -> (iy: Vec<K::T>)
    requires
        a.wf(),
    ensures
        iy.len() == a.w * a.h,
        forall|i: int|
            0 <= i < a.w * a.h ==> is_slope_y(
                k,
                a.data@,
                a.w as int,
                a.h as int,
                i % a.w as int,
                i / a.w as int,
                #[trigger] iy@[i],
            ),
{
    let w: usize = a.w;
    let h: usize = a.h;
    par_map(
        w * h,
        |i: usize| -> (out: K::T)
            requires
                w * h > i,
                a.wf(),
                a.w == w,
                a.h == h,
            ensures
                is_slope_y(
                    k,
                    a.data@,
                    w as int,
                    h as int,
                    i as int % w as int,
                    i as int / w as int,
                    out,
                )
            {
                proof {
                    lemma_split_index(i as int, w as int, h as int);
                }
                let x: usize = i % w;
                let y: usize = i / w;
                k.slope(
                    a.data[index(x, ahead(y, 1, h), w, h)],
                    a.data[index(x, back(y, 1), w, h)],
                )
            },
    )
}

/// Gradient and structure tensor of a reference image.
pub fn tensor<K: Numerics>(k: &K, a: &Gray<K::T>, r: usize) -> (t: Tensor<K::T>)
    requires
        a.wf(),
        a.w > 0,
    ensures
        is_tensor(k, a.data@, a.w as int, a.h as int, r as int, t),
        t.ix.len() == a.w * a.h,
        t.iy.len() == a.w * a.h,
        t.xx.len() == a.w * a.h,
        t.yy.len() == a.w * a.h,
        t.xy.len() == a.w * a.h,
{
    let ix = gradient_x(k, a);
    let iy = gradient_y(k, a);
    let xx = window_product(k, &ix, &ix, a.w, a.h, r);
    let yy = window_product(k, &iy, &iy, a.w, a.h, r);
    let xy = window_product(k, &ix, &iy, a.w, a.h, r);
    Tensor { ix, iy, xx, yy, xy }
}

/// How much the image `b`, warped by `flow`, exceeds the reference image.
pub fn mismatch<K: Numerics>(
    k: &K,
    a: &Gray<K::T>,
    b: &Gray<K::T>,
    flow: &FlowField<K::T>,
) -> (diff: Vec<K::T>)
    requires
        a.wf(),
        b.wf(),
        a.h > 0 ==> b.w >= 2 && b.h >= 2,
        flow.wf(),
        flow.w == a.w,
        flow.h == a.h,
    ensures
        diff.len() == a.w * a.h,
        is_mismatch(
            k,
            a.data@,
            a.w as int,
            a.h as int,
            b.data@,
            b.w,
            b.h,
            flow.u@,
            flow.v@,
            diff@,
        ),
{
    let w: usize = a.w;
    let h: usize = a.h;
    par_map(
        w * h,
        |i: usize| -> (out: K::T)
            requires
                w * h > i,
                a.wf(),
                a.w == w,
                a.h == h,
                b.wf(),
                h > 0 ==> b.w >= 2 && b.h >= 2,
                flow.wf(),
                flow.w == w,
                flow.h == h,
            ensures
                is_mismatch_at(
                    k,
                    b.data@,
                    b.w,
                    b.h,
                    (i as int % w as int) as usize,
                    (i as int / w as int) as usize,
                    flow.u@[i as int],
                    flow.v@[i as int],
                    a.data@[i as int],
                    out,
                )
            {
                proof {
                    lemma_split_index(i as int, w as int, h as int);
                }
                let px = k.shifted(i % w, flow.u[i]);
                let py = k.shifted(i / w, flow.v[i]);
                let warped = b.sample(k, px, py);
                k.minus(warped, a.data[i])
            },
    )
}

/// Takes the components of a list of vectors apart.
pub(crate) fn unzip<T: Copy>(pairs: &Vec<(T, T)>) -> (parts: (Vec<T>, Vec<T>))
    ensures
        parts.0.len() == pairs.len(),
        parts.1.len() == pairs.len(),
        forall|i: int| 0 <= i < pairs.len() ==> #[trigger] parts.0@[i] == pairs@[i].0,
        forall|i: int| 0 <= i < pairs.len() ==> #[trigger] parts.1@[i] == pairs@[i].1,
{
    let mut left: Vec<T> = Vec::new();
    let mut right: Vec<T> = Vec::new();
    let mut i: usize = 0;
    while i < pairs.len()
        invariant
            i <= pairs.len(),
            left.len() == i,
            right.len() == i,
            forall|j: int| 0 <= j < i ==> #[trigger] left@[j] == pairs@[j].0,
            forall|j: int| 0 <= j < i ==> #[trigger] right@[j] == pairs@[j].1,
        decreases pairs.len() - i,
    {
        left.push(pairs[i].0);
        right.push(pairs[i].1);
        i += 1;
    }
    (left, right)
}

/// One refinement of `flow` in place.
pub fn refine<K: Numerics>(
    k: &K,
    t: &Tensor<K::T>,
    a: &Gray<K::T>,
    b: &Gray<K::T>,
    flow: &mut FlowField<K::T>,
    r: usize,
)
    requires
        a.wf(),
        a.w > 0,
        b.wf(),
        a.h > 0 ==> b.w >= 2 && b.h >= 2,
        old(flow).wf(),
        old(flow).w == a.w,
        old(flow).h == a.h,
        t.ix.len() == a.w * a.h,
        t.iy.len() == a.w * a.h,
        t.xx.len() == a.w * a.h,
        t.yy.len() == a.w * a.h,
        t.xy.len() == a.w * a.h,
    ensures
        final(flow).wf(),
        final(flow).w == a.w,
        final(flow).h == a.h,
        is_refined(
            k,
            *t,
            a.data@,
            a.w as int,
            a.h as int,
            b.data@,
            b.w,
            b.h,
            r as int,
            old(flow).u@,
            old(flow).v@,
            final(flow).u@,
            final(flow).v@,
        ),
{
    let w: usize = a.w;
    let h: usize = a.h;
    let diff = mismatch(k, a, b, flow);
    let sxt = window_product(k, &t.ix, &diff, w, h, r);
    let syt = window_product(k, &t.iy, &diff, w, h, r);
    let u = &flow.u;
    let v = &flow.v;
    let moved: Vec<(K::T, K::T)> = par_map(
        w * h,
        |i: usize| -> (m: (K::T, K::T))
            requires
                w * h > i,
                t.xx.len() == w * h,
                t.yy.len() == w * h,
                t.xy.len() == w * h,
                sxt.len() == w * h,
                syt.len() == w * h,
                u.len() == w * h,
                v.len() == w * h,
            ensures
                is_moved(
                    k,
                    t.xx@[i as int],
                    t.yy@[i as int],
                    t.xy@[i as int],
                    sxt@[i as int],
                    syt@[i as int],
                    u@[i as int],
                    v@[i as int],
                    m.0,
                    m.1,
                )
            {
                let step = k.solve(t.xx[i], t.yy[i], t.xy[i], sxt[i], syt[i]);
                assert(call_ensures(
                    K::solve,
                    (
                        k,
                        t.xx@[i as int],
                        t.yy@[i as int],
                        t.xy@[i as int],
                        sxt@[i as int],
                        syt@[i as int],
                    ),
                    step,
                ));
                match step {
                    None => (u[i], v[i]),
                    Some(d) => (k.plus(u[i], d.0), k.plus(v[i], d.1)),
                }
            },
    );
    let (u2, v2) = unzip(&moved);
    proof {
        assert forall|i: int| 0 <= i < w * h implies is_moved(
            k,
            t.xx@[i],
            t.yy@[i],
            t.xy@[i],
            sxt@[i],
            syt@[i],
            u@[i],
            v@[i],
            #[trigger] u2@[i],
            v2@[i],
        ) by {
            assert(moved@[i].0 == u2@[i]);
            assert(moved@[i].1 == v2@[i]);
        }
        assert(is_refinement(
            k,
            *t,
            a.data@,
            w as int,
            h as int,
            b.data@,
            b.w,
            b.h,
            r as int,
            flow.u@,
            flow.v@,
            diff@,
            sxt@,
            syt@,
            u2@,
            v2@,
        ));
    }
    flow.u = u2;
    flow.v = v2;
}

/// One level of iterative Lucas-Kanade refinement.
///
/// `a` is the reference image, `b` the image to be aligned. `flow` holds the
/// incoming estimate and is updated in place.
pub fn lk_level<K: Numerics>(
    k: &K,
    a: &Gray<K::T>,
    b: &Gray<K::T>,
    flow: &mut FlowField<K::T>,
    win_r: usize,
    iters: usize,
)
    requires
        a.wf(),
        a.w > 0,
        b.wf(),
        iters > 0 && a.h > 0 ==> b.w >= 2 && b.h >= 2,
        old(flow).wf(),
        old(flow).w == a.w,
        old(flow).h == a.h,
    ensures
        final(flow).wf(),
        final(flow).w == a.w,
        final(flow).h == a.h,
        is_level_solution(
            k,
            a.data@,
            a.w as int,
            a.h as int,
            b.data@,
            b.w,
            b.h,
            win_r as int,
            iters as int,
            old(flow).u@,
            old(flow).v@,
            final(flow).u@,
            final(flow).v@,
        ),
{
    let t = tensor(k, a, win_r);
    let ghost mut us: Seq<Seq<K::T>> = seq![flow.u@];
    let ghost mut vs: Seq<Seq<K::T>> = seq![flow.v@];
    let mut i: usize = 0;
    while i < iters
        invariant
            i <= iters,
            a.wf(),
            a.w > 0,
            b.wf(),
            iters > 0 && a.h > 0 ==> b.w >= 2 && b.h >= 2,
            flow.wf(),
            flow.w == a.w,
            flow.h == a.h,
            t.ix.len() == a.w * a.h,
            t.iy.len() == a.w * a.h,
            t.xx.len() == a.w * a.h,
            t.yy.len() == a.w * a.h,
            t.xy.len() == a.w * a.h,
            us.len() == i + 1,
            us[0] == old(flow).u@,
            vs[0] == old(flow).v@,
            us[i as int] == flow.u@,
            vs[i as int] == flow.v@,
            is_refinement_run(
                k,
                t,
                a.data@,
                a.w as int,
                a.h as int,
                b.data@,
                b.w,
                b.h,
                win_r as int,
                us,
                vs,
            ),
        decreases iters - i,
    {
        refine(k, &t, a, b, flow, win_r);
        proof {
            us = us.push(flow.u@);
            vs = vs.push(flow.v@);
        }
        i += 1;
    }
}

/// Iterations join up: a run that starts where another ended continues it. No
/// state besides the motion is carried from one iteration to the next.
pub proof fn law_iterations_join<K: Numerics>(
    k: &K,
    t: Tensor<K::T>,
    a: Seq<K::T>,
    w: int,
    h: int,
    b: Seq<K::T>,
    bw: usize,
    bh: usize,
    r: int,
    us: (Seq<Seq<K::T>>, Seq<Seq<K::T>>),
    vs: (Seq<Seq<K::T>>, Seq<Seq<K::T>>),
)
    requires
        us.0.len() > 0,
        us.1.len() > 0,
        is_refinement_run(k, t, a, w, h, b, bw, bh, r, us.0, vs.0),
        is_refinement_run(k, t, a, w, h, b, bw, bh, r, us.1, vs.1),
        us.1[0] == us.0.last(),
        vs.1[0] == vs.0.last(),
    ensures
        is_refinement_run(
            k,
            t,
            a,
            w,
            h,
            b,
            bw,
            bh,
            r,
            us.0 + us.1.skip(1),
            vs.0 + vs.1.skip(1),
        ),
{
    let (u, v) = (us.0 + us.1.skip(1), vs.0 + vs.1.skip(1));
    let m = us.0.len() as int;
    assert forall|j: int|
        #![trigger u[j]]
        0 <= j < u.len() - 1 implies is_refined(
        k,
        t,
        a,
        w,
        h,
        b,
        bw,
        bh,
        r,
        u[j],
        v[j],
        u[j + 1],
        v[j + 1],
    ) by {
        if j < m - 1 {
            let here = us.0[j];
        } else {
            let here = us.1[j - (m - 1)];
        }
    }
}

/// Iterations part: what follows the first `m` of a run is a run by itself, and
/// so are those.
pub proof fn law_iterations_part<K: Numerics>(
    k: &K,
    t: Tensor<K::T>,
    a: Seq<K::T>,
    w: int,
    h: int,
    b: Seq<K::T>,
    bw: usize,
    bh: usize,
    r: int,
    us: Seq<Seq<K::T>>,
    vs: Seq<Seq<K::T>>,
    m: int,
)
    requires
        is_refinement_run(k, t, a, w, h, b, bw, bh, r, us, vs),
        0 <= m < us.len(),
    ensures
        is_refinement_run(k, t, a, w, h, b, bw, bh, r, us.take(m + 1), vs.take(m + 1)),
        is_refinement_run(k, t, a, w, h, b, bw, bh, r, us.skip(m), vs.skip(m)),
{
    let (u, v) = (us.skip(m), vs.skip(m));
    assert forall|j: int|
        #![trigger u[j]]
        0 <= j < u.len() - 1 implies is_refined(
        k,
        t,
        a,
        w,
        h,
        b,
        bw,
        bh,
        r,
        u[j],
        v[j],
        u[j + 1],
        v[j + 1],
    ) by {
        let here = us[m + j];
    }
    let (p, q) = (us.take(m + 1), vs.take(m + 1));
    assert forall|j: int|
        #![trigger p[j]]
        0 <= j < p.len() - 1 implies is_refined(
        k,
        t,
        a,
        w,
        h,
        b,
        bw,
        bh,
        r,
        p[j],
        q[j],
        p[j + 1],
        q[j + 1],
    ) by {
        let here = us[j];
    }
}

} // verus!
