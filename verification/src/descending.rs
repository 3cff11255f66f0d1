//! What motion estimation on the host amounts to where arithmetic is exact, told
//! over pictures: from the coarsest level down to the finest, and filtered.
use crate::exact::{
    is_exact, law_formulas_are_exact, lemma_bilinear, lemma_fraction, lemma_one, lemma_regroup,
    lemma_scale,
};
use crate::flow::{
    build_pyramid, has_level_sizes, is_course_from, is_level_lifted, is_level_refined, is_lifted,
    is_lifted_motion, is_optical_flow, is_pyramid, is_upscaled, level_data, optical_flow,
    upscale_flow, Course, Lift,
};
use crate::formulas::{
    at_most, bilinear_expr, difference, is_cell, product, short_limit_expr, Expr, Formulas, Scalar,
};
use crate::frames::{is_frame_flow, Settings};
use crate::grid::lemma_join_index;
use crate::image::{is_bilinear, is_zero_field, FlowField, Gray};
use crate::levels::{lemma_level_side, level_count, level_side};
use crate::median::{
    count_before, is_median, is_median_filtered, is_middle, is_ranking, median_flow, precedes,
    rank_of, window9,
};
use crate::model::{
    coarse_cell, coarse_part, edge, four, is_filtered, is_lift, is_middle_of, is_motion_at,
    is_smooth_motion, is_steps, mix, nine, on_grid, one_if, same_on, zero_on, Img,
};
use crate::moving::has_coarse_levels;
use crate::numerics::Numerics;
use crate::reading::{is_half, lemma_half, lemma_zero_at, picture};
use crate::stepping::law_level_is_steps;
use vstd::prelude::*;

verus! {

proof fn lemma_coarse_cell<S: Scalar>(
    s: &S,
    val: spec_fn(S::T) -> real,
    p: S::T,
    n: usize,
    x: int,
    i: usize,
    f: S::T,
)
    requires
        is_exact(s, val),
        n >= 2,
        x >= 0,
        val(p) == (x as real) / (2 as real),
        is_cell(s, at_most(Expr::Given(p), short_limit_expr(n)), i, f),
    ensures
        i == coarse_cell(x, n as int),
        val(f) == coarse_part(x, n as int),
{
    let e = at_most(Expr::Given(p), short_limit_expr(n));
    let c = choose|c: S::T|
        {
            &&& e.gives(s, c)
            &&& #[trigger] call_ensures(S::whole, (s, c), i)
            &&& difference(Expr::Given(c), Expr::Index(i)).gives(s, f)
        };
    law_formulas_are_exact(s, val, e, c);
    law_formulas_are_exact(s, val, difference(Expr::Given(c), Expr::Index(i)), f);
    lemma_fraction(1001, 1000);
    let limit = (n as real) - (1001 as real) / (1000 as real);
    assert(val(c) == (if limit < val(p) {
        limit
    } else {
        val(p)
    })) by {
        reveal_with_fuel(Expr::exact, 4);
    }
    assert(val(f) == val(c) - (i as real)) by {
        reveal_with_fuel(Expr::exact, 3);
    }
    if x <= 2 * n - 3 {
        assert((x as real) <= ((2 * n - 3) as real));
        assert(val(c) == val(p));
        if x % 2 == 0 {
            assert((x as real) == (2 as real) * ((x / 2) as real));
        } else {
            assert((x as real) == (2 as real) * ((x / 2) as real) + (1 as real));
        }
    } else {
        assert((x as real) >= ((2 * n - 2) as real));
        assert(val(c) == limit);
    }
}

proof fn lemma_lifted<S: Scalar>(
    k: &Formulas<S>,
    val: spec_fn(S::T) -> real,
    u: Seq<S::T>,
    v: Seq<S::T>,
    sw: usize,
    sh: usize,
    x: int,
    y: int,
    u2: S::T,
    v2: S::T,
)
    requires
        is_exact(&k.0, val),
        sw >= 2,
        sh >= 2,
        0 <= x <= usize::MAX,
        0 <= y <= usize::MAX,
        is_lifted_motion(k, u, v, sw, sh, x as usize, y as usize, u2, v2),
    ensures
        val(u2) == (2 as real) * four(
            picture(val, u, sw as int),
            sw as int,
            sh as int,
            coarse_cell(x, sw as int),
            coarse_cell(y, sh as int),
            coarse_part(x, sw as int),
            coarse_part(y, sh as int),
        ),
        val(v2) == (2 as real) * four(
            picture(val, v, sw as int),
            sw as int,
            sh as int,
            coarse_cell(x, sw as int),
            coarse_cell(y, sh as int),
            coarse_part(x, sw as int),
            coarse_part(y, sh as int),
        ),
{
    let (cx, cy) = (x as usize, y as usize);
    let s = choose|s: Lift<S::T>| #[trigger] is_lifted(k, u, v, sw, sh, cx, cy, u2, v2, s);
    let ex = product(Expr::Index(cx), Expr::Const(1, 2));
    let ey = product(Expr::Index(cy), Expr::Const(1, 2));
    law_formulas_are_exact(&k.0, val, ex, s.px);
    law_formulas_are_exact(&k.0, val, ey, s.py);
    assert(val(s.px) == (x as real) / (2 as real) && val(s.py) == (y as real) / (2 as real)) by {
        reveal_with_fuel(Expr::exact, 3);
        lemma_scale(x as real, 1, 2);
        lemma_scale(y as real, 1, 2);
    }
    lemma_coarse_cell(&k.0, val, s.px, sw, x, s.cx, s.fx);
    lemma_coarse_cell(&k.0, val, s.py, sh, y, s.cy, s.fy);
    lemma_four(k, val, u, sw, sh, s.cx, s.cy, s.fx, s.fy, s.mu);
    lemma_four(k, val, v, sw, sh, s.cx, s.cy, s.fx, s.fy, s.mv);
    lemma_doubled(k, val, s.mu, u2);
    lemma_doubled(k, val, s.mv, v2);
}

proof fn lemma_doubled<S: Scalar>(k: &Formulas<S>, val: spec_fn(S::T) -> real, a: S::T, b: S::T)
    requires
        is_exact(&k.0, val),
        call_ensures(Formulas::<S>::doubled, (k, a), b),
    ensures
        val(b) == (2 as real) * val(a),
{
    law_formulas_are_exact(&k.0, val, product(Expr::Given(a), Expr::Const(2, 1)), b);
    lemma_scale(val(a), 2, 1);
    reveal_with_fuel(Expr::exact, 3);
}

proof fn lemma_four<S: Scalar>(
    k: &Formulas<S>,
    val: spec_fn(S::T) -> real,
    data: Seq<S::T>,
    w: usize,
    h: usize,
    cx: usize,
    cy: usize,
    fx: S::T,
    fy: S::T,
    out: S::T,
)
    requires
        is_exact(&k.0, val),
        cx < w,
        cy < h,
        is_bilinear(k, data, w, h, cx, cy, fx, fy, out),
    ensures
        val(out) == four(
            picture(val, data, w as int),
            w as int,
            h as int,
            cx as int,
            cy as int,
            val(fx),
            val(fy),
        ),
{
    let (x1, y1) = (edge(cx + 1, w as int), edge(cy + 1, h as int));
    let (s00, s10) = (data[cy * w + cx], data[cy * w + x1]);
    let (s01, s11) = (data[y1 * w + cx], data[y1 * w + x1]);
    let e = bilinear_expr(s00, s10, s01, s11, fx, fy);
    assert(e.gives(&k.0, out));
    law_formulas_are_exact(&k.0, val, e, out);
    lemma_bilinear(val, s00, s10, s01, s11, fx, fy);
}

proof fn lemma_lift<S: Scalar>(
    k: &Formulas<S>,
    val: spec_fn(S::T) -> real,
    u: Seq<S::T>,
    v: Seq<S::T>,
    sw: usize,
    sh: usize,
    w: int,
    h: int,
    u2: Seq<S::T>,
    v2: Seq<S::T>,
)
    requires
        is_exact(&k.0, val),
        sw >= 2,
        sh >= 2,
        w <= usize::MAX,
        h <= usize::MAX,
        is_upscaled(k, u, v, sw, sh, w, h, u2, v2),
    ensures
        is_lift(
            picture(val, u, sw as int),
            sw as int,
            sh as int,
            picture(val, u2, w),
            w,
            h,
        ),
        is_lift(
            picture(val, v, sw as int),
            sw as int,
            sh as int,
            picture(val, v2, w),
            w,
            h,
        ),
{
    let (f, g) = (picture(val, u2, w), picture(val, v2, w));
    assert forall|x: int, y: int| on_grid(x, y, w, h) implies #[trigger] f(x, y) == (2 as real)
        * four(
        picture(val, u, sw as int),
        sw as int,
        sh as int,
        coarse_cell(x, sw as int),
        coarse_cell(y, sh as int),
        coarse_part(x, sw as int),
        coarse_part(y, sh as int),
    ) by {
        lemma_join_index(x, y, w, h);
        let n = y * w + x;
        assert(is_lifted_motion(k, u, v, sw, sh, x as usize, y as usize, u2[n], v2[n]));
        lemma_lifted(k, val, u, v, sw, sh, x, y, u2[n], v2[n]);
    }
    assert forall|x: int, y: int| on_grid(x, y, w, h) implies #[trigger] g(x, y) == (2 as real)
        * four(
        picture(val, v, sw as int),
        sw as int,
        sh as int,
        coarse_cell(x, sw as int),
        coarse_cell(y, sh as int),
        coarse_part(x, sw as int),
        coarse_part(y, sh as int),
    ) by {
        lemma_join_index(x, y, w, h);
        let n = y * w + x;
        assert(is_lifted_motion(k, u, v, sw, sh, x as usize, y as usize, u2[n], v2[n]));
        lemma_lifted(k, val, u, v, sw, sh, x, y, u2[n], v2[n]);
    }
}

proof fn upscale_contract<K: Numerics>(
    k: &K,
    flow: &FlowField<K::T>,
    w: usize,
    h: usize,
    out: FlowField<K::T>,
)
    requires
        call_ensures(upscale_flow::<K>, (k, flow, w, h), out),
    ensures
        out.wf(),
        out.w == w,
        out.h == h,
        is_upscaled(
            k,
            flow.u@,
            flow.v@,
            flow.w,
            flow.h,
            w as int,
            h as int,
            out.u@,
            out.v@,
        ),
{
}

/// A motion field of any shape at twice the resolution is the field doubled and,
/// between its cells, mixed: each component from its own, columns from columns
/// and rows from rows.
pub proof fn law_upscaling_is_a_lift<S: Scalar>(
    k: &Formulas<S>,
    val: spec_fn(S::T) -> real,
    flow: &FlowField<S::T>,
    w: usize,
    h: usize,
    out: FlowField<S::T>,
)
    requires
        is_exact(&k.0, val),
        flow.w >= 2,
        flow.h >= 2,
        call_ensures(upscale_flow::<Formulas<S>>, (k, flow, w, h), out),
    ensures
        out.w == w,
        out.h == h,
        is_lift(
            picture(val, flow.u@, flow.w as int),
            flow.w as int,
            flow.h as int,
            picture(val, out.u@, w as int),
            w as int,
            h as int,
        ),
        is_lift(
            picture(val, flow.v@, flow.w as int),
            flow.w as int,
            flow.h as int,
            picture(val, out.v@, w as int),
            w as int,
            h as int,
        ),
{
    upscale_contract(k, flow, w, h, out);
    lemma_lift(
        k,
        val,
        flow.u@,
        flow.v@,
        flow.w,
        flow.h,
        w as int,
        h as int,
        out.u@,
        out.v@,
    );
}

/// At an even column `2 x` and an even row `2 y` a motion field at twice the
/// resolution holds twice the motion of cell `(x, y)`, whatever the shape of the
/// field; at an odd column it holds the sum of the motions on either side.
pub proof fn law_upscaling_doubles_the_motion<S: Scalar>(
    k: &Formulas<S>,
    val: spec_fn(S::T) -> real,
    flow: &FlowField<S::T>,
    w: usize,
    h: usize,
    out: FlowField<S::T>,
    x: int,
    y: int,
)
    requires
        is_exact(&k.0, val),
        call_ensures(upscale_flow::<Formulas<S>>, (k, flow, w, h), out),
        0 <= x < flow.w - 1,
        0 <= y < flow.h - 1,
        2 * x < w,
        2 * y < h,
    ensures
        val(out.u@[2 * y * w + 2 * x]) == (2 as real) * val(flow.u@[y * flow.w + x]),
        val(out.v@[2 * y * w + 2 * x]) == (2 as real) * val(flow.v@[y * flow.w + x]),
        2 * x + 1 < w ==> {
            &&& val(out.u@[2 * y * w + 2 * x + 1]) == val(flow.u@[y * flow.w + x]) + val(
                flow.u@[y * flow.w + x + 1],
            )
            &&& val(out.v@[2 * y * w + 2 * x + 1]) == val(flow.v@[y * flow.w + x]) + val(
                flow.v@[y * flow.w + x + 1],
            )
        },
        2 * y + 1 < h ==> {
            &&& val(out.u@[(2 * y + 1) * w + 2 * x]) == val(flow.u@[y * flow.w + x]) + val(
                flow.u@[(y + 1) * flow.w + x],
            )
            &&& val(out.v@[(2 * y + 1) * w + 2 * x]) == val(flow.v@[y * flow.w + x]) + val(
                flow.v@[(y + 1) * flow.w + x],
            )
        },
{
    law_upscaling_is_a_lift(k, val, flow, w, h, out);
    let (sw, sh) = (flow.w as int, flow.h as int);
    let (cu, cv) = (picture(val, flow.u@, sw), picture(val, flow.v@, sw));
    let (fu, fv) = (picture(val, out.u@, w as int), picture(val, out.v@, w as int));
    lemma_lift_at(cu, sw, sh, fu, w as int, h as int, x, y);
    lemma_lift_at(cv, sw, sh, fv, w as int, h as int, x, y);
    assert((2 * y) * w + 2 * x == 2 * y * w + 2 * x);
}

proof fn lemma_mix(a: real, b: real, t: real)
    ensures
        t == (0 as real) ==> mix(a, b, t) == a,
        t == (1 as real) / (2 as real) ==> mix(a, b, t) == (a + b) / (2 as real),
{
    lemma_one(a);
    lemma_one(b);
    lemma_regroup(a, t, 2 as real);
    lemma_regroup(b, t, 2 as real);
}

proof fn lemma_lift_at(c: Img, sw: int, sh: int, f: Img, w: int, h: int, x: int, y: int)
    requires
        is_lift(c, sw, sh, f, w, h),
        0 <= x < sw - 1,
        0 <= y < sh - 1,
        2 * x < w,
        2 * y < h,
    ensures
        f(2 * x, 2 * y) == (2 as real) * c(x, y),
        2 * x + 1 < w ==> f(2 * x + 1, 2 * y) == c(x, y) + c(x + 1, y),
        2 * y + 1 < h ==> f(2 * x, 2 * y + 1) == c(x, y) + c(x, y + 1),
{
    assert((2 * x) / 2 == x && (2 * x + 1) / 2 == x);
    assert((2 * y) / 2 == y && (2 * y + 1) / 2 == y);
    assert(on_grid(2 * x, 2 * y, w, h));
    let (half, zero) = ((1 as real) / (2 as real), 0 as real);
    let (p, q) = (c(x, y), c(x + 1, y));
    let (r, s) = (c(x, y + 1), c(x + 1, y + 1));
    lemma_mix(p, q, zero);
    lemma_mix(r, s, zero);
    lemma_mix(p, q, half);
    lemma_mix(r, s, half);
    lemma_mix(p, r, zero);
    lemma_mix(p, r, half);
    lemma_mix(mix(p, q, half), mix(r, s, half), zero);
    assert(f(2 * x, 2 * y) == (2 as real) * four(c, sw, sh, x, y, zero, zero));
    if 2 * x + 1 < w {
        assert(on_grid(2 * x + 1, 2 * y, w, h));
        assert(f(2 * x + 1, 2 * y) == (2 as real) * four(c, sw, sh, x, y, half, zero));
    }
    if 2 * y + 1 < h {
        assert(on_grid(2 * x, 2 * y + 1, w, h));
        assert(f(2 * x, 2 * y + 1) == (2 as real) * four(c, sw, sh, x, y, zero, half));
    }
}

/// The levels of a pyramid as pictures.
pub open spec fn pictures<T>(val: spec_fn(T) -> real, p: Seq<Seq<T>>, w: int) -> Seq<Img> {
    Seq::new(p.len(), |l: int| picture(val, p[l], level_side(w, l)))
}

/// `p` is the pyramid of a picture: the picture itself, and each further level the
/// one before it with half the resolution.
pub open spec fn is_pyramid_of(base: Img, w: int, h: int, p: Seq<Img>) -> bool {
    &&& p.len() >= 1
    &&& same_on(p[0], base, w, h)
    &&& forall|l: int|
        #![trigger p[l]]
        0 < l < p.len() ==> is_half(
            p[l - 1],
            level_side(w, l - 1),
            level_side(h, l - 1),
            p[l],
            level_side(w, l),
            level_side(h, l),
        )
}

proof fn lemma_pyramid<S: Scalar>(
    k: &Formulas<S>,
    val: spec_fn(S::T) -> real,
    base: Seq<S::T>,
    w: int,
    h: int,
    p: Seq<Seq<S::T>>,
)
    requires
        is_exact(&k.0, val),
        0 < w <= usize::MAX,
        0 < h <= usize::MAX,
        is_pyramid(k, base, w, h, p),
    ensures
        is_pyramid_of(picture(val, base, w), w, h, pictures(val, p, w)),
{
    let q = pictures(val, p, w);
    assert forall|l: int|
        #![trigger q[l]]
        0 < l < q.len() implies is_half(
        q[l - 1],
        level_side(w, l - 1),
        level_side(h, l - 1),
        q[l],
        level_side(w, l),
        level_side(h, l),
    ) by {
        lemma_level_side(w, l - 1);
        lemma_level_side(h, l - 1);
        lemma_level_side(w, l);
        lemma_level_side(h, l);
        let level = p[l];
        lemma_half(
            k,
            val,
            p[l - 1],
            level_side(w, l - 1) as usize,
            level_side(h, l - 1) as usize,
            level_side(w, l) as usize,
            level_side(h, l) as usize,
            p[l],
        );
    }
}

pub(crate) proof fn lemma_sides_shrink(n: int, l: int, last: int)
    requires
        n > 0,
        0 <= l <= last,
    ensures
        level_side(n, l) >= level_side(n, last),
    decreases last - l,
{
    if l < last {
        lemma_level_side(n, l);
        lemma_sides_shrink(n, l + 1, last);
    }
}

proof fn lemma_course<S: Scalar>(
    k: &Formulas<S>,
    val: spec_fn(S::T) -> real,
    w: int,
    h: int,
    bw: int,
    bh: int,
    r: int,
    iters: int,
    c: Course<S::T>,
    l: int,
)
    requires
        is_exact(&k.0, val),
        0 < w <= usize::MAX,
        0 < h <= usize::MAX,
        0 < bw <= usize::MAX,
        0 < bh <= usize::MAX,
        0 <= r,
        0 <= iters,
        has_coarse_levels(w, h, c.pa.len() as int),
        is_course_from(k, w, h, bw, bh, r, iters, c, 0),
        0 <= l < c.pa.len(),
    ensures
        is_motion_at(
            pictures(val, c.pa, w),
            pictures(val, c.pb, bw),
            w,
            h,
            bw,
            bh,
            r,
            iters,
            l,
            picture(val, c.done_u[l], level_side(w, l)),
            picture(val, c.done_v[l], level_side(w, l)),
        ),
    decreases c.pa.len() - l,
{
    let n = c.pa.len() as int;
    let (lw, lh) = (level_side(w, l), level_side(h, l));
    let (cw, ch) = (level_side(w, l + 1), level_side(h, l + 1));
    let (aw, ah) = (level_side(bw, l), level_side(bh, l));
    lemma_level_side(w, l);
    lemma_level_side(h, l);
    lemma_level_side(bw, l);
    lemma_level_side(bh, l);
    assert(is_level_refined(k, w, h, bw, bh, r, iters, c, l)) by {
        let done = c.done_u[l];
    }
    law_level_is_steps(
        k,
        val,
        c.pa[l],
        lw,
        lh,
        c.pb[l],
        aw as usize,
        ah as usize,
        r,
        iters,
        c.start_u[l],
        c.start_v[l],
        c.done_u[l],
        c.done_v[l],
    );
    let (su, sv) = (picture(val, c.start_u[l], lw), picture(val, c.start_v[l], lw));
    if l == n - 1 {
        lemma_zero_field(k, val, c.start_u[l], lw, lh);
        lemma_zero_field(k, val, c.start_v[l], lw, lh);
    } else {
        lemma_course(k, val, w, h, bw, bh, r, iters, c, l + 1);
        lemma_level_side(w, l + 1);
        lemma_level_side(h, l + 1);
        assert(is_level_lifted(k, w, h, c, l)) by {
            let start = c.start_u[l];
        }
        lemma_lift(
            k,
            val,
            c.done_u[l + 1],
            c.done_v[l + 1],
            cw as usize,
            ch as usize,
            lw,
            lh,
            c.start_u[l],
            c.start_v[l],
        );
        let (cu, cv) = (picture(val, c.done_u[l + 1], cw), picture(val, c.done_v[l + 1], cw));
        assert(is_lift(cu, cw, ch, su, lw, lh) && is_lift(cv, cw, ch, sv, lw, lh));
    }
    let (pa, pb) = (pictures(val, c.pa, w), pictures(val, c.pb, bw));
    assert(pa[l] == picture(val, c.pa[l], lw));
    assert(pb[l] == picture(val, c.pb[l], aw));
    assert(is_steps(
        pa[l],
        pb[l],
        lw,
        lh,
        aw,
        ah,
        r,
        iters,
        su,
        sv,
        picture(val, c.done_u[l], lw),
        picture(val, c.done_v[l], lw),
    ));
}

proof fn lemma_zero_field<S: Scalar>(
    k: &Formulas<S>,
    val: spec_fn(S::T) -> real,
    field: Seq<S::T>,
    w: int,
    h: int,
)
    requires
        is_exact(&k.0, val),
        field.len() == w * h,
        is_zero_field(k, field),
    ensures
        zero_on(picture(val, field, w), w, h),
{
    let p = picture(val, field, w);
    assert forall|x: int, y: int| on_grid(x, y, w, h) implies #[trigger] p(x, y) == (
    0 as real) by {
        lemma_join_index(x, y, w, h);
        let v = field[y * w + x];
        lemma_zero_at(k, field, y * w + x);
        law_formulas_are_exact(&k.0, val, Expr::Const(0, 1), v);
        lemma_fraction(0, 1);
    }
}

/// `(u, v)` is the motion from one picture to another, estimated over pyramids of
/// `levels` levels.
pub open spec fn is_motion_between(
    a: Img,
    b: Img,
    w: int,
    h: int,
    bw: int,
    bh: int,
    r: int,
    iters: int,
    levels: int,
    u: Img,
    v: Img,
) -> bool {
    exists|pa: Seq<Img>, pb: Seq<Img>|
        {
            &&& is_pyramid_of(a, w, h, pa)
            &&& is_pyramid_of(b, bw, bh, pb)
            &&& pa.len() == levels
            &&& pb.len() == levels
            &&& #[trigger] is_motion_at(pa, pb, w, h, bw, bh, r, iters, 0, u, v)
        }
}

proof fn lemma_motion_between<S: Scalar>(
    k: &Formulas<S>,
    val: spec_fn(S::T) -> real,
    a: Gray<S::T>,
    b: Gray<S::T>,
    r: int,
    iters: int,
    levels: int,
    u: Seq<S::T>,
    v: Seq<S::T>,
)
    requires
        is_exact(&k.0, val),
        a.w > 0,
        a.h > 0,
        b.w > 0,
        b.h > 0,
        0 <= r,
        0 <= iters,
        has_coarse_levels(a.w as int, a.h as int, levels),
        is_optical_flow(k, a, b, r, iters, levels, u, v),
    ensures
        is_motion_between(
            picture(val, a.data@, a.w as int),
            picture(val, b.data@, b.w as int),
            a.w as int,
            a.h as int,
            b.w as int,
            b.h as int,
            r,
            iters,
            levels,
            picture(val, u, a.w as int),
            picture(val, v, a.w as int),
        ),
{
    let (w, h, bw, bh) = (a.w as int, a.h as int, b.w as int, b.h as int);
    let c = choose|c: Course<S::T>|
        {
            &&& c.pa.len() == levels
            &&& is_pyramid(k, a.data@, w, h, c.pa)
            &&& is_pyramid(k, b.data@, bw, bh, c.pb)
            &&& #[trigger] is_course_from(k, w, h, bw, bh, r, iters, c, 0)
            &&& u == c.done_u[0]
            &&& v == c.done_v[0]
        };
    lemma_pyramid(k, val, a.data@, w, h, c.pa);
    lemma_pyramid(k, val, b.data@, bw, bh, c.pb);
    lemma_course(k, val, w, h, bw, bh, r, iters, c, 0);
}

proof fn flow_contract<K: Numerics>(
    k: &K,
    a: &Gray<K::T>,
    b: &Gray<K::T>,
    win_r: usize,
    iters: usize,
    levels: usize,
    flow: FlowField<K::T>,
)
    requires
        call_ensures(optical_flow::<K>, (k, a, b, win_r, iters, levels), flow),
    ensures
        flow.wf(),
        flow.w == a.w,
        flow.h == a.h,
        is_optical_flow(
            k,
            *a,
            *b,
            win_r as int,
            iters as int,
            level_count(a.w as int, a.h as int, levels as int),
            flow.u@,
            flow.v@,
        ),
{
}

/// The estimated motion is that of the first image toward the second.
pub proof fn law_flow_is_the_motion_between<S: Scalar>(
    k: &Formulas<S>,
    val: spec_fn(S::T) -> real,
    a: &Gray<S::T>,
    b: &Gray<S::T>,
    win_r: usize,
    iters: usize,
    levels: usize,
    flow: FlowField<S::T>,
)
    requires
        is_exact(&k.0, val),
        a.w > 0,
        a.h > 0,
        b.w > 0,
        b.h > 0,
        has_coarse_levels(
            a.w as int,
            a.h as int,
            level_count(a.w as int, a.h as int, levels as int),
        ),
        call_ensures(optical_flow::<Formulas<S>>, (k, a, b, win_r, iters, levels), flow),
    ensures
        flow.w == a.w,
        flow.h == a.h,
        is_motion_between(
            picture(val, a.data@, a.w as int),
            picture(val, b.data@, b.w as int),
            a.w as int,
            a.h as int,
            b.w as int,
            b.h as int,
            win_r as int,
            iters as int,
            level_count(a.w as int, a.h as int, levels as int),
            picture(val, flow.u@, a.w as int),
            picture(val, flow.v@, a.w as int),
        ),
{
    flow_contract(k, a, b, win_r, iters, levels, flow);
    lemma_motion_between(
        k,
        val,
        *a,
        *b,
        win_r as int,
        iters as int,
        level_count(a.w as int, a.h as int, levels as int),
        flow.u@,
        flow.v@,
    );
}

/// Ranks order samples as their values do.
pub open spec fn ranks_follow<K: Numerics>(k: &K, val: spec_fn(K::T) -> real) -> bool {
    forall|a: K::T, b: K::T, r: i64, s: i64| #[trigger]
        call_ensures(K::rank, (k, a), r) && #[trigger] call_ensures(K::rank, (k, b), s) ==> (r <= s
            <==> val(a) <= val(b))
}

/// A bit pattern as a number: the highest bit is the sign, the others are the
/// magnitude.
pub open spec fn sign_and_magnitude(bits: u32) -> int {
    if bits >= 0x8000_0000 {
        -(bits - 0x8000_0000)
    } else {
        bits as int
    }
}

/// Bit patterns, read by sign and magnitude, order numbers as their values do.
pub open spec fn bits_follow<S: Scalar>(s: &S, val: spec_fn(S::T) -> real) -> bool {
    forall|a: S::T, b: S::T, x: u32, y: u32| #[trigger]
        call_ensures(S::bits, (s, a), x) && #[trigger] call_ensures(S::bits, (s, b), y) ==> (
        sign_and_magnitude(x) <= sign_and_magnitude(y) <==> val(a) <= val(b))
}

/// Ranks order samples as their values do wherever bit patterns, read by sign and
/// magnitude, do; and what has a place in the order is what is a number.
pub proof fn law_ranks_follow_the_bits<S: Scalar>(
    k: &Formulas<S>,
    val: spec_fn(S::T) -> real,
    a: S::T,
    ordered: bool,
)
    requires
        bits_follow(&k.0, val),
        call_ensures(Formulas::<S>::is_ordered, (k, a), ordered),
    ensures
        ranks_follow(k, val),
        call_ensures(S::is_number, (&k.0, a), ordered),
{
    assert forall|a: S::T, b: S::T, r: i64, s: i64| #[trigger]
        call_ensures(Formulas::<S>::rank, (k, a), r) && #[trigger] call_ensures(
            Formulas::<S>::rank,
            (k, b),
            s,
        ) implies (r <= s <==> val(a) <= val(b)) by {
        let x = choose|bits: u32| #[trigger]
            call_ensures(S::bits, (&k.0, a), bits) && r == rank_of(bits);
        let y = choose|bits: u32| #[trigger]
            call_ensures(S::bits, (&k.0, b), bits) && s == rank_of(bits);
        assert(call_ensures(S::bits, (&k.0, a), x) && call_ensures(S::bits, (&k.0, b), y));
    }
}

proof fn lemma_middle<K: Numerics>(
    k: &K,
    val: spec_fn(K::T) -> real,
    src: Seq<K::T>,
    w: int,
    h: int,
    x: int,
    y: int,
    out: K::T,
)
    requires
        ranks_follow(k, val),
        on_grid(x, y, w, h),
        is_median(k, window9(src, w, h, x, y), out),
    ensures
        is_middle_of(picture(val, src, w), w, h, x, y, val(out)),
{
    let win = window9(src, w, h, x, y);
    let (ranks, p) = choose|ranks: Seq<i64>, p: int|
        is_ranking(k, win, ranks) && #[trigger] is_middle(ranks, p) && out == win[p];
    let f = picture(val, src, w);
    let (l, r) = (edge(x - 1, w), edge(x + 1, w));
    let (t, b) = (edge(y - 1, h), edge(y + 1, h));
    assert forall|j: int| 0 <= j < 9 implies {
        &&& #[trigger] precedes(ranks, j, p) ==> val(win[j]) <= val(out)
        &&& !precedes(ranks, j, p) ==> val(win[j]) >= val(out)
    } by {
        assert(call_ensures(K::rank, (k, win[j]), ranks[j]));
        assert(call_ensures(K::rank, (k, win[p]), ranks[p]));
    }
    let before = |j: int| precedes(ranks, j, p);
    let le = |j: int| val(win[j]) <= val(out);
    let ge = |j: int| val(win[j]) >= val(out);
    let eq = |j: int| val(win[j]) == val(out);
    lemma_count_before(ranks, p, 9);
    assert(!before(p) && le(p) && ge(p) && eq(p));
    lemma_counts(before, le, 9, p);
    lemma_counts_rest(before, ge, 9);
    lemma_counts(|j: int| false, eq, 9, p);
    lemma_count_none(9);
    assert(win[0] == src[t * w + l] && win[1] == src[t * w + x] && win[2] == src[t * w + r]);
    assert(win[3] == src[y * w + l] && win[4] == src[y * w + x] && win[5] == src[y * w + r]);
    assert(win[6] == src[b * w + l] && win[7] == src[b * w + x] && win[8] == src[b * w + r]);
    assert(count_of(le, 9) == nine(f, w, h, x, y, |v: real| v <= val(out))) by {
        reveal_with_fuel(count_of, 10);
    }
    assert(count_of(ge, 9) == nine(f, w, h, x, y, |v: real| v >= val(out))) by {
        reveal_with_fuel(count_of, 10);
    }
    assert(count_of(eq, 9) == nine(f, w, h, x, y, |v: real| v == val(out))) by {
        reveal_with_fuel(count_of, 10);
    }
}

/// How many of the numbers below `n` are `good`.
spec fn count_of(good: spec_fn(int) -> bool, n: int) -> int
    decreases n,
{
    if n <= 0 {
        0
    } else {
        count_of(good, n - 1) + one_if(good(n - 1))
    }
}

proof fn lemma_count_before(ranks: Seq<i64>, p: int, n: int)
    ensures
        count_before(ranks, p, n) == count_of(|j: int| precedes(ranks, j, p), n),
    decreases n,
{
    if n > 0 {
        lemma_count_before(ranks, p, n - 1);
    }
}

proof fn lemma_count_none(n: int)
    ensures
        count_of(|j: int| false, n) == 0,
    decreases n,
{
    if n > 0 {
        lemma_count_none(n - 1);
    }
}

proof fn lemma_counts(f: spec_fn(int) -> bool, g: spec_fn(int) -> bool, n: int, p: int)
    requires
        forall|j: int| 0 <= j < n ==> (#[trigger] f(j) ==> g(j)),
        0 <= p < n ==> !f(p) && g(p),
    ensures
        count_of(f, n) + one_if(0 <= p < n) <= count_of(g, n),
    decreases n,
{
    if n > 0 {
        assert(f(n - 1) ==> g(n - 1));
        lemma_counts(f, g, n - 1, p);
    }
}

proof fn lemma_counts_rest(f: spec_fn(int) -> bool, g: spec_fn(int) -> bool, n: int)
    requires
        forall|j: int| 0 <= j < n ==> (#[trigger] f(j) || g(j)),
        n >= 0,
    ensures
        count_of(f, n) + count_of(g, n) >= n,
    decreases n,
{
    if n > 0 {
        assert(f(n - 1) || g(n - 1));
        lemma_counts_rest(f, g, n - 1);
    }
}

proof fn lemma_filter<K: Numerics>(
    k: &K,
    val: spec_fn(K::T) -> real,
    src: Seq<K::T>,
    w: int,
    h: int,
    dst: Seq<K::T>,
)
    requires
        ranks_follow(k, val),
        is_median_filtered(k, src, w, h, dst),
    ensures
        is_filtered(picture(val, src, w), w, h, picture(val, dst, w)),
{
    let (f, g) = (picture(val, src, w), picture(val, dst, w));
    assert forall|x: int, y: int| on_grid(x, y, w, h) implies is_middle_of(
        f,
        w,
        h,
        x,
        y,
        #[trigger] g(x, y),
    ) by {
        lemma_join_index(x, y, w, h);
        let out = dst[y * w + x];
        lemma_middle(k, val, src, w, h, x, y, out);
    }
}

/// The median filter leaves at every cell of either component the middle value
/// of that component about the cell.
pub proof fn law_median_flow_filters_each_component<K: Numerics>(
    k: &K,
    val: spec_fn(K::T) -> real,
    flow: &FlowField<K::T>,
    out: FlowField<K::T>,
)
    requires
        ranks_follow(k, val),
        call_ensures(median_flow::<K>, (k, flow), out),
    ensures
        out.w == flow.w,
        out.h == flow.h,
        is_filtered(
            picture(val, flow.u@, flow.w as int),
            flow.w as int,
            flow.h as int,
            picture(val, out.u@, flow.w as int),
        ),
        is_filtered(
            picture(val, flow.v@, flow.w as int),
            flow.w as int,
            flow.h as int,
            picture(val, out.v@, flow.w as int),
        ),
{
    lemma_filter(k, val, flow.u@, flow.w as int, flow.h as int, out.u@);
    lemma_filter(k, val, flow.v@, flow.w as int, flow.h as int, out.v@);
}

/// The filtered motion from one picture to another.
pub open spec fn is_smooth_motion_between(
    a: Img,
    b: Img,
    w: int,
    h: int,
    r: int,
    iters: int,
    levels: int,
    u: Img,
    v: Img,
) -> bool {
    exists|pa: Seq<Img>, pb: Seq<Img>|
        {
            &&& is_pyramid_of(a, w, h, pa)
            &&& is_pyramid_of(b, w, h, pb)
            &&& pa.len() == levels
            &&& pb.len() == levels
            &&& #[trigger] is_smooth_motion(pa, pb, w, h, w, h, r, iters, u, v)
        }
}

/// The field that a frame is blurred along is the filtered motion of its own
/// image toward that of the neighbour.
pub(crate) proof fn lemma_frame_flow<S: Scalar>(
    k: &Formulas<S>,
    val: spec_fn(S::T) -> real,
    s: Settings<S::T>,
    a: Gray<S::T>,
    b: Gray<S::T>,
    f: FlowField<S::T>,
)
    requires
        is_exact(&k.0, val),
        ranks_follow(k, val),
        a.w > 0,
        a.h > 0,
        b.w == a.w,
        b.h == a.h,
        has_coarse_levels(
            a.w as int,
            a.h as int,
            level_count(a.w as int, a.h as int, s.levels as int),
        ),
        is_frame_flow(k, s, a, b, f),
    ensures
        f.w == a.w,
        f.h == a.h,
        is_smooth_motion_between(
            picture(val, a.data@, a.w as int),
            picture(val, b.data@, a.w as int),
            a.w as int,
            a.h as int,
            s.window as int,
            s.iters as int,
            level_count(a.w as int, a.h as int, s.levels as int),
            picture(val, f.u@, a.w as int),
            picture(val, f.v@, a.w as int),
        ),
{
    let (w, h) = (a.w as int, a.h as int);
    let levels = level_count(w, h, s.levels as int);
    let (r, iters) = (s.window as int, s.iters as int);
    let (u, v) = choose|u: Seq<S::T>, v: Seq<S::T>|
        {
            &&& #[trigger] is_optical_flow(k, a, b, r, iters, levels, u, v)
            &&& is_median_filtered(k, u, w, h, f.u@)
            &&& is_median_filtered(k, v, w, h, f.v@)
        };
    lemma_motion_between(k, val, a, b, r, iters, levels, u, v);
    let (p, q) = (picture(val, u, w), picture(val, v, w));
    let (pa, pb) = choose|pa: Seq<Img>, pb: Seq<Img>|
        {
            &&& is_pyramid_of(picture(val, a.data@, w), w, h, pa)
            &&& is_pyramid_of(picture(val, b.data@, w), w, h, pb)
            &&& pa.len() == levels
            &&& pb.len() == levels
            &&& #[trigger] is_motion_at(pa, pb, w, h, w, h, r, iters, 0, p, q)
        };
    lemma_filter(k, val, u, w, h, f.u@);
    lemma_filter(k, val, v, w, h, f.v@);
    assert(is_smooth_motion(
        pa,
        pb,
        w,
        h,
        w,
        h,
        r,
        iters,
        picture(val, f.u@, w),
        picture(val, f.v@, w),
    ));
}

proof fn pyramid_contract<K: Numerics>(
    k: &K,
    base: &Gray<K::T>,
    levels: usize,
    pyr: Vec<Gray<K::T>>,
)
    requires
        call_ensures(build_pyramid::<K>, (k, base, levels), pyr),
    ensures
        pyr.len() == (if levels > 0 {
            levels
        } else {
            1
        }),
        has_level_sizes(pyr@, base.w as int, base.h as int),
        is_pyramid(k, base.data@, base.w as int, base.h as int, level_data(pyr@)),
{
}

/// A pyramid has as many levels as were asked for, at least one: the image itself,
/// then each level the one before it with half the resolution.
pub proof fn law_pyramid_halves_level_by_level<S: Scalar>(
    k: &Formulas<S>,
    val: spec_fn(S::T) -> real,
    base: &Gray<S::T>,
    levels: usize,
    pyr: Vec<Gray<S::T>>,
    l: int,
)
    requires
        is_exact(&k.0, val),
        base.w > 0,
        base.h > 0,
        call_ensures(build_pyramid::<Formulas<S>>, (k, base, levels), pyr),
        0 <= l < pyr@.len(),
    ensures
        levels > 0 ==> pyr@.len() == levels,
        levels == 0 ==> pyr@.len() == 1,
        l == 0 ==> pyr@[l].w == base.w && pyr@[l].h == base.h && same_on(
            picture(val, pyr@[l].data@, base.w as int),
            picture(val, base.data@, base.w as int),
            base.w as int,
            base.h as int,
        ),
        l > 0 ==> {
            let (a, b) = (pyr@[l - 1], pyr@[l]);
            &&& b.w >= 1 && b.h >= 1
            &&& a.w >= 2 ==> 2 * b.w <= a.w <= 2 * b.w + 1
            &&& a.h >= 2 ==> 2 * b.h <= a.h <= 2 * b.h + 1
            &&& is_half(
                picture(val, a.data@, a.w as int),
                a.w as int,
                a.h as int,
                picture(val, b.data@, b.w as int),
                b.w as int,
                b.h as int,
            )
        },
{
    pyramid_contract(k, base, levels, pyr);
    let (w, h) = (base.w as int, base.h as int);
    lemma_pyramid(k, val, base.data@, w, h, level_data(pyr@));
    let q = pictures(val, level_data(pyr@), w);
    let last = pyr@[l];
    assert(q[l] == picture(val, pyr@[l].data@, level_side(w, l)));
    if l > 0 {
        let before = pyr@[l - 1];
        assert(q[l - 1] == picture(val, pyr@[l - 1].data@, level_side(w, l - 1)));
    }
}

} // verus!
