//! What becomes of a frame on the host where arithmetic is exact, told over
//! pictures: which motion it is blurred along, and which way that motion points.
use crate::blur::is_motion_blurred;
use crate::descending::{
    is_pyramid_of, is_smooth_motion_between, lemma_frame_flow, lemma_sides_shrink, ranks_follow,
};
use crate::exact::{
    is_exact, law_formulas_are_exact, law_shutter_is_closed_at_zero, lemma_distribute,
};
use crate::flow::{estimable, is_optical_flow};
use crate::formulas::{opposite, Expr, Formulas, Scalar};
use crate::frames::{
    choose_path, frame_flow, is_blurred_frame, is_flow_or_none, is_frame_flow, is_kept, is_motion,
    is_negated, is_processed, is_turned, is_unordered_flow, is_unordered_motion, is_workable,
    negate_flow, process_frame, Path, Role, Settings,
};
use crate::grid::lemma_join_index;
use crate::image::{FlowField, Gray};
use crate::levels::{
    law_level_count, lemma_level_side, level_count, level_side, pyramid_level_count,
};
use crate::median::{all_ordered, has_unordered, is_median_filtered, is_ordered};
use crate::model::{
    across, edge, is_blur, is_smooth_motion, on_grid, same_on, slope_x, slope_y, slopes_x, slopes_y,
    soft, Img,
};
use crate::moving::{
    has_coarse_levels, is_at_rest, law_motion_along_x, law_motion_along_y,
    law_smooth_motion_at_rest, lemma_product_sign,
};
use crate::numerics::Numerics;
use crate::reading::picture;
use crate::smearing::lemma_blur;
use vstd::prelude::*;

verus! {

/// Frames of `w` by `h` pixels that are estimated in at least one iteration have
/// no levels too small for it.
proof fn lemma_coarse_levels<T>(s: Settings<T>, w: int, h: int)
    requires
        h > 0,
        s.iters >= 1,
        is_workable(s, w, h),
    ensures
        w > 0,
        has_coarse_levels(w, h, level_count(w, h, s.levels as int)),
        level_count(w, h, s.levels as int) >= 1,
{
    law_level_count(w, h, s.levels as int);
    let levels = level_count(w, h, s.levels as int);
    assert forall|l: int| 0 < l < levels implies #[trigger] level_side(w, l) >= 2 && level_side(
        h,
        l,
    ) >= 2 by {
        lemma_sides_shrink(w, l, levels - 1);
        lemma_sides_shrink(h, l, levels - 1);
    }
}

proof fn frame_flow_contract<K: Numerics>(
    k: &K,
    s: &Settings<K::T>,
    a: &Gray<K::T>,
    b: &Gray<K::T>,
    r: Option<FlowField<K::T>>,
)
    requires
        call_ensures(frame_flow::<K>, (k, s, a, b), r),
    ensures
        is_flow_or_none(k, *s, *a, *b, r),
{
}

/// The motion that a frame is blurred along is that of the frame itself toward
/// its neighbour, filtered.
pub proof fn law_frame_flow_is_the_motion_ahead<S: Scalar>(
    k: &Formulas<S>,
    val: spec_fn(S::T) -> real,
    s: &Settings<S::T>,
    a: &Gray<S::T>,
    b: &Gray<S::T>,
    f: FlowField<S::T>,
)
    requires
        is_exact(&k.0, val),
        ranks_follow(k, val),
        a.h > 0,
        b.w == a.w,
        b.h == a.h,
        s.iters >= 1,
        is_workable(*s, a.w as int, a.h as int),
        call_ensures(frame_flow::<Formulas<S>>, (k, s, a, b), Some(f)),
    ensures
        f.w == a.w,
        f.h == a.h,
        is_smooth_motion_between(
            picture(val, a.data@, a.w as int),
            picture(val, b.data@, a.w as int),
            a.w as int,
            a.h as int,
            s.window as int,
            s.iters as int,
            level_count(a.w as int, a.h as int, s.levels as int),
            picture(val, f.u@, a.w as int),
            picture(val, f.v@, a.w as int),
        ),
{
    frame_flow_contract(k, s, a, b, Some(f));
    lemma_coarse_levels(*s, a.w as int, a.h as int);
    lemma_frame_flow(k, val, *s, *a, *b, f);
}

/// Pyramids of one level are the pictures themselves.
proof fn lemma_one_level(a: Img, b: Img, w: int, h: int, r: int, iters: int, u: Img, v: Img) -> (p:
    (Img, Img))
    requires
        is_smooth_motion_between(a, b, w, h, r, iters, 1, u, v),
    ensures
        same_on(p.0, a, w, h),
        same_on(p.1, b, w, h),
        is_smooth_motion(seq![p.0], seq![p.1], w, h, w, h, r, iters, u, v),
{
    let (pa, pb) = choose|pa: Seq<Img>, pb: Seq<Img>|
        {
            &&& is_pyramid_of(a, w, h, pa)
            &&& is_pyramid_of(b, w, h, pb)
            &&& pa.len() == 1
            &&& pb.len() == 1
            &&& #[trigger] is_smooth_motion(pa, pb, w, h, w, h, r, iters, u, v)
        };
    assert(pa =~= seq![pa[0]]);
    assert(pb =~= seq![pb[0]]);
    (pa[0], pb[0])
}

/// A frame whose brightness changes evenly from column to column, and a neighbour in
/// which all of it has moved by `t` columns: the motion points the way it moved,
/// right where `t` is positive, left where it is negative, and nowhere else.
pub proof fn law_motion_points_along_x<S: Scalar>(
    k: &Formulas<S>,
    val: spec_fn(S::T) -> real,
    s: &Settings<S::T>,
    a: &Gray<S::T>,
    b: &Gray<S::T>,
    f: FlowField<S::T>,
    c: real,
    d: real,
    t: real,
    x: int,
    y: int,
)
    requires
        is_exact(&k.0, val),
        ranks_follow(k, val),
        a.w >= 2,
        b.w == a.w,
        b.h == a.h,
        a.data@.len() == a.w * a.h,
        s.iters == 1,
        level_count(a.w as int, a.h as int, s.levels as int) == 1,
        is_workable(*s, a.w as int, a.h as int),
        call_ensures(frame_flow::<Formulas<S>>, (k, s, a, b), Some(f)),
        c != (0 as real),
        forall|i: int|
            0 <= i < a.data@.len() ==> val(#[trigger] a.data@[i]) == c * ((i % a.w as int) as real)
                + d,
        forall|i: int|
            0 <= i < a.data@.len() ==> val(#[trigger] b.data@[i]) == c * (((i % a.w as int) as real)
                - t) + d,
        on_grid(x, y, a.w as int, a.h as int),
    ensures
        t > (0 as real) ==> val(f.u@[y * a.w + x]) > (0 as real),
        t < (0 as real) ==> val(f.u@[y * a.w + x]) < (0 as real),
        t == (0 as real) ==> val(f.u@[y * a.w + x]) == (0 as real),
        val(f.v@[y * a.w + x]) == (0 as real),
{
    law_frame_flow_is_the_motion_ahead(k, val, s, a, b, f);
    let (w, h) = (a.w as int, a.h as int);
    let (u, v) = (picture(val, f.u@, w), picture(val, f.v@, w));
    let (pa, pb) = (picture(val, a.data@, w), picture(val, b.data@, w));
    let (p, q) = lemma_one_level(pa, pb, w, h, s.window as int, 1, u, v);
    let e = -(c * t);
    let up = c > (0 as real);
    assert forall|i: int, j: int| on_grid(i, j, w, h) implies #[trigger] p(i, j) == c * (i as real)
        + d by {
        lemma_join_index(i, j, w, h);
        assert(p(i, j) == pa(i, j));
        assert(val(a.data@[j * w + i]) == c * (i as real) + d);
    }
    assert forall|i: int, j: int| on_grid(i, j, w, h) implies #[trigger] q(i, j) == p(i, j) + e by {
        lemma_join_index(i, j, w, h);
        assert(q(i, j) == pb(i, j));
        assert(val(b.data@[j * w + i]) == c * ((i as real) - t) + d);
        lemma_distribute(c, i as real, t);
        assert(p(i, j) == c * (i as real) + d);
    }
    assert forall|i: int, j: int| on_grid(i, j, w, h) implies #[trigger] slopes_y(p, h)(i, j) == (
    0 as real) by {
        assert(p(i, edge(j + 1, h)) == c * (i as real) + d);
        assert(p(i, edge(j - 1, h)) == c * (i as real) + d);
    }
    assert forall|i: int, j: int| on_grid(i, j, w, h) implies (if up {
        #[trigger] slope_x(p, w, i, j) > (0 as real)
    } else {
        slope_x(p, w, i, j) < (0 as real)
    }) by {
        let (hi, lo) = (edge(i + 1, w), edge(i - 1, w));
        assert(p(edge(i + 1, w), j) == c * (hi as real) + d);
        assert(p(edge(i - 1, w), j) == c * (lo as real) + d);
        lemma_distribute(c, hi as real, lo as real);
        lemma_product_sign(c, (hi as real) - (lo as real));
    }
    law_motion_along_x(p, q, w, h, s.window as int, e, up, u, v, x, y);
    lemma_product_sign(c, t);
}

/// A frame whose brightness changes evenly from row to row, and a neighbour in
/// which all of it has moved by `t` rows: the motion points the way it moved,
/// down where `t` is positive, up where it is negative, and nowhere else.
pub proof fn law_motion_points_along_y<S: Scalar>(
    k: &Formulas<S>,
    val: spec_fn(S::T) -> real,
    s: &Settings<S::T>,
    a: &Gray<S::T>,
    b: &Gray<S::T>,
    f: FlowField<S::T>,
    c: real,
    d: real,
    t: real,
    x: int,
    y: int,
)
    requires
        is_exact(&k.0, val),
        ranks_follow(k, val),
        a.h >= 2,
        b.w == a.w,
        b.h == a.h,
        a.data@.len() == a.w * a.h,
        s.iters == 1,
        level_count(a.w as int, a.h as int, s.levels as int) == 1,
        is_workable(*s, a.w as int, a.h as int),
        call_ensures(frame_flow::<Formulas<S>>, (k, s, a, b), Some(f)),
        c != (0 as real),
        forall|i: int|
            0 <= i < a.data@.len() ==> val(#[trigger] a.data@[i]) == c * ((i / a.w as int) as real)
                + d,
        forall|i: int|
            0 <= i < a.data@.len() ==> val(#[trigger] b.data@[i]) == c * (((i / a.w as int) as real)
                - t) + d,
        on_grid(x, y, a.w as int, a.h as int),
    ensures
        t > (0 as real) ==> val(f.v@[y * a.w + x]) > (0 as real),
        t < (0 as real) ==> val(f.v@[y * a.w + x]) < (0 as real),
        t == (0 as real) ==> val(f.v@[y * a.w + x]) == (0 as real),
        val(f.u@[y * a.w + x]) == (0 as real),
{
    law_frame_flow_is_the_motion_ahead(k, val, s, a, b, f);
    let (w, h) = (a.w as int, a.h as int);
    let (u, v) = (picture(val, f.u@, w), picture(val, f.v@, w));
    let (pa, pb) = (picture(val, a.data@, w), picture(val, b.data@, w));
    let (p, q) = lemma_one_level(pa, pb, w, h, s.window as int, 1, u, v);
    let e = -(c * t);
    let up = c > (0 as real);
    assert forall|i: int, j: int| on_grid(i, j, w, h) implies #[trigger] p(i, j) == c * (j as real)
        + d by {
        lemma_join_index(i, j, w, h);
        assert(p(i, j) == pa(i, j));
        assert(val(a.data@[j * w + i]) == c * (j as real) + d);
    }
    assert forall|i: int, j: int| on_grid(i, j, w, h) implies #[trigger] q(i, j) == p(i, j) + e by {
        lemma_join_index(i, j, w, h);
        assert(q(i, j) == pb(i, j));
        assert(val(b.data@[j * w + i]) == c * ((j as real) - t) + d);
        lemma_distribute(c, j as real, t);
        assert(p(i, j) == c * (j as real) + d);
    }
    assert forall|i: int, j: int| on_grid(i, j, w, h) implies #[trigger] slopes_x(p, w)(i, j) == (
    0 as real) by {
        assert(p(edge(i + 1, w), j) == c * (j as real) + d);
        assert(p(edge(i - 1, w), j) == c * (j as real) + d);
    }
    assert forall|i: int, j: int| on_grid(i, j, w, h) implies (if up {
        #[trigger] slope_y(p, h, i, j) > (0 as real)
    } else {
        slope_y(p, h, i, j) < (0 as real)
    }) by {
        let (hi, lo) = (edge(j + 1, h), edge(j - 1, h));
        assert(p(i, edge(j + 1, h)) == c * (hi as real) + d);
        assert(p(i, edge(j - 1, h)) == c * (lo as real) + d);
        lemma_distribute(c, hi as real, lo as real);
        lemma_product_sign(c, (hi as real) - (lo as real));
    }
    law_motion_along_y(p, q, w, h, s.window as int, e, up, u, v, x, y);
    lemma_product_sign(c, t);
}

/// Two pyramids of the same picture agree on every level.
proof fn lemma_same_pyramids(a: Img, b: Img, w: int, h: int, pa: Seq<Img>, pb: Seq<Img>, l: int)
    requires
        w > 0,
        h > 0,
        same_on(a, b, w, h),
        is_pyramid_of(a, w, h, pa),
        is_pyramid_of(b, w, h, pb),
        0 <= l < pa.len(),
        l < pb.len(),
    ensures
        same_on(pa[l], pb[l], level_side(w, l), level_side(h, l)),
    decreases l,
{
    if l > 0 {
        lemma_same_pyramids(a, b, w, h, pa, pb, l - 1);
        lemma_level_side(w, l - 1);
        lemma_level_side(h, l - 1);
        let (f, g) = (pa[l], pb[l]);
        let (p, q) = (pa[l - 1], pb[l - 1]);
        let (lw, lh) = (level_side(w, l - 1), level_side(h, l - 1));
        assert forall|x: int, y: int|
            on_grid(x, y, level_side(w, l), level_side(h, l)) implies #[trigger] f(x, y) == g(
            x,
            y,
        ) by {
            lemma_soft_same(p, q, lw, lh, edge(2 * x, lw), edge(2 * y, lh));
            assert(g(x, y) == soft(q, lw, lh, edge(2 * x, lw), edge(2 * y, lh)));
        }
    }
}

proof fn lemma_across_same(p: Img, q: Img, w: int, h: int, x: int, y: int)
    requires
        on_grid(x, y, w, h),
        same_on(p, q, w, h),
    ensures
        across(p, w, x, y) == across(q, w, x, y),
{
    assert(p(edge(x - 2, w), y) == q(edge(x - 2, w), y));
    assert(p(edge(x - 1, w), y) == q(edge(x - 1, w), y));
    assert(p(x, y) == q(x, y));
    assert(p(edge(x + 1, w), y) == q(edge(x + 1, w), y));
    assert(p(edge(x + 2, w), y) == q(edge(x + 2, w), y));
}

proof fn lemma_soft_same(p: Img, q: Img, w: int, h: int, x: int, y: int)
    requires
        on_grid(x, y, w, h),
        same_on(p, q, w, h),
    ensures
        soft(p, w, h, x, y) == soft(q, w, h, x, y),
{
    lemma_across_same(p, q, w, h, x, edge(y - 2, h));
    lemma_across_same(p, q, w, h, x, edge(y - 1, h));
    lemma_across_same(p, q, w, h, x, y);
    lemma_across_same(p, q, w, h, x, edge(y + 1, h));
    lemma_across_same(p, q, w, h, x, edge(y + 2, h));
}

/// Every level of the pyramid of a flat picture is flat.
proof fn lemma_flat_pyramid(a: Img, c: real, w: int, h: int, pa: Seq<Img>, l: int)
    requires
        w > 0,
        h > 0,
        forall|x: int, y: int| on_grid(x, y, w, h) ==> #[trigger] a(x, y) == c,
        is_pyramid_of(a, w, h, pa),
        0 <= l < pa.len(),
    ensures
        forall|x: int, y: int|
            on_grid(x, y, level_side(w, l), level_side(h, l)) ==> #[trigger] pa[l](x, y) == c,
    decreases l,
{
    if l > 0 {
        lemma_flat_pyramid(a, c, w, h, pa, l - 1);
        lemma_level_side(w, l - 1);
        lemma_level_side(h, l - 1);
        let (f, p) = (pa[l], pa[l - 1]);
        let (lw, lh) = (level_side(w, l - 1), level_side(h, l - 1));
        let flat = |x: int, y: int| c;
        assert(same_on(p, flat, lw, lh));
        assert forall|x: int, y: int|
            on_grid(x, y, level_side(w, l), level_side(h, l)) implies #[trigger] f(x, y) == c by {
            lemma_soft_same(p, flat, lw, lh, edge(2 * x, lw), edge(2 * y, lh));
        }
    }
}

/// Equal frames do not move, and a frame without any detail does not move, be its
/// neighbour what it may: the motion is that of the first image.
pub proof fn law_nothing_moves_without_reason<S: Scalar>(
    k: &Formulas<S>,
    val: spec_fn(S::T) -> real,
    s: &Settings<S::T>,
    a: &Gray<S::T>,
    b: &Gray<S::T>,
    f: FlowField<S::T>,
    c: real,
    x: int,
    y: int,
)
    requires
        is_exact(&k.0, val),
        ranks_follow(k, val),
        b.w == a.w,
        b.h == a.h,
        s.iters >= 1,
        is_workable(*s, a.w as int, a.h as int),
        call_ensures(frame_flow::<Formulas<S>>, (k, s, a, b), Some(f)),
        on_grid(x, y, a.w as int, a.h as int),
        a.data@.len() == a.w * a.h,
        ({
            ||| forall|i: int|
                0 <= i < a.data@.len() ==> val(#[trigger] a.data@[i]) == val(b.data@[i])
            ||| forall|i: int| 0 <= i < a.data@.len() ==> val(#[trigger] a.data@[i]) == c
        }),
    ensures
        val(f.u@[y * a.w + x]) == (0 as real),
        val(f.v@[y * a.w + x]) == (0 as real),
{
    law_frame_flow_is_the_motion_ahead(k, val, s, a, b, f);
    let (w, h) = (a.w as int, a.h as int);
    lemma_coarse_levels(*s, w, h);
    let levels = level_count(w, h, s.levels as int);
    let (p, q) = (picture(val, a.data@, w), picture(val, b.data@, w));
    let (u, v) = (picture(val, f.u@, w), picture(val, f.v@, w));
    let (r, iters) = (s.window as int, s.iters as int);
    let (pa, pb) = choose|pa: Seq<Img>, pb: Seq<Img>|
        {
            &&& is_pyramid_of(p, w, h, pa)
            &&& is_pyramid_of(q, w, h, pb)
            &&& pa.len() == levels
            &&& pb.len() == levels
            &&& #[trigger] is_smooth_motion(pa, pb, w, h, w, h, r, iters, u, v)
        };
    assert forall|l: int| 0 <= l < pa.len() implies is_at_rest(
        #[trigger] pa[l],
        pb[l],
        level_side(w, l),
        level_side(h, l),
        level_side(w, l),
        level_side(h, l),
    ) by {
        lemma_level_side(w, l);
        lemma_level_side(h, l);
        if forall|i: int| 0 <= i < a.data@.len() ==> val(#[trigger] a.data@[i]) == val(b.data@[i]) {
            assert forall|i: int, j: int| on_grid(i, j, w, h) implies #[trigger] p(i, j) == q(
                i,
                j,
            ) by {
                lemma_join_index(i, j, w, h);
                assert(val(a.data@[j * w + i]) == val(b.data@[j * w + i]));
            }
            lemma_same_pyramids(p, q, w, h, pa, pb, l);
        } else {
            assert forall|i: int, j: int| on_grid(i, j, w, h) implies #[trigger] p(i, j) == c by {
                lemma_join_index(i, j, w, h);
                assert(val(a.data@[j * w + i]) == c);
            }
            lemma_flat_pyramid(p, c, w, h, pa, l);
            let (lw, lh) = (level_side(w, l), level_side(h, l));
            let g = pa[l];
            assert forall|i: int, j: int| on_grid(i, j, lw, lh) implies #[trigger] slopes_x(g, lw)(
                i,
                j,
            ) == (0 as real) by {
                assert(g(edge(i + 1, lw), j) == c && g(edge(i - 1, lw), j) == c);
            }
            assert forall|i: int, j: int| on_grid(i, j, lw, lh) implies #[trigger] slopes_y(g, lh)(
                i,
                j,
            ) == (0 as real) by {
                assert(g(i, edge(j + 1, lh)) == c && g(i, edge(j - 1, lh)) == c);
            }
        }
    }
    law_smooth_motion_at_rest(pa, pb, w, h, w, h, r, iters, u, v, x, y);
}

/// The picture of a motion turned round.
pub open spec fn turned(f: Img) -> Img {
    |x: int, y: int| -f(x, y)
}

proof fn lemma_turned<S: Scalar>(
    k: &Formulas<S>,
    val: spec_fn(S::T) -> real,
    from: Seq<S::T>,
    to: Seq<S::T>,
    w: int,
    h: int,
)
    requires
        is_exact(&k.0, val),
        from.len() == w * h,
        is_negated(k, from, to),
    ensures
        same_on(picture(val, to, w), turned(picture(val, from, w)), w, h),
{
    let (p, q) = (picture(val, to, w), turned(picture(val, from, w)));
    assert forall|x: int, y: int| on_grid(x, y, w, h) implies #[trigger] p(x, y) == q(x, y) by {
        lemma_join_index(x, y, w, h);
        let i = y * w + x;
        let out = to[i];
        assert(call_ensures(Formulas::<S>::negated, (k, from[i]), out));
        law_formulas_are_exact(&k.0, val, opposite(Expr::Given(from[i])), out);
        reveal_with_fuel(Expr::exact, 2);
    }
}

proof fn process_contract<K: Numerics>(
    k: &K,
    s: &Settings<K::T>,
    role: Role,
    rgb: &Vec<u8>,
    cur: &Gray<K::T>,
    prev: &Gray<K::T>,
    next: &Gray<K::T>,
    cache: Option<FlowField<K::T>>,
    out: Vec<u8>,
    kept: Option<FlowField<K::T>>,
)
    requires
        call_ensures(
            process_frame::<K>,
            (k, s, role, rgb, cur, prev, next, cache),
            Some((out, kept)),
        ),
    ensures
        is_processed(k, *s, role, rgb@, *cur, *prev, *next, cache, out@, kept),
{
}

/// The two motions that a frame is blurred along: ahead, its motion toward the
/// next frame, and for the last frame of all none but its own; behind, its motion
/// toward the previous frame, or the kept motion of that frame turned round.
pub open spec fn are_motions<T>(
    val: spec_fn(T) -> real,
    s: Settings<T>,
    role: Role,
    cur: Gray<T>,
    prev: Gray<T>,
    next: Gray<T>,
    cache: Option<FlowField<T>>,
    fu: Img,
    fv: Img,
    bu: Img,
    bv: Img,
) -> bool {
    let (w, h) = (cur.w as int, cur.h as int);
    let (r, iters) = (s.window as int, s.iters as int);
    let levels = level_count(w, h, s.levels as int);
    let here = picture(val, cur.data@, w);
    let ahead = if role == Role::Last {
        here
    } else {
        picture(val, next.data@, w)
    };
    let behind = picture(val, prev.data@, w);
    &&& is_smooth_motion_between(here, ahead, w, h, r, iters, levels, fu, fv)
    &&& if s.flow_cache && role != Role::Last && cache is Some {
        &&& same_on(bu, turned(picture(val, cache->0.u@, w)), w, h)
        &&& same_on(bv, turned(picture(val, cache->0.v@, w)), w, h)
    } else {
        is_smooth_motion_between(here, behind, w, h, r, iters, levels, bu, bv)
    }
}

/// What becomes of a frame: with the shutter closed it stays as it is, and
/// otherwise it is blurred along its motions, ahead and behind. The motion ahead
/// is kept where the cache is in use, but not that of the last frame.
pub proof fn law_frame_is_blurred_along_its_motions<S: Scalar>(
    k: &Formulas<S>,
    val: spec_fn(S::T) -> real,
    s: &Settings<S::T>,
    role: Role,
    rgb: &Vec<u8>,
    cur: &Gray<S::T>,
    prev: &Gray<S::T>,
    next: &Gray<S::T>,
    cache: Option<FlowField<S::T>>,
    out: Vec<u8>,
    kept: Option<FlowField<S::T>>,
)
    requires
        is_exact(&k.0, val),
        ranks_follow(k, val),
        cur.h > 0,
        prev.w == cur.w,
        prev.h == cur.h,
        next.w == cur.w,
        next.h == cur.h,
        s.iters >= 1,
        is_workable(*s, cur.w as int, cur.h as int),
        cache is Some ==> cache->0.wf() && cache->0.w == cur.w && cache->0.h == cur.h,
        call_ensures(
            process_frame::<Formulas<S>>,
            (k, s, role, rgb, cur, prev, next, cache),
            Some((out, kept)),
        ),
    ensures
        val(s.shutter) <= (0 as real) ==> out@ == rgb@ && kept == cache,
        val(s.shutter) > (0 as real) ==> {
            &&& kept is Some <==> s.flow_cache && role != Role::Last
            &&& exists|fu: Img, fv: Img, bu: Img, bv: Img|
                {
                    &&& #[trigger] is_blur(
                        rgb@,
                        cur.w as int,
                        cur.h as int,
                        fu,
                        fv,
                        bu,
                        bv,
                        val(s.shutter),
                        s.samples as int,
                        out@,
                    )
                    &&& are_motions(val, *s, role, *cur, *prev, *next, cache, fu, fv, bu, bv)
                    &&& kept is Some ==> {
                        &&& same_on(
                            picture(val, kept->0.u@, cur.w as int),
                            fu,
                            cur.w as int,
                            cur.h as int,
                        )
                        &&& same_on(
                            picture(val, kept->0.v@, cur.w as int),
                            fv,
                            cur.w as int,
                            cur.h as int,
                        )
                    }
                }
        },
{
    process_contract(k, s, role, rgb, cur, prev, next, cache, out, kept);
    let (w, h) = (cur.w as int, cur.h as int);
    lemma_coarse_levels(*s, w, h);
    if call_ensures(Formulas::<S>::shutter_closed, (k, s.shutter), true) {
        law_shutter_is_closed_at_zero(k, val, s.shutter, true);
    }
    if call_ensures(Formulas::<S>::shutter_closed, (k, s.shutter), false) {
        law_shutter_is_closed_at_zero(k, val, s.shutter, false);
    }
    if val(s.shutter) > (0 as real) {
        assert(is_blurred_frame(k, *s, role, rgb@, *cur, *prev, *next, cache, out@, kept));
        let (fwd, bwd) = choose|fwd: FlowField<S::T>, bwd: FlowField<S::T>|
            {
                &&& #[trigger] is_motion(k, *s, role, *cur, *prev, *next, cache, fwd, bwd)
                &&& is_motion_blurred(
                    k,
                    rgb@,
                    cur.w,
                    cur.h,
                    fwd,
                    bwd,
                    s.shutter,
                    s.samples,
                    out@,
                )
                &&& is_kept(*s, role, fwd, kept)
            };
        lemma_blur(
            k,
            val,
            rgb@,
            cur.w,
            cur.h,
            fwd,
            bwd,
            s.shutter,
            s.samples,
            out@,
        );
        let target = if role == Role::Last {
            *cur
        } else {
            *next
        };
        lemma_frame_flow(k, val, *s, *cur, target, fwd);
        let (fu, fv) = (picture(val, fwd.u@, w), picture(val, fwd.v@, w));
        let (bu, bv) = (picture(val, bwd.u@, w), picture(val, bwd.v@, w));
        if s.flow_cache && role != Role::Last && cache is Some {
            let ahead = cache->0;
            assert(is_turned(k, ahead, bwd));
            lemma_turned(k, val, ahead.u@, bwd.u@, w, h);
            lemma_turned(k, val, ahead.v@, bwd.v@, w, h);
        } else {
            lemma_frame_flow(k, val, *s, *cur, *prev, bwd);
        }
        assert(are_motions(val, *s, role, *cur, *prev, *next, cache, fu, fv, bu, bv));
    }
}

proof fn negate_contract<K: Numerics>(k: &K, from: &FlowField<K::T>, to: FlowField<K::T>)
    requires
        call_ensures(negate_flow::<K>, (k, from), to),
    ensures
        is_turned(k, *from, to),
{
}

/// A motion field turned round points the other way everywhere, by as much.
pub proof fn law_turned_motion_is_opposite<S: Scalar>(
    k: &Formulas<S>,
    val: spec_fn(S::T) -> real,
    from: &FlowField<S::T>,
    to: FlowField<S::T>,
)
    requires
        is_exact(&k.0, val),
        from.wf(),
        call_ensures(negate_flow::<Formulas<S>>, (k, from), to),
    ensures
        to.w == from.w,
        to.h == from.h,
        same_on(
            picture(val, to.u@, from.w as int),
            turned(picture(val, from.u@, from.w as int)),
            from.w as int,
            from.h as int,
        ),
        same_on(
            picture(val, to.v@, from.w as int),
            turned(picture(val, from.v@, from.w as int)),
            from.w as int,
            from.h as int,
        ),
{
    negate_contract(k, from, to);
    lemma_turned(k, val, from.u@, to.u@, from.w as int, from.h as int);
    lemma_turned(k, val, from.v@, to.v@, from.w as int, from.h as int);
}

proof fn path_contract<K: Numerics>(k: &K, shutter: K::T, gpu: bool, p: Path)
    requires
        call_ensures(choose_path::<K>, (k, shutter, gpu), p),
    ensures
        p == Path::Copy ==> call_ensures(K::shutter_closed, (k, shutter), true),
        p != Path::Copy ==> call_ensures(K::shutter_closed, (k, shutter), false),
        p == Path::Gpu ==> gpu,
        p == Path::Cpu ==> !gpu,
{
}

/// With the shutter closed frames are copied, and otherwise they are blurred, on
/// the device exactly where there is one.
pub proof fn law_path_follows_the_shutter<S: Scalar>(
    k: &Formulas<S>,
    val: spec_fn(S::T) -> real,
    shutter: S::T,
    gpu: bool,
    p: Path,
)
    requires
        is_exact(&k.0, val),
        call_ensures(choose_path::<Formulas<S>>, (k, shutter, gpu), p),
    ensures
        val(shutter) <= (0 as real) ==> p == Path::Copy,
        val(shutter) > (0 as real) && gpu ==> p == Path::Gpu,
        val(shutter) > (0 as real) && !gpu ==> p == Path::Cpu,
{
    path_contract(k, shutter, gpu, p);
    law_shutter_is_closed_at_zero(k, val, shutter, p == Path::Copy);
}

/// The motion between two images can be estimated exactly where every level that is
/// halved or compared has at least two columns and two rows.
pub proof fn law_estimable_levels_are_wide_enough(
    w: usize,
    h: usize,
    iters: usize,
    requested: usize,
    count: usize,
    yes: bool,
)
    requires
        w > 0,
        h > 0,
        call_ensures(pyramid_level_count, (w, h, requested), count),
        call_ensures(estimable, (w, h, iters, requested), yes),
    ensures
        iters > 0 ==> (yes <==> forall|l: int|
            0 <= l < count ==> #[trigger] level_side(w as int, l) >= 2 && level_side(h as int, l)
                >= 2),
        iters == 0 ==> (yes <==> forall|l: int|
            0 <= l < count - 1 ==> #[trigger] level_side(w as int, l) >= 2 && level_side(
                h as int,
                l,
            ) >= 2),
{
    let (a, b) = (w as int, h as int);
    let last = if iters > 0 {
        count - 1
    } else {
        count - 2
    };
    if yes {
        assert forall|l: int| 0 <= l <= last implies #[trigger] level_side(a, l) >= 2
            && level_side(b, l) >= 2 by {
            lemma_sides_shrink(a, l, last);
            lemma_sides_shrink(b, l, last);
        }
    } else {
        let (c, d) = (level_side(a, count - 1), level_side(a, count - 2));
    }
}

/// No value is ever found to be `yes` as to having a place in the order of values.
pub open spec fn never_ordered<K: Numerics>(k: &K, yes: bool) -> bool {
    forall|x: K::T| !#[trigger] call_ensures(K::is_ordered, (k, x), yes)
}

proof fn lemma_no_unordered_flow<K: Numerics>(
    k: &K,
    s: Settings<K::T>,
    a: Gray<K::T>,
    b: Gray<K::T>,
)
    requires
        never_ordered(k, false),
    ensures
        !is_unordered_flow(k, s, a, b),
{
    assert forall|u: Seq<K::T>| !#[trigger] has_unordered(k, u) by {}
}

proof fn lemma_no_ordered_flow<K: Numerics>(
    k: &K,
    s: Settings<K::T>,
    a: Gray<K::T>,
    b: Gray<K::T>,
    f: FlowField<K::T>,
)
    requires
        never_ordered(k, true),
        a.w > 0,
        a.h > 0,
    ensures
        !is_frame_flow(k, s, a, b, f),
{
    if is_frame_flow(k, s, a, b, f) {
        lemma_join_index(0, 0, a.w as int, a.h as int);
        let (u, v) = choose|u: Seq<K::T>, v: Seq<K::T>|
            {
                &&& #[trigger] is_optical_flow(
                    k,
                    a,
                    b,
                    s.window as int,
                    s.iters as int,
                    level_count(a.w as int, a.h as int, s.levels as int),
                    u,
                    v,
                )
                &&& u.len() == a.w * a.h
                &&& v.len() == a.w * a.h
                &&& all_ordered(k, u)
                &&& all_ordered(k, v)
                &&& f.wf()
                &&& f.w == a.w
                &&& f.h == a.h
                &&& is_median_filtered(k, u, a.w as int, a.h as int, f.u@)
                &&& is_median_filtered(k, v, a.w as int, a.h as int, f.v@)
            };
        assert(call_ensures(K::is_ordered, (k, u[0]), true));
    }
}

/// Motion fails to come out only where a value has no place in the order of values;
/// and where none has one, it does not come out.
pub proof fn law_only_unordered_motion_fails<K: Numerics>(
    k: &K,
    s: &Settings<K::T>,
    a: &Gray<K::T>,
    b: &Gray<K::T>,
    flow: Option<FlowField<K::T>>,
)
    requires
        call_ensures(frame_flow::<K>, (k, s, a, b), flow),
    ensures
        never_ordered(k, false) ==> flow is Some,
        never_ordered(k, true) && a.w > 0 && a.h > 0 ==> flow is None,
{
    frame_flow_contract(k, s, a, b, flow);
    if never_ordered(k, false) {
        lemma_no_unordered_flow(k, *s, *a, *b);
    }
    if never_ordered(k, true) && a.w > 0 && a.h > 0 && flow is Some {
        lemma_no_ordered_flow(k, *s, *a, *b, flow->0);
    }
}

proof fn failure_contract<K: Numerics>(
    k: &K,
    s: &Settings<K::T>,
    role: Role,
    rgb: &Vec<u8>,
    cur: &Gray<K::T>,
    prev: &Gray<K::T>,
    next: &Gray<K::T>,
    cache: Option<FlowField<K::T>>,
)
    requires
        call_ensures(process_frame::<K>, (k, s, role, rgb, cur, prev, next, cache), None),
    ensures
        call_ensures(K::shutter_closed, (k, s.shutter), false),
        is_unordered_motion(k, *s, role, *cur, *prev, *next, cache),
{
}

/// A frame fails to be blurred only with the shutter open, and only where a value
/// of its motion has no place in the order of values.
pub proof fn law_only_unordered_frames_fail<K: Numerics>(
    k: &K,
    s: &Settings<K::T>,
    role: Role,
    rgb: &Vec<u8>,
    cur: &Gray<K::T>,
    prev: &Gray<K::T>,
    next: &Gray<K::T>,
    cache: Option<FlowField<K::T>>,
)
    requires
        call_ensures(process_frame::<K>, (k, s, role, rgb, cur, prev, next, cache), None),
    ensures
        call_ensures(K::shutter_closed, (k, s.shutter), false),
        !never_ordered(k, false),
{
    failure_contract(k, s, role, rgb, cur, prev, next, cache);
    if never_ordered(k, false) {
        lemma_no_unordered_flow(k, *s, *cur, *cur);
        lemma_no_unordered_flow(k, *s, *cur, *next);
        lemma_no_unordered_flow(k, *s, *cur, *prev);
    }
}

/// All values are asked for their place in the order of values.
pub proof fn law_every_value_is_asked<K: Numerics>(k: &K, src: &Vec<K::T>, yes: bool, i: int)
    requires
        call_ensures(is_ordered::<K>, (k, src), yes),
        0 <= i < src@.len(),
    ensures
        !call_ensures(K::is_ordered, (k, src@[i]), true) ==> !yes,
        never_ordered(k, false) ==> yes,
{
    let x = src@[i];
}

} // verus!
