//! Where the operations of a scalar arithmetic have one outcome, so have the
//! formulas over it, the motion of a frame, and the frame that comes out.
use crate::blur::{
    is_blurred_over, is_blurred_pixel, is_exposed_motion, is_motion_blurred, is_pixel_index,
    tap_count, Motion,
};
use crate::determinism::{
    exposures_agree, is_deterministic, law_blur_is_deterministic, law_finer_levels_stay,
    lemma_runs, lemma_tensor, motions_agree, samples_agree, solutions_agree, sums_agree,
};
use crate::flow::{
    is_course_from, is_level_lifted, is_lifted, is_lifted_motion, is_optical_flow, is_pyramid,
    is_upscaled, Course, Lift,
};
use crate::formulas::{
    at_most, bilinear_expr, blend_expr, bounded, det_expr, difference, gauss_expr, is_abs,
    is_cell, is_less, luma_expr, magnitude, mean_expr, opposite, position_expr, product,
    raw_u_expr, raw_v_expr, short_limit_expr, span_expr, sum, tap_expr, travel_expr, Expr,
    Formulas, Scalar,
};
use crate::frames::{
    is_blurred_frame, is_frame_flow, is_kept, is_motion, is_processed, is_unordered_flow, Role,
    Settings,
};
use crate::image::{is_bilinear, is_sample, FlowField, Gray};
use crate::levels::{level_count, level_side};
use crate::lucas_kanade::{is_level_solution, is_refinement_run, is_tensor, Tensor};
use crate::median::{
    all_ordered, has_unordered, is_median, is_median_filtered, is_middle, is_ranking,
    law_median_unique, window9,
};
use crate::numerics::Numerics;
use vstd::prelude::*;

verus! {

/// Every operation has one outcome.
pub open spec fn operations_agree<S: Scalar>(s: &S) -> bool {
    &&& forall|num: i64, den: u32, x: S::T, y: S::T|
        #![trigger
            call_ensures(S::constant, (s, num, den), x),
            call_ensures(S::constant, (s, num, den), y)
        ]
        call_ensures(S::constant, (s, num, den), x) && call_ensures(
            S::constant,
            (s, num, den),
            y,
        ) ==> x == y
    &&& forall|i: usize, x: S::T, y: S::T|
        #![trigger call_ensures(S::of_index, (s, i), x), call_ensures(S::of_index, (s, i), y)]
        call_ensures(S::of_index, (s, i), x) && call_ensures(S::of_index, (s, i), y) ==> x == y
    &&& forall|b: u8, x: S::T, y: S::T|
        #![trigger call_ensures(S::of_byte, (s, b), x), call_ensures(S::of_byte, (s, b), y)]
        call_ensures(S::of_byte, (s, b), x) && call_ensures(S::of_byte, (s, b), y) ==> x == y
    &&& forall|a: S::T, b: S::T, x: S::T, y: S::T|
        #![trigger call_ensures(S::plus, (s, a, b), x), call_ensures(S::plus, (s, a, b), y)]
        call_ensures(S::plus, (s, a, b), x) && call_ensures(S::plus, (s, a, b), y) ==> x == y
    &&& forall|a: S::T, b: S::T, x: S::T, y: S::T|
        #![trigger call_ensures(S::minus, (s, a, b), x), call_ensures(S::minus, (s, a, b), y)]
        call_ensures(S::minus, (s, a, b), x) && call_ensures(S::minus, (s, a, b), y) ==> x == y
    &&& forall|a: S::T, b: S::T, x: S::T, y: S::T|
        #![trigger call_ensures(S::times, (s, a, b), x), call_ensures(S::times, (s, a, b), y)]
        call_ensures(S::times, (s, a, b), x) && call_ensures(S::times, (s, a, b), y) ==> x == y
    &&& forall|a: S::T, b: S::T, x: S::T, y: S::T|
        #![trigger call_ensures(S::over, (s, a, b), x), call_ensures(S::over, (s, a, b), y)]
        call_ensures(S::over, (s, a, b), x) && call_ensures(S::over, (s, a, b), y) ==> x == y
    &&& forall|a: S::T, x: S::T, y: S::T|
        #![trigger call_ensures(S::opposite, (s, a), x), call_ensures(S::opposite, (s, a), y)]
        call_ensures(S::opposite, (s, a), x) && call_ensures(S::opposite, (s, a), y) ==> x == y
    &&& forall|a: S::T, b: S::T, x: bool, y: bool|
        #![trigger call_ensures(S::less, (s, a, b), x), call_ensures(S::less, (s, a, b), y)]
        call_ensures(S::less, (s, a, b), x) && call_ensures(S::less, (s, a, b), y) ==> x == y
    &&& forall|a: S::T, b: S::T, x: bool, y: bool|
        #![trigger call_ensures(S::at_most, (s, a, b), x), call_ensures(S::at_most, (s, a, b), y)]
        call_ensures(S::at_most, (s, a, b), x) && call_ensures(S::at_most, (s, a, b), y) ==> x == y
    &&& forall|a: S::T, x: usize, y: usize|
        #![trigger call_ensures(S::whole, (s, a), x), call_ensures(S::whole, (s, a), y)]
        call_ensures(S::whole, (s, a), x) && call_ensures(S::whole, (s, a), y) ==> x == y
    &&& forall|a: S::T, x: u8, y: u8|
        #![trigger
            call_ensures(S::nearest_byte, (s, a), x),
            call_ensures(S::nearest_byte, (s, a), y)
        ]
        call_ensures(S::nearest_byte, (s, a), x) && call_ensures(
            S::nearest_byte,
            (s, a),
            y,
        ) ==> x == y
    &&& forall|a: S::T, x: bool, y: bool|
        #![trigger call_ensures(S::is_number, (s, a), x), call_ensures(S::is_number, (s, a), y)]
        call_ensures(S::is_number, (s, a), x) && call_ensures(S::is_number, (s, a), y) ==> x == y
    &&& forall|a: S::T, x: u32, y: u32|
        #![trigger call_ensures(S::bits, (s, a), x), call_ensures(S::bits, (s, a), y)]
        call_ensures(S::bits, (s, a), x) && call_ensures(S::bits, (s, a), y) ==> x == y
}

/// A formula has one value.
pub proof fn law_formulas_have_one_value<S: Scalar>(s: &S, e: Expr<S::T>, v: S::T, w: S::T)
    requires
        operations_agree(s),
        e.gives(s, v),
        e.gives(s, w),
    ensures
        v == w,
    decreases e,
{
    match e {
        Expr::Given(x) => {},
        Expr::Const(num, den) => {},
        Expr::Index(i) => {},
        Expr::Byte(b) => {},
        Expr::Plus(a, b) => {
            let (x, y) = choose|x: S::T, y: S::T|
                a.gives(s, x) && b.gives(s, y) && #[trigger] call_ensures(S::plus, (s, x, y), v);
            let (p, q) = choose|x: S::T, y: S::T|
                a.gives(s, x) && b.gives(s, y) && #[trigger] call_ensures(S::plus, (s, x, y), w);
            law_formulas_have_one_value(s, *a, x, p);
            law_formulas_have_one_value(s, *b, y, q);
        },
        Expr::Minus(a, b) => {
            let (x, y) = choose|x: S::T, y: S::T|
                a.gives(s, x) && b.gives(s, y) && #[trigger] call_ensures(S::minus, (s, x, y), v);
            let (p, q) = choose|x: S::T, y: S::T|
                a.gives(s, x) && b.gives(s, y) && #[trigger] call_ensures(S::minus, (s, x, y), w);
            law_formulas_have_one_value(s, *a, x, p);
            law_formulas_have_one_value(s, *b, y, q);
        },
        Expr::Times(a, b) => {
            let (x, y) = choose|x: S::T, y: S::T|
                a.gives(s, x) && b.gives(s, y) && #[trigger] call_ensures(S::times, (s, x, y), v);
            let (p, q) = choose|x: S::T, y: S::T|
                a.gives(s, x) && b.gives(s, y) && #[trigger] call_ensures(S::times, (s, x, y), w);
            law_formulas_have_one_value(s, *a, x, p);
            law_formulas_have_one_value(s, *b, y, q);
        },
        Expr::Over(a, b) => {
            let (x, y) = choose|x: S::T, y: S::T|
                a.gives(s, x) && b.gives(s, y) && #[trigger] call_ensures(S::over, (s, x, y), v);
            let (p, q) = choose|x: S::T, y: S::T|
                a.gives(s, x) && b.gives(s, y) && #[trigger] call_ensures(S::over, (s, x, y), w);
            law_formulas_have_one_value(s, *a, x, p);
            law_formulas_have_one_value(s, *b, y, q);
        },
        Expr::Opposite(a) => {
            let x = choose|x: S::T|
                a.gives(s, x) && #[trigger] call_ensures(S::opposite, (s, x), v);
            let p = choose|x: S::T|
                a.gives(s, x) && #[trigger] call_ensures(S::opposite, (s, x), w);
            law_formulas_have_one_value(s, *a, x, p);
        },
        Expr::Abs(a) => {
            let x = choose|x: S::T| a.gives(s, x) && #[trigger] is_abs(s, x, v);
            let p = choose|x: S::T| a.gives(s, x) && #[trigger] is_abs(s, x, w);
            law_formulas_have_one_value(s, *a, x, p);
        },
        Expr::AtLeast(a, b) => {
            let (x, y, _) = choose|x: S::T, y: S::T, below: bool|
                {
                    &&& a.gives(s, x)
                    &&& b.gives(s, y)
                    &&& #[trigger] call_ensures(S::less, (s, x, y), below)
                    &&& v == (if below {
                        y
                    } else {
                        x
                    })
                };
            let (p, q, _) = choose|x: S::T, y: S::T, below: bool|
                {
                    &&& a.gives(s, x)
                    &&& b.gives(s, y)
                    &&& #[trigger] call_ensures(S::less, (s, x, y), below)
                    &&& w == (if below {
                        y
                    } else {
                        x
                    })
                };
            law_formulas_have_one_value(s, *a, x, p);
            law_formulas_have_one_value(s, *b, y, q);
        },
        Expr::AtMost(a, b) => {
            let (x, y, _) = choose|x: S::T, y: S::T, above: bool|
                {
                    &&& a.gives(s, x)
                    &&& b.gives(s, y)
                    &&& #[trigger] call_ensures(S::less, (s, y, x), above)
                    &&& v == (if above {
                        y
                    } else {
                        x
                    })
                };
            let (p, q, _) = choose|x: S::T, y: S::T, above: bool|
                {
                    &&& a.gives(s, x)
                    &&& b.gives(s, y)
                    &&& #[trigger] call_ensures(S::less, (s, y, x), above)
                    &&& w == (if above {
                        y
                    } else {
                        x
                    })
                };
            law_formulas_have_one_value(s, *a, x, p);
            law_formulas_have_one_value(s, *b, y, q);
        },
    }
}

proof fn lemma_less<S: Scalar>(s: &S, a: Expr<S::T>, b: Expr<S::T>, x: bool, y: bool)
    requires
        operations_agree(s),
        is_less(s, a, b, x),
        is_less(s, a, b, y),
    ensures
        x == y,
{
    let (p, q) = choose|p: S::T, q: S::T|
        a.gives(s, p) && b.gives(s, q) && #[trigger] call_ensures(S::less, (s, p, q), x);
    let (t, u) = choose|p: S::T, q: S::T|
        a.gives(s, p) && b.gives(s, q) && #[trigger] call_ensures(S::less, (s, p, q), y);
    law_formulas_have_one_value(s, a, p, t);
    law_formulas_have_one_value(s, b, q, u);
}

proof fn lemma_cell<S: Scalar>(s: &S, e: Expr<S::T>, x: (usize, S::T), y: (usize, S::T))
    requires
        operations_agree(s),
        is_cell(s, e, x.0, x.1),
        is_cell(s, e, y.0, y.1),
    ensures
        x == y,
{
    let p = choose|p: S::T|
        {
            &&& e.gives(s, p)
            &&& #[trigger] call_ensures(S::whole, (s, p), x.0)
            &&& difference(Expr::Given(p), Expr::Index(x.0)).gives(s, x.1)
        };
    let q = choose|p: S::T|
        {
            &&& e.gives(s, p)
            &&& #[trigger] call_ensures(S::whole, (s, p), y.0)
            &&& difference(Expr::Given(p), Expr::Index(y.0)).gives(s, y.1)
        };
    law_formulas_have_one_value(s, e, p, q);
    law_formulas_have_one_value(s, difference(Expr::Given(p), Expr::Index(x.0)), x.1, y.1);
}

/// Positions that are the same number once they are clamped fall into the same
/// cell.
proof fn lemma_same_cell<S: Scalar>(
    s: &S,
    e: Expr<S::T>,
    f: Expr<S::T>,
    c: S::T,
    x: (usize, S::T),
    y: (usize, S::T),
)
    requires
        operations_agree(s),
        e.gives(s, c),
        f.gives(s, c),
        is_cell(s, e, x.0, x.1),
        is_cell(s, f, y.0, y.1),
    ensures
        x == y,
{
    let p = choose|p: S::T|
        {
            &&& e.gives(s, p)
            &&& #[trigger] call_ensures(S::whole, (s, p), x.0)
            &&& difference(Expr::Given(p), Expr::Index(x.0)).gives(s, x.1)
        };
    let q = choose|p: S::T|
        {
            &&& f.gives(s, p)
            &&& #[trigger] call_ensures(S::whole, (s, p), y.0)
            &&& difference(Expr::Given(p), Expr::Index(y.0)).gives(s, y.1)
        };
    law_formulas_have_one_value(s, e, p, c);
    law_formulas_have_one_value(s, f, q, c);
    law_formulas_have_one_value(s, difference(Expr::Given(c), Expr::Index(x.0)), x.1, y.1);
}

/// Positions beyond a border act as the border: two positions that are the same
/// once they are clamped give the same sample.
pub proof fn law_sample_is_that_of_the_clamped<S: Scalar>(
    k: &Formulas<S>,
    data: Seq<S::T>,
    w: usize,
    h: usize,
    p: (S::T, S::T),
    q: (S::T, S::T),
    c: (S::T, S::T),
    at_p: S::T,
    at_q: S::T,
)
    requires
        operations_agree(&k.0),
        is_sample(k, data, w, h, p.0, p.1, at_p),
        is_sample(k, data, w, h, q.0, q.1, at_q),
        position_expr(p.0, w).gives(&k.0, c.0),
        position_expr(q.0, w).gives(&k.0, c.0),
        position_expr(p.1, h).gives(&k.0, c.1),
        position_expr(q.1, h).gives(&k.0, c.1),
    ensures
        at_p == at_q,
{
    let s = &k.0;
    let (cx, fx, cy, fy) = choose|cx: usize, fx: S::T, cy: usize, fy: S::T|
        call_ensures(Formulas::<S>::cell, (k, p.0, w), (cx, fx)) && call_ensures(
            Formulas::<S>::cell,
            (k, p.1, h),
            (cy, fy),
        ) && #[trigger] is_bilinear(k, data, w, h, cx, cy, fx, fy, at_p);
    let (dx, gx, dy, gy) = choose|cx: usize, fx: S::T, cy: usize, fy: S::T|
        call_ensures(Formulas::<S>::cell, (k, q.0, w), (cx, fx)) && call_ensures(
            Formulas::<S>::cell,
            (k, q.1, h),
            (cy, fy),
        ) && #[trigger] is_bilinear(k, data, w, h, cx, cy, fx, fy, at_q);
    let (ex, ey) = (position_expr(p.0, w), position_expr(p.1, h));
    lemma_same_cell(s, ex, position_expr(q.0, w), c.0, (cx, fx), (dx, gx));
    lemma_same_cell(s, ey, position_expr(q.1, h), c.1, (cy, fy), (dy, gy));
    lemma_samples(k);
}

proof fn lemma_sums<S: Scalar>(k: &Formulas<S>)
    requires
        operations_agree(&k.0),
    ensures
        sums_agree(k),
{
    let s = &k.0;
    assert forall|x: S::T, y: S::T|
        #![trigger
            call_ensures(Formulas::<S>::zero, (k,), x),
            call_ensures(Formulas::<S>::zero, (k,), y)
        ]
        call_ensures(Formulas::<S>::zero, (k,), x)
            && call_ensures(Formulas::<S>::zero, (k,), y) implies x == y by {
        law_formulas_have_one_value(s, Expr::Const(0, 1), x, y);
    }
    assert forall|a: S::T, b: S::T, x: S::T, y: S::T|
        #![trigger
            call_ensures(Formulas::<S>::plus, (k, a, b), x),
            call_ensures(Formulas::<S>::plus, (k, a, b), y)
        ]
        call_ensures(Formulas::<S>::plus, (k, a, b), x)
            && call_ensures(Formulas::<S>::plus, (k, a, b), y) implies x == y by {
        law_formulas_have_one_value(s, sum(Expr::Given(a), Expr::Given(b)), x, y);
    }
    assert forall|a: S::T, b: S::T, x: S::T, y: S::T|
        #![trigger
            call_ensures(Formulas::<S>::minus, (k, a, b), x),
            call_ensures(Formulas::<S>::minus, (k, a, b), y)
        ]
        call_ensures(Formulas::<S>::minus, (k, a, b), x)
            && call_ensures(Formulas::<S>::minus, (k, a, b), y) implies x == y by {
        law_formulas_have_one_value(s, difference(Expr::Given(a), Expr::Given(b)), x, y);
    }
    assert forall|a: S::T, b: S::T, x: S::T, y: S::T|
        #![trigger
            call_ensures(Formulas::<S>::times, (k, a, b), x),
            call_ensures(Formulas::<S>::times, (k, a, b), y)
        ]
        call_ensures(Formulas::<S>::times, (k, a, b), x)
            && call_ensures(Formulas::<S>::times, (k, a, b), y) implies x == y by {
        law_formulas_have_one_value(s, product(Expr::Given(a), Expr::Given(b)), x, y);
    }
}

proof fn lemma_samples<S: Scalar>(k: &Formulas<S>)
    requires
        operations_agree(&k.0),
    ensures
        samples_agree(k),
{
    let s = &k.0;
    assert forall|i: usize, d: S::T, x: S::T, y: S::T|
        #![trigger
            call_ensures(Formulas::<S>::shifted, (k, i, d), x),
            call_ensures(Formulas::<S>::shifted, (k, i, d), y)
        ]
        call_ensures(Formulas::<S>::shifted, (k, i, d), x)
            && call_ensures(Formulas::<S>::shifted, (k, i, d), y) implies x == y by {
        law_formulas_have_one_value(s, sum(Expr::Index(i), Expr::Given(d)), x, y);
    }
    assert forall|i: usize, x: S::T, y: S::T|
        #![trigger
            call_ensures(Formulas::<S>::twice, (k, i), x),
            call_ensures(Formulas::<S>::twice, (k, i), y)
        ]
        call_ensures(Formulas::<S>::twice, (k, i), x)
            && call_ensures(Formulas::<S>::twice, (k, i), y) implies x == y by {
        law_formulas_have_one_value(s, product(Expr::Index(i), Expr::Const(2, 1)), x, y);
    }
    assert forall|p: S::T, n: usize, x: (usize, S::T), y: (usize, S::T)|
        #![trigger
            call_ensures(Formulas::<S>::cell, (k, p, n), x),
            call_ensures(Formulas::<S>::cell, (k, p, n), y)
        ]
        call_ensures(Formulas::<S>::cell, (k, p, n), x)
            && call_ensures(Formulas::<S>::cell, (k, p, n), y) implies x == y by {
        lemma_cell(s, position_expr(p, n), x, y);
    }
    assert forall|a: S::T, b: S::T, c: S::T, d: S::T, fx: S::T, fy: S::T, x: S::T, y: S::T|
        #![trigger
            call_ensures(Formulas::<S>::bilinear, (k, a, b, c, d, fx, fy), x),
            call_ensures(Formulas::<S>::bilinear, (k, a, b, c, d, fx, fy), y)
        ]
        call_ensures(Formulas::<S>::bilinear, (k, a, b, c, d, fx, fy), x)
            && call_ensures(Formulas::<S>::bilinear, (k, a, b, c, d, fx, fy), y) implies x == y by {
        law_formulas_have_one_value(s, bilinear_expr(a, b, c, d, fx, fy), x, y);
    }
}

proof fn lemma_solutions<S: Scalar>(k: &Formulas<S>)
    requires
        operations_agree(&k.0),
    ensures
        solutions_agree(k),
{
    let s = &k.0;
    assert forall|a: S::T, b: S::T, c: S::T, d: S::T, e: S::T, x: S::T, y: S::T|
        #![trigger
            call_ensures(Formulas::<S>::gauss5, (k, a, b, c, d, e), x),
            call_ensures(Formulas::<S>::gauss5, (k, a, b, c, d, e), y)
        ]
        call_ensures(Formulas::<S>::gauss5, (k, a, b, c, d, e), x)
            && call_ensures(Formulas::<S>::gauss5, (k, a, b, c, d, e), y) implies x == y by {
        law_formulas_have_one_value(s, gauss_expr(a, b, c, d, e), x, y);
    }
    assert forall|a: S::T, b: S::T, x: S::T, y: S::T|
        #![trigger
            call_ensures(Formulas::<S>::slope, (k, a, b), x),
            call_ensures(Formulas::<S>::slope, (k, a, b), y)
        ]
        call_ensures(Formulas::<S>::slope, (k, a, b), x)
            && call_ensures(Formulas::<S>::slope, (k, a, b), y) implies x == y by {
        let e = product(Expr::Const(1, 2), difference(Expr::Given(a), Expr::Given(b)));
        law_formulas_have_one_value(s, e, x, y);
    }
    assert forall|
        a: S::T,
        b: S::T,
        c: S::T,
        d: S::T,
        e: S::T,
        x: Option<(S::T, S::T)>,
        y: Option<(S::T, S::T)>,
    |
        #![trigger
            call_ensures(Formulas::<S>::solve, (k, a, b, c, d, e), x),
            call_ensures(Formulas::<S>::solve, (k, a, b, c, d, e), y)
        ]
        call_ensures(Formulas::<S>::solve, (k, a, b, c, d, e), x)
            && call_ensures(Formulas::<S>::solve, (k, a, b, c, d, e), y) implies x == y by {
        let size = magnitude(det_expr(a, b, c));
        lemma_less(s, size, Expr::Const(1, 1_000_000_000), x is None, y is None);
        if let (Some(p), Some(q)) = (x, y) {
            law_formulas_have_one_value(s, bounded(raw_u_expr(a, b, c, d, e)), p.0, q.0);
            law_formulas_have_one_value(s, bounded(raw_v_expr(a, b, c, d, e)), p.1, q.1);
        }
    }
}

proof fn lemma_exposures<S: Scalar>(k: &Formulas<S>)
    requires
        operations_agree(&k.0),
    ensures
        exposures_agree(k),
{
    let s = &k.0;
    assert forall|a: S::T, b: S::T, c: S::T, d: S::T, x: bool, y: bool|
        #![trigger
            call_ensures(Formulas::<S>::is_still, (k, a, b, c, d), x),
            call_ensures(Formulas::<S>::is_still, (k, a, b, c, d), y)
        ]
        call_ensures(Formulas::<S>::is_still, (k, a, b, c, d), x)
            && call_ensures(Formulas::<S>::is_still, (k, a, b, c, d), y) implies x == y by {
        lemma_less(s, travel_expr(a, b, c, d), Expr::Const(1, 10_000), x, y);
    }
    assert forall|i: usize, n: usize, d: S::T, x: S::T, y: S::T|
        #![trigger
            call_ensures(Formulas::<S>::tap_offset, (k, i, n, d), x),
            call_ensures(Formulas::<S>::tap_offset, (k, i, n, d), y)
        ]
        call_ensures(Formulas::<S>::tap_offset, (k, i, n, d), x)
            && call_ensures(Formulas::<S>::tap_offset, (k, i, n, d), y) implies x == y by {
        law_formulas_have_one_value(s, product(tap_expr(i, n), Expr::Given(d)), x, y);
    }
    assert forall|a: u8, b: u8, c: u8, d: u8, fx: S::T, fy: S::T, x: S::T, y: S::T|
        #![trigger
            call_ensures(Formulas::<S>::blend_bytes, (k, a, b, c, d, fx, fy), x),
            call_ensures(Formulas::<S>::blend_bytes, (k, a, b, c, d, fx, fy), y)
        ]
        call_ensures(Formulas::<S>::blend_bytes, (k, a, b, c, d, fx, fy), x)
            && call_ensures(Formulas::<S>::blend_bytes, (k, a, b, c, d, fx, fy), y) implies x
        == y by {
        law_formulas_have_one_value(s, blend_expr(a, b, c, d, fx, fy), x, y);
    }
    assert forall|a: S::T, x: S::T, y: S::T|
        #![trigger
            call_ensures(Formulas::<S>::span, (k, a), x),
            call_ensures(Formulas::<S>::span, (k, a), y)
        ]
        call_ensures(Formulas::<S>::span, (k, a), x)
            && call_ensures(Formulas::<S>::span, (k, a), y) implies x == y by {
        law_formulas_have_one_value(s, span_expr(a), x, y);
    }
    assert forall|a: S::T, n: usize, x: u8, y: u8|
        #![trigger
            call_ensures(Formulas::<S>::mean_byte, (k, a, n), x),
            call_ensures(Formulas::<S>::mean_byte, (k, a, n), y)
        ]
        call_ensures(Formulas::<S>::mean_byte, (k, a, n), x)
            && call_ensures(Formulas::<S>::mean_byte, (k, a, n), y) implies x == y by {
        let p = choose|mean: S::T|
            mean_expr(a, n).gives(s, mean) && #[trigger] call_ensures(
                S::nearest_byte,
                (s, mean),
                x,
            );
        let q = choose|mean: S::T|
            mean_expr(a, n).gives(s, mean) && #[trigger] call_ensures(
                S::nearest_byte,
                (s, mean),
                y,
            );
        law_formulas_have_one_value(s, mean_expr(a, n), p, q);
    }
}

proof fn lemma_motions<S: Scalar>(k: &Formulas<S>)
    requires
        operations_agree(&k.0),
    ensures
        motions_agree(k),
{
    let s = &k.0;
    assert forall|r: u8, g: u8, b: u8, x: S::T, y: S::T|
        #![trigger
            call_ensures(Formulas::<S>::luma, (k, r, g, b), x),
            call_ensures(Formulas::<S>::luma, (k, r, g, b), y)
        ]
        call_ensures(Formulas::<S>::luma, (k, r, g, b), x)
            && call_ensures(Formulas::<S>::luma, (k, r, g, b), y) implies x == y by {
        law_formulas_have_one_value(s, luma_expr(r, g, b), x, y);
    }
    assert forall|a: S::T, x: S::T, y: S::T|
        #![trigger
            call_ensures(Formulas::<S>::negated, (k, a), x),
            call_ensures(Formulas::<S>::negated, (k, a), y)
        ]
        call_ensures(Formulas::<S>::negated, (k, a), x)
            && call_ensures(Formulas::<S>::negated, (k, a), y) implies x == y by {
        law_formulas_have_one_value(s, opposite(Expr::Given(a)), x, y);
    }
    assert forall|a: S::T, x: S::T, y: S::T|
        #![trigger
            call_ensures(Formulas::<S>::doubled, (k, a), x),
            call_ensures(Formulas::<S>::doubled, (k, a), y)
        ]
        call_ensures(Formulas::<S>::doubled, (k, a), x)
            && call_ensures(Formulas::<S>::doubled, (k, a), y) implies x == y by {
        law_formulas_have_one_value(s, product(Expr::Given(a), Expr::Const(2, 1)), x, y);
    }
    assert forall|i: usize, x: S::T, y: S::T|
        #![trigger
            call_ensures(Formulas::<S>::half, (k, i), x),
            call_ensures(Formulas::<S>::half, (k, i), y)
        ]
        call_ensures(Formulas::<S>::half, (k, i), x)
            && call_ensures(Formulas::<S>::half, (k, i), y) implies x == y by {
        law_formulas_have_one_value(s, product(Expr::Index(i), Expr::Const(1, 2)), x, y);
    }
    assert forall|p: S::T, n: usize, x: (usize, S::T), y: (usize, S::T)|
        #![trigger
            call_ensures(Formulas::<S>::cell_below, (k, p, n), x),
            call_ensures(Formulas::<S>::cell_below, (k, p, n), y)
        ]
        call_ensures(Formulas::<S>::cell_below, (k, p, n), x)
            && call_ensures(Formulas::<S>::cell_below, (k, p, n), y) implies x == y by {
        lemma_cell(s, at_most(Expr::Given(p), short_limit_expr(n)), x, y);
    }
    assert forall|a: S::T, x: bool, y: bool|
        #![trigger
            call_ensures(Formulas::<S>::is_ordered, (k, a), x),
            call_ensures(Formulas::<S>::is_ordered, (k, a), y)
        ]
        call_ensures(Formulas::<S>::is_ordered, (k, a), x)
            && call_ensures(Formulas::<S>::is_ordered, (k, a), y) implies x == y by {
    }
    assert forall|a: S::T, x: i64, y: i64|
        #![trigger
            call_ensures(Formulas::<S>::rank, (k, a), x),
            call_ensures(Formulas::<S>::rank, (k, a), y)
        ]
        call_ensures(Formulas::<S>::rank, (k, a), x)
            && call_ensures(Formulas::<S>::rank, (k, a), y) implies x == y by {
    }
    assert forall|a: S::T, x: bool, y: bool|
        #![trigger
            call_ensures(Formulas::<S>::shutter_closed, (k, a), x),
            call_ensures(Formulas::<S>::shutter_closed, (k, a), y)
        ]
        call_ensures(Formulas::<S>::shutter_closed, (k, a), x)
            && call_ensures(Formulas::<S>::shutter_closed, (k, a), y) implies x == y by {
    }
}

/// Where every operation has one outcome, so has every formula of the passes.
pub proof fn law_formulas_are_deterministic<S: Scalar>(k: &Formulas<S>)
    requires
        operations_agree(&k.0),
    ensures
        is_deterministic(k),
{
    lemma_sums(k);
    lemma_samples(k);
    lemma_solutions(k);
    lemma_exposures(k);
    lemma_motions(k);
}

proof fn lemma_level<K: Numerics>(
    k: &K,
    a: Seq<K::T>,
    w: int,
    h: int,
    b: Seq<K::T>,
    bw: usize,
    bh: usize,
    r: int,
    iters: int,
    start: (Seq<K::T>, Seq<K::T>),
    x: (Seq<K::T>, Seq<K::T>),
    y: (Seq<K::T>, Seq<K::T>),
)
    requires
        is_deterministic(k),
        w >= 0,
        h >= 0,
        iters >= 0,
        is_level_solution(k, a, w, h, b, bw, bh, r, iters, start.0, start.1, x.0, x.1),
        is_level_solution(k, a, w, h, b, bw, bh, r, iters, start.0, start.1, y.0, y.1),
    ensures
        x == y,
{
    let (s, us, vs) = choose|t: Tensor<K::T>, us: Seq<Seq<K::T>>, vs: Seq<Seq<K::T>>|
        is_tensor(k, a, w, h, r, t) && #[trigger] is_refinement_run(
            k,
            t,
            a,
            w,
            h,
            b,
            bw,
            bh,
            r,
            us,
            vs,
        ) && us.len() == iters + 1 && us[0] == start.0 && vs[0] == start.1 && us[iters] == x.0
            && vs[iters] == x.1;
    let (t, ps, qs) = choose|t: Tensor<K::T>, us: Seq<Seq<K::T>>, vs: Seq<Seq<K::T>>|
        is_tensor(k, a, w, h, r, t) && #[trigger] is_refinement_run(
            k,
            t,
            a,
            w,
            h,
            b,
            bw,
            bh,
            r,
            us,
            vs,
        ) && us.len() == iters + 1 && us[0] == start.0 && vs[0] == start.1 && us[iters] == y.0
            && vs[iters] == y.1;
    lemma_tensor(k, a, w, h, r, s, t);
    lemma_runs(k, s, t, a, w, h, b, bw, bh, r, (us, ps), (vs, qs), iters);
}

proof fn lemma_lifted<K: Numerics>(
    k: &K,
    u: Seq<K::T>,
    v: Seq<K::T>,
    sw: usize,
    sh: usize,
    c: usize,
    d: usize,
    x: (K::T, K::T),
    y: (K::T, K::T),
)
    requires
        is_deterministic(k),
        is_lifted_motion(k, u, v, sw, sh, c, d, x.0, x.1),
        is_lifted_motion(k, u, v, sw, sh, c, d, y.0, y.1),
    ensures
        x == y,
{
    let s = choose|s: Lift<K::T>| #[trigger] is_lifted(k, u, v, sw, sh, c, d, x.0, x.1, s);
    let t = choose|s: Lift<K::T>| #[trigger] is_lifted(k, u, v, sw, sh, c, d, y.0, y.1, s);
    assert(s.px == t.px && s.py == t.py);
    assert((s.cx, s.fx) == (t.cx, t.fx));
    assert((s.cy, s.fy) == (t.cy, t.fy));
    assert(s.mu == t.mu && s.mv == t.mv);
}

proof fn lemma_upscaled<K: Numerics>(
    k: &K,
    from: (Seq<K::T>, Seq<K::T>),
    sw: usize,
    sh: usize,
    w: int,
    h: int,
    x: (Seq<K::T>, Seq<K::T>),
    y: (Seq<K::T>, Seq<K::T>),
)
    requires
        is_deterministic(k),
        is_upscaled(k, from.0, from.1, sw, sh, w, h, x.0, x.1),
        is_upscaled(k, from.0, from.1, sw, sh, w, h, y.0, y.1),
    ensures
        x == y,
{
    assert forall|i: int| 0 <= i < w * h implies x.0[i] == y.0[i] && x.1[i] == y.1[i] by {
        lemma_lifted(
            k,
            from.0,
            from.1,
            sw,
            sh,
            (i % w) as usize,
            (i / w) as usize,
            (x.0[i], x.1[i]),
            (y.0[i], y.1[i]),
        );
    }
    assert(x.0 =~= y.0);
    assert(x.1 =~= y.1);
}

proof fn lemma_side(n: int, level: int)
    requires
        n >= 0,
    ensures
        level_side(n, level) >= 0,
{
}

/// Two courses over the same pyramids agree from level `l` on.
proof fn lemma_courses<K: Numerics>(
    k: &K,
    w: int,
    h: int,
    bw: int,
    bh: int,
    r: int,
    iters: int,
    c: Course<K::T>,
    d: Course<K::T>,
    l: int,
)
    requires
        is_deterministic(k),
        w >= 0,
        h >= 0,
        iters >= 0,
        c.pa == d.pa,
        c.pb == d.pb,
        is_course_from(k, w, h, bw, bh, r, iters, c, 0),
        is_course_from(k, w, h, bw, bh, r, iters, d, 0),
        0 <= l < c.pa.len(),
    ensures
        c.done_u[l] == d.done_u[l],
        c.done_v[l] == d.done_v[l],
    decreases c.pa.len() - l,
{
    let n = c.pa.len() as int;
    lemma_side(w, l);
    lemma_side(h, l);
    if l == n - 1 {
        assert(c.start_u[l] =~= d.start_u[l]);
        assert(c.start_v[l] =~= d.start_v[l]);
    } else {
        lemma_courses(k, w, h, bw, bh, r, iters, c, d, l + 1);
        assert(is_level_lifted(k, w, h, c, l)) by {
            let _ = c.start_u[l];
        }
        assert(is_level_lifted(k, w, h, d, l)) by {
            let _ = d.start_u[l];
        }
        lemma_upscaled(
            k,
            (c.done_u[l + 1], c.done_v[l + 1]),
            level_side(w, l + 1) as usize,
            level_side(h, l + 1) as usize,
            level_side(w, l),
            level_side(h, l),
            (c.start_u[l], c.start_v[l]),
            (d.start_u[l], d.start_v[l]),
        );
    }
    lemma_level(
        k,
        c.pa[l],
        level_side(w, l),
        level_side(h, l),
        c.pb[l],
        level_side(bw, l) as usize,
        level_side(bh, l) as usize,
        r,
        iters,
        (c.start_u[l], c.start_v[l]),
        (c.done_u[l], c.done_v[l]),
        (d.done_u[l], d.done_v[l]),
    );
}

proof fn lemma_pyramids<K: Numerics>(
    k: &K,
    base: Seq<K::T>,
    w: int,
    h: int,
    p: Seq<Seq<K::T>>,
    q: Seq<Seq<K::T>>,
)
    requires
        is_deterministic(k),
        is_pyramid(k, base, w, h, p),
        is_pyramid(k, base, w, h, q),
        p.len() == q.len(),
    ensures
        p == q,
{
    assert forall|l: int| 0 <= l < p.len() implies p[l] == q[l] by {
        law_finer_levels_stay(k, base, w, h, p, q, l);
    }
    assert(p =~= q);
}

/// The motion from one image to another has one outcome.
pub proof fn law_flow_has_one_outcome<K: Numerics>(
    k: &K,
    a: Gray<K::T>,
    b: Gray<K::T>,
    r: int,
    iters: int,
    levels: int,
    x: (Seq<K::T>, Seq<K::T>),
    y: (Seq<K::T>, Seq<K::T>),
)
    requires
        is_deterministic(k),
        iters >= 0,
        is_optical_flow(k, a, b, r, iters, levels, x.0, x.1),
        is_optical_flow(k, a, b, r, iters, levels, y.0, y.1),
    ensures
        x == y,
{
    let (w, h, bw, bh) = (a.w as int, a.h as int, b.w as int, b.h as int);
    let c = choose|c: Course<K::T>|
        {
            &&& c.pa.len() == levels
            &&& is_pyramid(k, a.data@, w, h, c.pa)
            &&& is_pyramid(k, b.data@, bw, bh, c.pb)
            &&& #[trigger] is_course_from(k, w, h, bw, bh, r, iters, c, 0)
            &&& x.0 == c.done_u[0]
            &&& x.1 == c.done_v[0]
        };
    let d = choose|c: Course<K::T>|
        {
            &&& c.pa.len() == levels
            &&& is_pyramid(k, a.data@, w, h, c.pa)
            &&& is_pyramid(k, b.data@, bw, bh, c.pb)
            &&& #[trigger] is_course_from(k, w, h, bw, bh, r, iters, c, 0)
            &&& y.0 == c.done_u[0]
            &&& y.1 == c.done_v[0]
        };
    lemma_pyramids(k, a.data@, w, h, c.pa, d.pa);
    lemma_pyramids(k, b.data@, bw, bh, c.pb, d.pb);
    lemma_courses(k, w, h, bw, bh, r, iters, c, d, 0);
}

/// Filtering a motion field has one outcome.
pub proof fn law_filter_has_one_outcome<K: Numerics>(
    k: &K,
    src: Seq<K::T>,
    w: int,
    h: int,
    x: Seq<K::T>,
    y: Seq<K::T>,
)
    requires
        is_deterministic(k),
        is_median_filtered(k, src, w, h, x),
        is_median_filtered(k, src, w, h, y),
    ensures
        x == y,
{
    assert forall|i: int| 0 <= i < w * h implies x[i] == y[i] by {
        let win = window9(src, w, h, i % w, i / w);
        assert(is_median(k, win, x[i]));
        assert(is_median(k, win, y[i]));
        let (r, p) = choose|ranks: Seq<i64>, p: int|
            is_ranking(k, win, ranks) && #[trigger] is_middle(ranks, p) && x[i] == win[p];
        let (s, q) = choose|ranks: Seq<i64>, p: int|
            is_ranking(k, win, ranks) && #[trigger] is_middle(ranks, p) && y[i] == win[p];
        assert forall|j: int| 0 <= j < win.len() implies r[j] == s[j] by {
            assert(call_ensures(K::rank, (k, win[j]), r[j]));
            assert(call_ensures(K::rank, (k, win[j]), s[j]));
        }
        assert(r =~= s);
        law_median_unique(r, p, q);
    }
    assert(x =~= y);
}

/// Motion fields with equal entries.
pub open spec fn same_field<T>(f: FlowField<T>, g: FlowField<T>) -> bool {
    f.w == g.w && f.h == g.h && f.u@ == g.u@ && f.v@ == g.v@
}

proof fn lemma_frame_flow<K: Numerics>(
    k: &K,
    s: Settings<K::T>,
    a: Gray<K::T>,
    b: Gray<K::T>,
    f: FlowField<K::T>,
    g: FlowField<K::T>,
)
    requires
        is_deterministic(k),
        is_frame_flow(k, s, a, b, f),
        is_frame_flow(k, s, a, b, g),
    ensures
        same_field(f, g),
{
    let (w, h) = (a.w as int, a.h as int);
    let (r, iters) = (s.window as int, s.iters as int);
    let levels = level_count(w, h, s.levels as int);
    let (u, v) = choose|u: Seq<K::T>, v: Seq<K::T>|
        {
            &&& #[trigger] is_optical_flow(k, a, b, r, iters, levels, u, v)
            &&& is_median_filtered(k, u, w, h, f.u@)
            &&& is_median_filtered(k, v, w, h, f.v@)
        };
    let (p, q) = choose|u: Seq<K::T>, v: Seq<K::T>|
        {
            &&& #[trigger] is_optical_flow(k, a, b, r, iters, levels, u, v)
            &&& is_median_filtered(k, u, w, h, g.u@)
            &&& is_median_filtered(k, v, w, h, g.v@)
        };
    law_flow_has_one_outcome(k, a, b, r, iters, levels, (u, v), (p, q));
    law_filter_has_one_outcome(k, u, w, h, f.u@, g.u@);
    law_filter_has_one_outcome(k, v, w, h, f.v@, g.v@);
}

proof fn lemma_motion<K: Numerics>(
    k: &K,
    s: Settings<K::T>,
    role: Role,
    cur: Gray<K::T>,
    prev: Gray<K::T>,
    next: Gray<K::T>,
    cache: Option<FlowField<K::T>>,
    f: (FlowField<K::T>, FlowField<K::T>),
    g: (FlowField<K::T>, FlowField<K::T>),
)
    requires
        is_deterministic(k),
        is_motion(k, s, role, cur, prev, next, cache, f.0, f.1),
        is_motion(k, s, role, cur, prev, next, cache, g.0, g.1),
    ensures
        same_field(f.0, g.0),
        same_field(f.1, g.1),
{
    let target = if role == Role::Last {
        cur
    } else {
        next
    };
    lemma_frame_flow(k, s, cur, target, f.0, g.0);
    if s.flow_cache && role != Role::Last && cache is Some {
        assert(f.1.u@ =~= g.1.u@);
        assert(f.1.v@ =~= g.1.v@);
    } else {
        lemma_frame_flow(k, s, cur, prev, f.1, g.1);
    }
}

/// The blur depends on the entries of the motion fields alone.
proof fn lemma_blur_of_same<K: Numerics>(
    k: &K,
    frame: Seq<u8>,
    w: usize,
    h: usize,
    f: (FlowField<K::T>, FlowField<K::T>),
    g: (FlowField<K::T>, FlowField<K::T>),
    shutter: K::T,
    samples: usize,
    out: Seq<u8>,
)
    requires
        same_field(f.0, g.0),
        same_field(f.1, g.1),
        is_motion_blurred(k, frame, w, h, f.0, f.1, shutter, samples, out),
    ensures
        is_motion_blurred(k, frame, w, h, g.0, g.1, shutter, samples, out),
{
    let n = tap_count(samples as int) as usize;
    let span = choose|span: K::T|
        call_ensures(K::span, (k, shutter), span) && #[trigger] is_blurred_over(
            k,
            frame,
            w,
            h,
            f.0,
            f.1,
            span,
            n,
            out,
        );
    assert forall|i: int| #[trigger] is_pixel_index(i, w, h) implies is_blurred_pixel(
        k,
        frame,
        w,
        h,
        g.0,
        g.1,
        span,
        n,
        i,
        (out[3 * i], out[3 * i + 1], out[3 * i + 2]),
    ) by {
        let rgb = (out[3 * i], out[3 * i + 1], out[3 * i + 2]);
        assert(is_blurred_pixel(k, frame, w, h, f.0, f.1, span, n, i, rgb));
        assert forall|m: Motion<K::T>| #[trigger]
            is_exposed_motion(k, f.0, f.1, span, i, m) implies is_exposed_motion(
            k,
            g.0,
            g.1,
            span,
            i,
            m,
        ) by {}
    }
    assert(is_blurred_over(k, frame, w, h, g.0, g.1, span, n, out));
}

/// Whether the motion from one image to another can be ordered has one outcome.
pub proof fn law_order_has_one_outcome<K: Numerics>(
    k: &K,
    s: Settings<K::T>,
    a: Gray<K::T>,
    b: Gray<K::T>,
    f: FlowField<K::T>,
)
    requires
        is_deterministic(k),
        is_frame_flow(k, s, a, b, f),
    ensures
        !is_unordered_flow(k, s, a, b),
{
    let (r, iters) = (s.window as int, s.iters as int);
    let levels = level_count(a.w as int, a.h as int, s.levels as int);
    if is_unordered_flow(k, s, a, b) {
        let (u, v) = choose|u: Seq<K::T>, v: Seq<K::T>|
            {
                &&& #[trigger] is_optical_flow(k, a, b, r, iters, levels, u, v)
                &&& all_ordered(k, u)
                &&& all_ordered(k, v)
            };
        let (p, q) = choose|u: Seq<K::T>, v: Seq<K::T>|
            {
                &&& #[trigger] is_optical_flow(k, a, b, r, iters, levels, u, v)
                &&& has_unordered(k, u) || has_unordered(k, v)
            };
        law_flow_has_one_outcome(k, a, b, r, iters, levels, (u, v), (p, q));
    }
}

/// What becomes of a frame has one outcome, however the work was spread: the
/// frame that comes out, and the motion that is kept.
pub proof fn law_frame_has_one_outcome<K: Numerics>(
    k: &K,
    s: Settings<K::T>,
    role: Role,
    rgb: Seq<u8>,
    cur: Gray<K::T>,
    prev: Gray<K::T>,
    next: Gray<K::T>,
    cache: Option<FlowField<K::T>>,
    x: (Seq<u8>, Option<FlowField<K::T>>),
    y: (Seq<u8>, Option<FlowField<K::T>>),
)
    requires
        is_deterministic(k),
        is_processed(k, s, role, rgb, cur, prev, next, cache, x.0, x.1),
        is_processed(k, s, role, rgb, cur, prev, next, cache, y.0, y.1),
    ensures
        x.0 == y.0,
        x.1 is Some <==> y.1 is Some,
        x.1 is Some ==> same_field(x.1->0, y.1->0),
{
    if call_ensures(K::shutter_closed, (k, s.shutter), false) {
        assert(is_blurred_frame(k, s, role, rgb, cur, prev, next, cache, x.0, x.1));
        let f = choose|fwd: FlowField<K::T>, bwd: FlowField<K::T>|
            {
                &&& #[trigger] is_motion(k, s, role, cur, prev, next, cache, fwd, bwd)
                &&& is_motion_blurred(k, rgb, cur.w, cur.h, fwd, bwd, s.shutter, s.samples, x.0)
                &&& is_kept(s, role, fwd, x.1)
            };
        assert(is_blurred_frame(k, s, role, rgb, cur, prev, next, cache, y.0, y.1));
        let g = choose|fwd: FlowField<K::T>, bwd: FlowField<K::T>|
            {
                &&& #[trigger] is_motion(k, s, role, cur, prev, next, cache, fwd, bwd)
                &&& is_motion_blurred(k, rgb, cur.w, cur.h, fwd, bwd, s.shutter, s.samples, y.0)
                &&& is_kept(s, role, fwd, y.1)
            };
        lemma_motion(k, s, role, cur, prev, next, cache, f, g);
        lemma_blur_of_same(k, rgb, cur.w, cur.h, f, g, s.shutter, s.samples, x.0);
        law_blur_is_deterministic(
            k,
            rgb,
            cur.w,
            cur.h,
            g.0,
            g.1,
            s.shutter,
            s.samples,
            x.0,
            y.0,
        );
    }
}

} // verus!
