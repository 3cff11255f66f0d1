//! What the formulas amount to where arithmetic is exact.
use crate::formulas::{
    bilinear_expr, bounded, clamped, damped, det_expr, gauss_expr, is_abs, is_abs_about, luma_expr,
    mean_expr, raw_u_expr, raw_v_expr, span_expr, sum, tap_expr, Expr,
    Formulas, Scalar,
};
use crate::lucas_kanade::{
    is_level_solution, is_moved, is_refined, is_refinement, is_refinement_run, is_tensor, Tensor,
};
use crate::numerics::Numerics;
use vstd::prelude::*;

verus! {

/// `num / den`.
pub open spec fn fraction(num: int, den: int) -> real {
    (num as real) / (den as real)
}

pub(crate) proof fn lemma_fraction(num: int, den: int)
    requires
        den > 0,
    ensures
        fraction(num, den) * (den as real) == num as real,
        num == 0 ==> fraction(num, den) == 0 as real,
{
    let (a, b) = (num as real, den as real);
    assert((a / b) * b == a) by (nonlinear_arith)
        requires
            b > (0 as real),
    ;
    assert(a == (0 as real) ==> a / b == (0 as real)) by (nonlinear_arith)
        requires
            b > (0 as real),
    ;
}

impl<T> Expr<T> {
    /// The value of a formula, its given numbers read through `val`.
    pub open spec fn exact(self, val: spec_fn(T) -> real) -> real
        decreases self,
    {
        match self {
            Expr::Given(x) => val(x),
            Expr::Const(num, den) => fraction(num as int, den as int),
            Expr::Index(i) => i as real,
            Expr::Byte(b) => b as real,
            Expr::Plus(a, b) => a.exact(val) + b.exact(val),
            Expr::Minus(a, b) => a.exact(val) - b.exact(val),
            Expr::Times(a, b) => a.exact(val) * b.exact(val),
            Expr::Over(a, b) => a.exact(val) / b.exact(val),
            Expr::Opposite(a) => -a.exact(val),
            Expr::Abs(a) => if a.exact(val) < (0 as real) {
                -a.exact(val)
            } else {
                a.exact(val)
            },
            Expr::AtLeast(a, b) => if a.exact(val) < b.exact(val) {
                b.exact(val)
            } else {
                a.exact(val)
            },
            Expr::AtMost(a, b) => if b.exact(val) < a.exact(val) {
                b.exact(val)
            } else {
                a.exact(val)
            },
        }
    }
}

/// Every operation is exact when numbers are read through `val`.
pub open spec fn is_exact<S: Scalar>(s: &S, val: spec_fn(S::T) -> real) -> bool {
    &&& forall|num: i64, den: u32, v: S::T| #[trigger]
        call_ensures(S::constant, (s, num, den), v) ==> val(v) == fraction(num as int, den as int)
    &&& forall|i: usize, v: S::T| #[trigger]
        call_ensures(S::of_index, (s, i), v) ==> val(v) == i as real
    &&& forall|b: u8, v: S::T| #[trigger]
        call_ensures(S::of_byte, (s, b), v) ==> val(v) == b as real
    &&& forall|x: S::T, y: S::T, v: S::T| #[trigger]
        call_ensures(S::plus, (s, x, y), v) ==> val(v) == val(x) + val(y)
    &&& forall|x: S::T, y: S::T, v: S::T| #[trigger]
        call_ensures(S::minus, (s, x, y), v) ==> val(v) == val(x) - val(y)
    &&& forall|x: S::T, y: S::T, v: S::T| #[trigger]
        call_ensures(S::times, (s, x, y), v) ==> val(v) == val(x) * val(y)
    &&& forall|x: S::T, y: S::T, v: S::T| #[trigger]
        call_ensures(S::over, (s, x, y), v) ==> val(v) == val(x) / val(y)
    &&& forall|x: S::T, v: S::T| #[trigger]
        call_ensures(S::opposite, (s, x), v) ==> val(v) == -val(x)
    &&& forall|x: S::T, y: S::T, yes: bool| #[trigger]
        call_ensures(S::less, (s, x, y), yes) ==> yes == (val(x) < val(y))
    &&& forall|x: S::T, y: S::T, yes: bool| #[trigger]
        call_ensures(S::at_most, (s, x, y), yes) ==> yes == (val(x) <= val(y))
    &&& forall|x: S::T, i: usize| #[trigger]
        call_ensures(S::whole, (s, x), i) && (0 as real) <= val(x) <= (usize::MAX as real) ==> (
        i as real) <= val(x) < (i + 1) as real
    &&& forall|x: S::T, b: u8| #[trigger]
        call_ensures(S::nearest_byte, (s, x), b) && (0 as real) <= val(x) <= (255 as real)
            ==> val(x) - fraction(1, 2) <= (b as real) <= val(x) + fraction(1, 2)
}

/// Where every operation is exact, so is every formula.
pub proof fn law_formulas_are_exact<S: Scalar>(
    s: &S,
    val: spec_fn(S::T) -> real,
    e: Expr<S::T>,
    v: S::T,
)
    requires
        is_exact(s, val),
        e.gives(s, v),
    ensures
        val(v) == e.exact(val),
    decreases e,
{
    match e {
        Expr::Given(x) => {},
        Expr::Const(num, den) => {},
        Expr::Index(i) => {},
        Expr::Byte(b) => {},
        Expr::Plus(a, b) => {
            let (x, y) = choose|x: S::T, y: S::T|
                a.gives(s, x) && b.gives(s, y) && #[trigger] call_ensures(S::plus, (s, x, y), v);
            law_formulas_are_exact(s, val, *a, x);
            law_formulas_are_exact(s, val, *b, y);
        },
        Expr::Minus(a, b) => {
            let (x, y) = choose|x: S::T, y: S::T|
                a.gives(s, x) && b.gives(s, y) && #[trigger] call_ensures(S::minus, (s, x, y), v);
            law_formulas_are_exact(s, val, *a, x);
            law_formulas_are_exact(s, val, *b, y);
        },
        Expr::Times(a, b) => {
            let (x, y) = choose|x: S::T, y: S::T|
                a.gives(s, x) && b.gives(s, y) && #[trigger] call_ensures(S::times, (s, x, y), v);
            law_formulas_are_exact(s, val, *a, x);
            law_formulas_are_exact(s, val, *b, y);
        },
        Expr::Over(a, b) => {
            let (x, y) = choose|x: S::T, y: S::T|
                a.gives(s, x) && b.gives(s, y) && #[trigger] call_ensures(S::over, (s, x, y), v);
            law_formulas_are_exact(s, val, *a, x);
            law_formulas_are_exact(s, val, *b, y);
        },
        Expr::Opposite(a) => {
            let x = choose|x: S::T|
                a.gives(s, x) && #[trigger] call_ensures(S::opposite, (s, x), v);
            law_formulas_are_exact(s, val, *a, x);
        },
        Expr::Abs(a) => {
            let x = choose|x: S::T| a.gives(s, x) && #[trigger] is_abs(s, x, v);
            law_formulas_are_exact(s, val, *a, x);
            let zero = choose|zero: S::T|
                {
                    &&& call_ensures(S::constant, (s, 0i64, 1u32), zero)
                    &&& is_abs_about(s, x, zero, v)
                };
            assert(val(zero) == fraction(0, 1));
            lemma_fraction(0, 1);
        },
        Expr::AtLeast(a, b) => {
            let (x, y, below) = choose|x: S::T, y: S::T, below: bool|
                {
                    &&& a.gives(s, x)
                    &&& b.gives(s, y)
                    &&& #[trigger] call_ensures(S::less, (s, x, y), below)
                    &&& v == (if below {
                        y
                    } else {
                        x
                    })
                };
            law_formulas_are_exact(s, val, *a, x);
            law_formulas_are_exact(s, val, *b, y);
        },
        Expr::AtMost(a, b) => {
            let (x, y, above) = choose|x: S::T, y: S::T, above: bool|
                {
                    &&& a.gives(s, x)
                    &&& b.gives(s, y)
                    &&& #[trigger] call_ensures(S::less, (s, y, x), above)
                    &&& v == (if above {
                        y
                    } else {
                        x
                    })
                };
            law_formulas_are_exact(s, val, *a, x);
            law_formulas_are_exact(s, val, *b, y);
        },
    }
}

/// A pixel without colour is as bright as its channels.
pub proof fn law_gray_stays_gray<T>(val: spec_fn(T) -> real, b: u8)
    ensures
        luma_expr::<T>(b, b, b).exact(val) == b as real,
{
    reveal_with_fuel(Expr::exact, 4);
    let (r, g, u) = (fraction(299, 1000), fraction(587, 1000), fraction(114, 1000));
    let x = b as real;
    lemma_fraction(299, 1000);
    lemma_fraction(587, 1000);
    lemma_fraction(114, 1000);
    assert(luma_expr::<T>(b, b, b).exact(val) == r * x + g * x + u * x);
    assert(r * x + g * x + u * x == x) by (nonlinear_arith)
        requires
            r * (1000 as real) == (299 as real),
            g * (1000 as real) == (587 as real),
            u * (1000 as real) == (114 as real),
    ;
}

/// The Gaussian weights add up to one: a flat image stays as it is.
pub proof fn law_gauss_keeps_flat<T>(val: spec_fn(T) -> real, a: T)
    ensures
        gauss_expr(a, a, a, a, a).exact(val) == val(a),
{
    reveal_with_fuel(Expr::exact, 8);
    let (o, i, c, z) = (fraction(1, 16), fraction(1, 4), fraction(3, 8), fraction(0, 1));
    let x = val(a);
    lemma_fraction(1, 16);
    lemma_fraction(1, 4);
    lemma_fraction(3, 8);
    lemma_fraction(0, 1);
    assert(gauss_expr(a, a, a, a, a).exact(val) == z + x * o + x * i + x * c + x * i + x * o);
    assert(z + x * o + x * i + x * c + x * i + x * o == x) by (nonlinear_arith)
        requires
            z == (0 as real),
            o * (16 as real) == (1 as real),
            i * (4 as real) == (1 as real),
            c * (8 as real) == (3 as real),
    ;
}

pub(crate) proof fn lemma_distribute(x: real, y: real, z: real)
    by (nonlinear_arith)
    ensures
        x * (y + z) == x * y + x * z,
        x * (y - z) == x * y - x * z,
{
}

pub(crate) proof fn lemma_swap(x: real, y: real)
    by (nonlinear_arith)
    ensures
        x * y == y * x,
{
}

pub(crate) proof fn lemma_regroup(x: real, y: real, z: real)
    by (nonlinear_arith)
    ensures
        x * (y * z) == (x * y) * z,
{
}

pub(crate) proof fn lemma_divided(a: real, b: real)
    by (nonlinear_arith)
    requires
        b != (0 as real),
    ensures
        (a / b) * b == a,
{
}

pub(crate) proof fn lemma_one(x: real)
    by (nonlinear_arith)
    ensures
        x * (1 as real) == x,
        x * (0 as real) == (0 as real),
{
}

pub(crate) proof fn lemma_cancel(x: real, y: real, d: real)
    requires
        d != (0 as real),
        x * d == y * d,
    ensures
        x == y,
{
    let i = (1 as real) / d;
    lemma_divided(1 as real, d);
    lemma_swap(i, d);
    lemma_regroup(x, d, i);
    lemma_regroup(y, d, i);
    lemma_one(x);
    lemma_one(y);
}

/// A share of a number.
pub(crate) proof fn lemma_scale(x: real, num: int, den: int)
    requires
        den > 0,
    ensures
        (x * fraction(num, den)) * (den as real) == x * (num as real),
        (fraction(num, den) * x) * (den as real) == x * (num as real),
{
    let f = fraction(num, den);
    lemma_fraction(num, den);
    lemma_regroup(x, f, den as real);
    lemma_swap(x, f);
}

/// The first unknown equation of Cramer's rule: `a u + b v = p`.
proof fn lemma_cramer(a: real, b: real, d: real, p: real, q: real, u: real, v: real, det: real)
    requires
        det == a * d - b * b,
        det != (0 as real),
        u * det == d * p - b * q,
        v * det == a * q - b * p,
    ensures
        a * u + b * v == p,
{
    let x = a * u + b * v;
    lemma_swap(det, x);
    lemma_distribute(det, a * u, b * v);
    lemma_swap(det, a * u);
    lemma_swap(det, b * v);
    lemma_regroup(a, u, det);
    lemma_regroup(b, v, det);
    assert(x * det == a * (u * det) + b * (v * det));
    lemma_distribute(a, d * p, b * q);
    lemma_distribute(b, a * q, b * p);
    lemma_regroup(a, d, p);
    lemma_regroup(b, b, p);
    lemma_regroup(a, b, q);
    lemma_regroup(b, a, q);
    lemma_swap(a, b);
    lemma_swap(p, a * d);
    lemma_swap(p, b * b);
    lemma_distribute(p, a * d, b * b);
    assert(x * det == p * det);
    lemma_cancel(x, p, det);
}

proof fn lemma_opposite(x: real, y: real)
    by (nonlinear_arith)
    ensures
        (-x) * y == -(x * y),
{
}

/// Before it is bounded, the update solves the normal equations.
pub proof fn law_update_solves_normal_equations<T>(
    val: spec_fn(T) -> real,
    xx: T,
    yy: T,
    xy: T,
    xt: T,
    yt: T,
)
    requires
        det_expr(xx, yy, xy).exact(val) != (0 as real),
    ensures
        damped(xx).exact(val) * raw_u_expr(xx, yy, xy, xt, yt).exact(val) + val(xy) * raw_v_expr(
            xx,
            yy,
            xy,
            xt,
            yt,
        ).exact(val) == -val(xt),
        val(xy) * raw_u_expr(xx, yy, xy, xt, yt).exact(val) + damped(yy).exact(val) * raw_v_expr(
            xx,
            yy,
            xy,
            xt,
            yt,
        ).exact(val) == -val(yt),
{
    let a = damped(xx).exact(val);
    let d = damped(yy).exact(val);
    let b = val(xy);
    let (p, q) = (-val(xt), -val(yt));
    let det = det_expr(xx, yy, xy).exact(val);
    let u = raw_u_expr(xx, yy, xy, xt, yt).exact(val);
    let v = raw_v_expr(xx, yy, xy, xt, yt).exact(val);
    assert(det == a * d - b * b) by {
        reveal_with_fuel(Expr::exact, 3);
    }
    assert(u == (d * p - b * q) / det) by {
        reveal_with_fuel(Expr::exact, 5);
    }
    assert(v == ((-b) * p + a * q) / det) by {
        reveal_with_fuel(Expr::exact, 5);
    }
    lemma_opposite(b, p);
    lemma_divided(d * p - b * q, det);
    lemma_divided(a * q - b * p, det);
    lemma_swap(a, d);
    lemma_cramer(a, b, d, p, q, u, v, det);
    lemma_cramer(d, b, a, q, p, v, u, det);
}

pub(crate) proof fn lemma_bilinear<T>(
    val: spec_fn(T) -> real,
    s00: T,
    s10: T,
    s01: T,
    s11: T,
    fx: T,
    fy: T,
)
    ensures
        bilinear_expr(s00, s10, s01, s11, fx, fy).exact(val) == (val(s00) * ((1 as real) - val(fx))
            + val(s10) * val(fx)) * ((1 as real) - val(fy)) + (val(s01) * ((1 as real) - val(fx))
            + val(s11) * val(fx)) * val(fy),
{
    reveal_with_fuel(Expr::exact, 6);
    lemma_fraction(1, 1);
    lemma_one(fraction(1, 1));
}

/// Between equal samples there is no other value.
pub proof fn law_bilinear_keeps_flat<T>(val: spec_fn(T) -> real, a: T, fx: T, fy: T)
    ensures
        bilinear_expr(a, a, a, a, fx, fy).exact(val) == val(a),
{
    lemma_bilinear(val, a, a, a, a, fx, fy);
    let one = 1 as real;
    lemma_distribute(val(a), one - val(fx), val(fx));
    lemma_distribute(val(a), one - val(fy), val(fy));
    lemma_one(val(a));
}

/// At a grid position the sample is that of the cell.
pub proof fn law_bilinear_hits_cells<T>(
    val: spec_fn(T) -> real,
    s00: T,
    s10: T,
    s01: T,
    s11: T,
    fx: T,
    fy: T,
)
    requires
        val(fx) == (0 as real),
        val(fy) == (0 as real),
    ensures
        bilinear_expr(s00, s10, s01, s11, fx, fy).exact(val) == val(s00),
{
    lemma_bilinear(val, s00, s10, s01, s11, fx, fy);
    lemma_one(val(s00));
    lemma_one(val(s10));
    lemma_one(val(s01) * ((1 as real) - val(fx)) + val(s11) * val(fx));
}

/// However far the solution lies, the update moves a cell by at most five
/// cells either way, and within that range it is the solution.
pub proof fn law_update_is_bounded<T>(val: spec_fn(T) -> real, e: Expr<T>)
    ensures
        -(5 as real) <= bounded(e).exact(val) <= (5 as real),
        -(5 as real) <= e.exact(val) <= (5 as real) ==> bounded(e).exact(val) == e.exact(val),
{
    reveal_with_fuel(Expr::exact, 4);
    lemma_fraction(5, 1);
    lemma_one(fraction(5, 1));
}

/// A shutter angle of `a` degrees exposes `a / 720` of a frame interval on
/// either side of the current frame; angles beyond a full turn count as one,
/// negative ones as none. So 360 degrees span one full interval, 180 half of
/// it.
pub proof fn law_shutter_spans_the_interval<T>(val: spec_fn(T) -> real, a: T)
    ensures
        span_expr(a).exact(val) * (720 as real) == (if val(a) < (0 as real) {
            0 as real
        } else if val(a) > (360 as real) {
            360 as real
        } else {
            val(a)
        }),
{
    let c = clamped(Expr::Given(a), Expr::Const(0, 1), Expr::Const(360, 1)).exact(val);
    let f = fraction(360, 1);
    let h = fraction(1, 2);
    assert(c == (if val(a) < (0 as real) {
        0 as real
    } else if val(a) > (360 as real) {
        360 as real
    } else {
        val(a)
    }) && f == (360 as real)) by {
        reveal_with_fuel(Expr::exact, 4);
        lemma_fraction(0, 1);
        lemma_fraction(360, 1);
        lemma_one(f);
    }
    assert(span_expr(a).exact(val) == (c / f) * h) by {
        reveal_with_fuel(Expr::exact, 3);
    }
    lemma_divided(c, f);
    lemma_fraction(1, 2);
    lemma_regroup(c / f, h, 720 as real);
    assert(h * (720 as real) == f);
}

/// The shutter counts as closed exactly where the angle is not positive.
pub proof fn law_shutter_is_closed_at_zero<S: Scalar>(
    f: &Formulas<S>,
    val: spec_fn(S::T) -> real,
    shutter: S::T,
    closed: bool,
)
    requires
        is_exact(&f.0, val),
        call_ensures(Formulas::<S>::shutter_closed, (f, shutter), closed),
    ensures
        closed == (val(shutter) <= (0 as real)),
{
    lemma_fraction(0, 1);
}

/// The taps lie evenly about the middle of the exposure: tap `i` is as far
/// from it as tap `n - 1 - i`, and none lies beyond the end.
pub proof fn law_taps_are_even<T>(val: spec_fn(T) -> real, i: usize, n: usize)
    requires
        i < n,
    ensures
        tap_expr::<T>(i, n).exact(val) == tap_expr::<T>((n - 1 - i) as usize, n).exact(val),
        (0 as real) <= tap_expr::<T>(i, n).exact(val) < (1 as real),
{
    let j = (n - 1 - i) as usize;
    let k = lemma_tap(val, i, n);
    let l = lemma_tap(val, j, n);
    let m = n as real;
    lemma_swap(k, m);
    lemma_swap(l, m);
    lemma_distribute(m, k, l);
    lemma_swap(m, k + l);
    lemma_one(m);
    lemma_swap(m, 1 as real);
    lemma_cancel(k + l, 1 as real, m);
}

/// Tap `i` of `n` lies at `2 k - 1`, where `k` is its share of the exposure.
pub(crate) proof fn lemma_tap<T>(val: spec_fn(T) -> real, i: usize, n: usize) -> (k: real)
    requires
        i < n,
    ensures
        k * (n as real) * (2 as real) == (2 * i + 1) as real,
        (0 as real) < k < (1 as real),
        tap_expr::<T>(i, n).exact(val) == (if k * (2 as real) < (1 as real) {
            (1 as real) - k * (2 as real)
        } else {
            k * (2 as real) - (1 as real)
        }),
{
    let half = fraction(1, 2);
    let k = (i as real + half) / (n as real);
    lemma_fraction(1, 2);
    lemma_fraction(2, 1);
    lemma_fraction(1, 1);
    lemma_one(fraction(2, 1));
    lemma_one(fraction(1, 1));
    lemma_divided(i as real + half, n as real);
    assert(tap_expr::<T>(i, n).exact(val) == (if k * (2 as real) < (1 as real) {
        (1 as real) - k * (2 as real)
    } else {
        k * (2 as real) - (1 as real)
    })) by {
        reveal_with_fuel(Expr::exact, 7);
    }
    lemma_between(k, n as real);
    k
}

proof fn lemma_between(k: real, m: real)
    by (nonlinear_arith)
    requires
        m > (0 as real),
        (0 as real) < k * m < m,
    ensures
        (0 as real) < k < (1 as real),
{
}

/// The mean of equal taps is the tap.
pub proof fn law_mean_of_equal_taps<T>(val: spec_fn(T) -> real, total: T, n: usize, c: real)
    requires
        n > 0,
        val(total) == c * (n as real),
    ensures
        mean_expr(total, n).exact(val) == c,
{
    let m = n as real;
    lemma_fraction(1, 1);
    lemma_one(fraction(1, 1));
    assert(mean_expr(total, n).exact(val) == (c * m) * ((1 as real) / m)) by {
        reveal_with_fuel(Expr::exact, 4);
    }
    lemma_divided(1 as real, m);
    lemma_swap((1 as real) / m, m);
    lemma_regroup(c, m, (1 as real) / m);
    lemma_one(c);
}

proof fn lemma_step_is_bounded<S: Scalar>(
    k: &Formulas<S>,
    val: spec_fn(S::T) -> real,
    e: Expr<S::T>,
    d: S::T,
    u: S::T,
    moved: S::T,
)
    requires
        is_exact(&k.0, val),
        bounded(e).gives(&k.0, d),
        sum(Expr::Given(u), Expr::Given(d)).gives(&k.0, moved),
    ensures
        -(5 as real) <= val(moved) - val(u) <= (5 as real),
{
    law_formulas_are_exact(&k.0, val, bounded(e), d);
    law_formulas_are_exact(&k.0, val, sum(Expr::Given(u), Expr::Given(d)), moved);
    law_update_is_bounded(val, e);
    assert(sum(Expr::Given(u), Expr::Given(d)).exact(val) == val(u) + val(d)) by {
        reveal_with_fuel(Expr::exact, 3);
    }
}

proof fn lemma_refinement_is_bounded<S: Scalar>(
    k: &Formulas<S>,
    val: spec_fn(S::T) -> real,
    t: Tensor<S::T>,
    a: Seq<S::T>,
    w: int,
    h: int,
    b: Seq<S::T>,
    bw: usize,
    bh: usize,
    r: int,
    u: Seq<S::T>,
    v: Seq<S::T>,
    u2: Seq<S::T>,
    v2: Seq<S::T>,
    i: int,
)
    requires
        is_exact(&k.0, val),
        0 <= i < w * h,
        is_refined(k, t, a, w, h, b, bw, bh, r, u, v, u2, v2),
    ensures
        -(5 as real) <= val(u2[i]) - val(u[i]) <= (5 as real),
        -(5 as real) <= val(v2[i]) - val(v[i]) <= (5 as real),
{
    let (d, sxt, syt) = choose|d: Seq<S::T>, p: Seq<S::T>, q: Seq<S::T>| #[trigger]
        is_refinement(k, t, a, w, h, b, bw, bh, r, u, v, d, p, q, u2, v2);
    let (xx, yy, xy) = (t.xx@[i], t.yy@[i], t.xy@[i]);
    assert(is_moved(k, xx, yy, xy, sxt[i], syt[i], u[i], v[i], u2[i], v2[i]));
    let step = choose|step: Option<(S::T, S::T)>| #[trigger]
        call_ensures(Formulas::<S>::solve, (k, xx, yy, xy, sxt[i], syt[i]), step) && match step {
            None => u2[i] == u[i] && v2[i] == v[i],
            Some(d) => call_ensures(Formulas::<S>::plus, (k, u[i], d.0), u2[i]) && call_ensures(
                Formulas::<S>::plus,
                (k, v[i], d.1),
                v2[i],
            ),
        };
    if let Some(d) = step {
        lemma_step_is_bounded(
            k,
            val,
            raw_u_expr(xx, yy, xy, sxt[i], syt[i]),
            d.0,
            u[i],
            u2[i],
        );
        lemma_step_is_bounded(
            k,
            val,
            raw_v_expr(xx, yy, xy, sxt[i], syt[i]),
            d.1,
            v[i],
            v2[i],
        );
    }
}

proof fn lemma_run_is_bounded<S: Scalar>(
    k: &Formulas<S>,
    val: spec_fn(S::T) -> real,
    t: Tensor<S::T>,
    a: Seq<S::T>,
    w: int,
    h: int,
    b: Seq<S::T>,
    bw: usize,
    bh: usize,
    r: int,
    us: Seq<Seq<S::T>>,
    vs: Seq<Seq<S::T>>,
    n: int,
    i: int,
)
    requires
        is_exact(&k.0, val),
        0 <= i < w * h,
        is_refinement_run(k, t, a, w, h, b, bw, bh, r, us, vs),
        0 <= n < us.len(),
    ensures
        -((5 * n) as real) <= val(us[n][i]) - val(us[0][i]) <= (5 * n) as real,
        -((5 * n) as real) <= val(vs[n][i]) - val(vs[0][i]) <= (5 * n) as real,
    decreases n,
{
    if n > 0 {
        lemma_run_is_bounded(k, val, t, a, w, h, b, bw, bh, r, us, vs, n - 1, i);
        let (u, v) = (us[n - 1], vs[n - 1]);
        lemma_refinement_is_bounded(k, val, t, a, w, h, b, bw, bh, r, u, v, us[n], vs[n], i);
    }
}

/// A level moves each component of the motion of a cell by at most five cells
/// per iteration.
pub proof fn law_level_moves_a_little<S: Scalar>(
    k: &Formulas<S>,
    val: spec_fn(S::T) -> real,
    a: Seq<S::T>,
    w: int,
    h: int,
    b: Seq<S::T>,
    bw: usize,
    bh: usize,
    r: int,
    iters: int,
    u: Seq<S::T>,
    v: Seq<S::T>,
    u2: Seq<S::T>,
    v2: Seq<S::T>,
    i: int,
)
    requires
        is_exact(&k.0, val),
        0 <= i < w * h,
        0 <= iters,
        is_level_solution(k, a, w, h, b, bw, bh, r, iters, u, v, u2, v2),
    ensures
        -((5 * iters) as real) <= val(u2[i]) - val(u[i]) <= (5 * iters) as real,
        -((5 * iters) as real) <= val(v2[i]) - val(v[i]) <= (5 * iters) as real,
{
    let (t, us, vs) = choose|t: Tensor<S::T>, us: Seq<Seq<S::T>>, vs: Seq<Seq<S::T>>|
        is_tensor(k, a, w, h, r, t) && #[trigger] is_refinement_run(
            k,
            t,
            a,
            w,
            h,
            b,
            bw,
            bh,
            r,
            us,
            vs,
        ) && us.len() == iters + 1 && us[0] == u && vs[0] == v && us[iters] == u2 && vs[iters]
            == v2;
    lemma_run_is_bounded(k, val, t, a, w, h, b, bw, bh, r, us, vs, iters, i);
}

} // verus!
