//! What sampling amounts to where arithmetic is exact on whole numbers up to some
//! bound, as that of floats is, and need not be anywhere else.
use crate::determinism::lemma_gaussian;
use crate::formulas::{
    at_least, bilinear_expr, difference, is_cell, limit_expr, mix_expr, position_expr, product,
    rest_expr, Expr, Formulas, Scalar,
};
use crate::grid::{lemma_join_index, lesser};
use crate::image::{
    is_bilinear, is_downsampled, is_gaussian_blurred, is_sample, is_sample_at_double, is_thinned,
};
use crate::numerics::Numerics;
use crate::outcomes::{law_formulas_are_deterministic, operations_agree};
use crate::sampling::holds_every_other;
use vstd::prelude::*;

verus! {

/// What numbers stand for: `val` is the value of those that `finite` picks out,
/// and whole values up to `top` are computed exactly.
#[verifier::reject_recursive_types(T)]
pub struct Reading<T> {
    pub val: spec_fn(T) -> real,
    pub finite: spec_fn(T) -> bool,
    pub top: int,
}

impl<T> Reading<T> {
    /// `x` stands for the whole number `n`.
    pub open spec fn is_at(self, x: T, n: int) -> bool {
        (self.finite)(x) && (self.val)(x) == n as real
    }

    /// `x` and `y` stand for the same number.
    pub open spec fn same(self, x: T, y: T) -> bool {
        (self.finite)(x) && (self.finite)(y) && (self.val)(x) == (self.val)(y)
    }
}

/// Whole numbers are counted and compared exactly, and to multiply by zero or
/// one and to add zero is exact for every finite number.
pub open spec fn is_exact_on_whole<S: Scalar>(s: &S, m: Reading<S::T>) -> bool {
    &&& forall|num: i64, v: S::T| #[trigger]
        call_ensures(S::constant, (s, num, 1u32), v) && 0 <= num <= 2 ==> m.is_at(v, num as int)
    &&& forall|i: usize, v: S::T| #[trigger]
        call_ensures(S::of_index, (s, i), v) && i <= m.top ==> m.is_at(v, i as int)
    &&& forall|x: S::T, y: S::T, v: S::T, a: int, b: int|
        #![trigger call_ensures(S::minus, (s, x, y), v), m.is_at(x, a), m.is_at(y, b)]
        call_ensures(S::minus, (s, x, y), v) && m.is_at(x, a) && m.is_at(y, b) && 0 <= b <= a
            <= m.top ==> m.is_at(v, a - b)
    &&& forall|x: S::T, y: S::T, yes: bool| #[trigger]
        call_ensures(S::less, (s, x, y), yes) && (m.finite)(x) && (m.finite)(y) ==> yes == (
        (m.val)(x) < (m.val)(y))
    &&& forall|x: S::T, i: usize, a: int|
        #![trigger call_ensures(S::whole, (s, x), i), m.is_at(x, a)]
        call_ensures(S::whole, (s, x), i) && m.is_at(x, a) && 0 <= a <= m.top ==> i == a
    &&& forall|x: S::T, y: S::T, v: S::T|
        #![trigger call_ensures(S::times, (s, x, y), v)]
        call_ensures(S::times, (s, x, y), v) && (m.finite)(x) && m.is_at(y, 1) ==> m.same(v, x)
    &&& forall|x: S::T, y: S::T, v: S::T|
        #![trigger call_ensures(S::times, (s, x, y), v)]
        call_ensures(S::times, (s, x, y), v) && (m.finite)(x) && m.is_at(y, 0) ==> m.is_at(v, 0)
    &&& forall|x: S::T, y: S::T, v: S::T, a: int|
        #![trigger call_ensures(S::times, (s, x, y), v), m.is_at(x, a)]
        call_ensures(S::times, (s, x, y), v) && m.is_at(x, a) && m.is_at(y, 2) && 0 <= 2 * a
            <= m.top ==> m.is_at(v, 2 * a)
    &&& forall|x: S::T, y: S::T, v: S::T|
        #![trigger call_ensures(S::plus, (s, x, y), v)]
        call_ensures(S::plus, (s, x, y), v) && (m.finite)(x) && m.is_at(y, 0) ==> m.same(v, x)
}

/// Every value of the formula stands for what `x` stands for.
pub open spec fn stands_for<S: Scalar>(s: &S, m: Reading<S::T>, e: Expr<S::T>, x: S::T) -> bool {
    forall|v: S::T| #[trigger] e.gives(s, v) ==> m.same(v, x)
}

/// A whole position on the grid stays where it is.
proof fn lemma_position<S: Scalar>(s: &S, m: Reading<S::T>, p: S::T, n: usize, i: int, c: S::T)
    requires
        is_exact_on_whole(s, m),
        m.is_at(p, i),
        0 <= i < n,
        n <= m.top,
        position_expr(p, n).gives(s, c),
    ensures
        m.is_at(c, i),
{
    let low = at_least(Expr::Given(p), Expr::Const(0, 1));
    let (x, y, above) = choose|x: S::T, y: S::T, above: bool|
        {
            &&& low.gives(s, x)
            &&& limit_expr(n).gives(s, y)
            &&& #[trigger] call_ensures(S::less, (s, y, x), above)
            &&& c == (if above {
                y
            } else {
                x
            })
        };
    let (q, zero, below) = choose|q: S::T, zero: S::T, below: bool|
        {
            &&& Expr::Given(p).gives(s, q)
            &&& Expr::Const(0, 1).gives(s, zero)
            &&& #[trigger] call_ensures(S::less, (s, q, zero), below)
            &&& x == (if below {
                zero
            } else {
                q
            })
        };
    assert(m.is_at(zero, 0));
    assert(x == p);
    let (a, b) = choose|a: S::T, b: S::T|
        Expr::Index(n).gives(s, a) && Expr::Const(1, 1).gives(s, b) && #[trigger] call_ensures(
            S::minus,
            (s, a, b),
            y,
        );
    assert(m.is_at(a, n as int));
    assert(m.is_at(b, 1));
    assert(m.is_at(y, n - 1));
}

/// A whole position falls into its cell, with no fraction beyond it.
proof fn lemma_whole_cell<S: Scalar>(
    s: &S,
    m: Reading<S::T>,
    p: S::T,
    n: usize,
    i: int,
    cell: usize,
    f: S::T,
)
    requires
        is_exact_on_whole(s, m),
        m.is_at(p, i),
        0 <= i < n,
        n <= m.top,
        is_cell(s, position_expr(p, n), cell, f),
    ensures
        cell == i,
        m.is_at(f, 0),
{
    let c = choose|c: S::T|
        {
            &&& position_expr(p, n).gives(s, c)
            &&& #[trigger] call_ensures(S::whole, (s, c), cell)
            &&& difference(Expr::Given(c), Expr::Index(cell)).gives(s, f)
        };
    lemma_position(s, m, p, n, i, c);
    let (a, b) = choose|a: S::T, b: S::T|
        Expr::Given(c).gives(s, a) && Expr::Index(cell).gives(s, b) && #[trigger] call_ensures(
            S::minus,
            (s, a, b),
            f,
        );
    assert(m.is_at(a, i));
    assert(m.is_at(b, i));
}

/// With no fraction, a mix is the first of the two.
proof fn lemma_mix<S: Scalar>(
    s: &S,
    m: Reading<S::T>,
    a: Expr<S::T>,
    b: Expr<S::T>,
    f: S::T,
    x: S::T,
    y: S::T,
)
    requires
        is_exact_on_whole(s, m),
        stands_for(s, m, a, x),
        stands_for(s, m, b, y),
        m.is_at(f, 0),
        1 <= m.top,
    ensures
        stands_for(s, m, mix_expr(a, b, f), x),
{
    let (left, right) = (product(a, rest_expr(f)), product(b, Expr::Given(f)));
    assert forall|v: S::T| #[trigger] mix_expr(a, b, f).gives(s, v) implies m.same(v, x) by {
        let (p, q) = choose|p: S::T, q: S::T|
            left.gives(s, p) && right.gives(s, q) && #[trigger] call_ensures(S::plus, (s, p, q), v);
        let (c, d) = choose|c: S::T, d: S::T|
            a.gives(s, c) && rest_expr(f).gives(s, d) && #[trigger] call_ensures(
                S::times,
                (s, c, d),
                p,
            );
        let (one, g) = choose|one: S::T, g: S::T|
            Expr::Const(1, 1).gives(s, one) && Expr::Given(f).gives(s, g)
                && #[trigger] call_ensures(S::minus, (s, one, g), d);
        assert(m.is_at(one, 1));
        assert(m.is_at(g, 0));
        assert(m.is_at(d, 1));
        assert(m.same(p, x));
        let (e, h) = choose|e: S::T, h: S::T|
            b.gives(s, e) && Expr::Given(f).gives(s, h) && #[trigger] call_ensures(
                S::times,
                (s, e, h),
                q,
            );
        assert(m.is_at(q, 0));
    }
}

/// At a whole position the sample is that of the cell, up to the last column
/// and row.
pub proof fn law_sample_lands_on_cells<S: Scalar>(
    k: &Formulas<S>,
    m: Reading<S::T>,
    data: Seq<S::T>,
    w: usize,
    h: usize,
    px: S::T,
    py: S::T,
    out: S::T,
    i: int,
    j: int,
)
    requires
        is_exact_on_whole(&k.0, m),
        w <= m.top,
        h <= m.top,
        data.len() == w * h,
        forall|c: int| 0 <= c < data.len() ==> (m.finite)(#[trigger] data[c]),
        is_sample(k, data, w, h, px, py, out),
        0 <= i < w,
        0 <= j < h,
        m.is_at(px, i),
        m.is_at(py, j),
    ensures
        m.same(out, data[j * w + i]),
{
    let s = &k.0;
    let (cx, fx, cy, fy) = choose|cx: usize, fx: S::T, cy: usize, fy: S::T|
        call_ensures(Formulas::<S>::cell, (k, px, w), (cx, fx)) && call_ensures(
            Formulas::<S>::cell,
            (k, py, h),
            (cy, fy),
        ) && #[trigger] is_bilinear(k, data, w, h, cx, cy, fx, fy, out);
    lemma_whole_cell(s, m, px, w, i, cx, fx);
    lemma_whole_cell(s, m, py, h, j, cy, fy);
    let (x1, y1) = (lesser(i + 1, w - 1), lesser(j + 1, h - 1));
    lemma_join_index(i, j, w as int, h as int);
    lemma_join_index(x1, j, w as int, h as int);
    lemma_join_index(i, y1, w as int, h as int);
    lemma_join_index(x1, y1, w as int, h as int);
    let (s00, s10) = (data[j * w + i], data[j * w + x1]);
    let (s01, s11) = (data[y1 * w + i], data[y1 * w + x1]);
    lemma_mix(s, m, Expr::Given(s00), Expr::Given(s10), fx, s00, s10);
    lemma_mix(s, m, Expr::Given(s01), Expr::Given(s11), fx, s01, s11);
    lemma_mix(
        s,
        m,
        mix_expr(Expr::Given(s00), Expr::Given(s10), fx),
        mix_expr(Expr::Given(s01), Expr::Given(s11), fx),
        fy,
        s00,
        s01,
    );
    assert(bilinear_expr(s00, s10, s01, s11, fx, fy).gives(s, out));
}

/// Halving an image keeps every other cell of every other row of the blurred
/// image.
pub proof fn law_halving_lands_on_cells<S: Scalar>(
    k: &Formulas<S>,
    m: Reading<S::T>,
    src: Seq<S::T>,
    w: usize,
    h: usize,
    blurred: Seq<S::T>,
    dst: Seq<S::T>,
)
    requires
        is_exact_on_whole(&k.0, m),
        operations_agree(&k.0),
        w <= m.top,
        h <= m.top,
        is_gaussian_blurred(k, src, w as int, h as int, blurred),
        forall|c: int| 0 <= c < blurred.len() ==> (m.finite)(#[trigger] blurred[c]),
        is_downsampled(k, src, w, h, (w / 2) as usize, (h / 2) as usize, dst),
    ensures
        holds_every_other::<S>(m.val, blurred, w as int, w as int / 2, h as int / 2, dst),
{
    law_formulas_are_deterministic(k);
    let (nw, nh) = ((w / 2) as usize, (h / 2) as usize);
    let mid = choose|mid: Seq<S::T>| #[trigger]
        is_gaussian_blurred(k, src, w as int, h as int, mid) && is_thinned(
            k,
            mid,
            w,
            h,
            nw,
            nh,
            dst,
        );
    lemma_gaussian(k, src, w as int, h as int, mid, blurred);
    assert forall|x: int, y: int| 0 <= x < nw && 0 <= y < nh implies (m.val)(
        #[trigger] dst[y * nw + x],
    ) == (m.val)(blurred[2 * y * w + 2 * x]) by {
        lemma_join_index(x, y, nw as int, nh as int);
        let out = dst[y * nw + x];
        assert(is_sample_at_double(k, blurred, w, h, x as usize, y as usize, out));
        let (px, py) = choose|px: S::T, py: S::T|
            call_ensures(Formulas::<S>::twice, (k, x as usize), px) && call_ensures(
                Formulas::<S>::twice,
                (k, y as usize),
                py,
            ) && #[trigger] is_sample(k, blurred, w, h, px, py, out);
        lemma_twice(k, m, x as usize, px);
        lemma_twice(k, m, y as usize, py);
        law_sample_lands_on_cells(k, m, blurred, w, h, px, py, out, 2 * x, 2 * y);
    }
}

proof fn lemma_twice<S: Scalar>(k: &Formulas<S>, m: Reading<S::T>, i: usize, p: S::T)
    requires
        is_exact_on_whole(&k.0, m),
        2 * i <= m.top,
        call_ensures(Formulas::<S>::twice, (k, i), p),
    ensures
        m.is_at(p, 2 * i),
{
    let s = &k.0;
    assert(product(Expr::Index(i), Expr::Const(2, 1)).gives(s, p));
    let (a, b) = choose|a: S::T, b: S::T|
        Expr::Index(i).gives(s, a) && Expr::Const(2, 1).gives(s, b) && #[trigger] call_ensures(
            S::times,
            (s, a, b),
            p,
        );
    assert(m.is_at(a, i as int));
    assert(m.is_at(b, 2));
}

} // verus!
