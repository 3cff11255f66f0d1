//! What the blur amounts to: which settings act alike, how the channels go
//! together, and where arithmetic is exact, between which bounds it stays.
use crate::blur::{
    channel, is_blend, is_blurred_over, is_blurred_pixel, is_exposed_motion, is_exposure,
    is_motion_blurred, is_pixel_index, is_rgb_sample, is_smeared, is_tap, tap_count, Motion, Tap,
};
use crate::determinism::{is_deterministic, law_blur_is_deterministic, lemma_blurred};
use crate::exact::{
    fraction, is_exact, law_formulas_are_exact, law_shutter_spans_the_interval, lemma_cancel,
    lemma_distribute, lemma_divided, lemma_fraction, lemma_one, lemma_regroup, lemma_swap,
};
use crate::formulas::{
    angle_expr, blend_expr, mean_expr, product, quotient, span_expr, sum, Expr, Formulas, Scalar,
};
use crate::grid::{lemma_join_index, lemma_split_index, lesser};
use crate::image::FlowField;
use crate::numerics::Numerics;
use crate::outcomes::{
    law_formulas_are_deterministic, law_formulas_have_one_value, operations_agree,
};
use crate::sampling::{lemma_cell, lemma_weighed};
use vstd::prelude::*;

verus! {

/// Entry `c` of three.
pub open spec fn nth<T>(t: (T, T, T), c: int) -> T {
    if c == 0 {
        t.0
    } else if c == 1 {
        t.1
    } else {
        t.2
    }
}

/// Every byte of channel `c` lies between `lo` and `hi`.
pub open spec fn is_between(frame: Seq<u8>, w: usize, h: usize, c: int, lo: u8, hi: u8) -> bool {
    forall|i: int| #[trigger] is_pixel_index(i, w, h) ==> lo <= frame[3 * i + c] <= hi
}

proof fn lemma_product_nonnegative(x: real, y: real)
    by (nonlinear_arith)
    requires
        x >= (0 as real),
        y >= (0 as real),
    ensures
        x * y >= (0 as real),
{
}

/// A mix of four bytes lies between the least and the greatest of them.
proof fn lemma_blend<S: Scalar>(
    k: &Formulas<S>,
    val: spec_fn(S::T) -> real,
    b: (u8, u8, u8, u8),
    fx: S::T,
    fy: S::T,
    out: S::T,
    lo: u8,
    hi: u8,
)
    requires
        is_exact(&k.0, val),
        call_ensures(Formulas::<S>::blend_bytes, (k, b.0, b.1, b.2, b.3, fx, fy), out),
        (0 as real) <= val(fx) <= (1 as real),
        (0 as real) <= val(fy) <= (1 as real),
        lo <= b.0 <= hi,
        lo <= b.1 <= hi,
        lo <= b.2 <= hi,
        lo <= b.3 <= hi,
    ensures
        lo as real <= val(out) <= hi as real,
{
    let e = blend_expr(b.0, b.1, b.2, b.3, fx, fy);
    law_formulas_are_exact(&k.0, val, e, out);
    lemma_fraction(1, 1);
    lemma_one(fraction(1, 1));
    let one = 1 as real;
    let (x, y) = (val(fx), val(fy));
    let (w00, w10) = ((one - x) * (one - y), x * (one - y));
    let (w01, w11) = ((one - x) * y, x * y);
    let (l, u) = (lo as real, hi as real);
    assert(e.exact(val) == (b.0 as real) * w00 + (b.1 as real) * w10 + (b.2 as real) * w01 + (
    b.3 as real) * w11) by {
        reveal_with_fuel(Expr::exact, 8);
    }
    lemma_product_nonnegative(one - x, one - y);
    lemma_product_nonnegative(x, one - y);
    lemma_product_nonnegative(one - x, y);
    lemma_product_nonnegative(x, y);
    lemma_weighed(l, b.0 as real, u, w00);
    lemma_weighed(l, b.1 as real, u, w10);
    lemma_weighed(l, b.2 as real, u, w01);
    lemma_weighed(l, b.3 as real, u, w11);
    lemma_swap(one - y, one - x);
    lemma_swap(one - y, x);
    lemma_swap(y, one - x);
    lemma_swap(y, x);
    lemma_distribute(one - y, one - x, x);
    lemma_distribute(y, one - x, x);
    lemma_one(one - y);
    lemma_one(y);
    assert(w00 + w10 + w01 + w11 == one);
    lemma_shares(l, w00, w10, w01, w11);
    lemma_shares(u, w00, w10, w01, w11);
}

proof fn lemma_shares(v: real, a: real, b: real, c: real, d: real)
    requires
        a + b + c + d == (1 as real),
    ensures
        v * a + v * b + v * c + v * d == v,
{
    lemma_distribute(v, a, b);
    lemma_distribute(v, a + b, c);
    lemma_distribute(v, a + b + c, d);
    lemma_one(v);
}

/// A tap lies between the least and the greatest byte of its channel.
proof fn lemma_tap_between<S: Scalar>(
    k: &Formulas<S>,
    val: spec_fn(S::T) -> real,
    frame: Seq<u8>,
    w: usize,
    h: usize,
    t: Tap<S::T>,
    c: int,
    lo: u8,
    hi: u8,
)
    requires
        is_exact(&k.0, val),
        w > 0,
        h > 0,
        0 <= c < 3,
        is_between(frame, w, h, c, lo, hi),
        is_rgb_sample(k, frame, w, h, t),
    ensures
        lo as real <= val(nth(t.color, c)) <= hi as real,
{
    lemma_cell(&k.0, val, t.px, w, t.cx, t.fx);
    lemma_cell(&k.0, val, t.py, h, t.cy, t.fy);
    let (x0, y0) = (lesser(t.cx as int, w - 1), lesser(t.cy as int, h - 1));
    let (x1, y1) = (lesser(t.cx + 1, w - 1), lesser(t.cy + 1, h - 1));
    lemma_join_index(x0, y0, w as int, h as int);
    lemma_join_index(x1, y0, w as int, h as int);
    lemma_join_index(x0, y1, w as int, h as int);
    lemma_join_index(x1, y1, w as int, h as int);
    assert(is_pixel_index(y0 * w + x0, w, h));
    assert(is_pixel_index(y0 * w + x1, w, h));
    assert(is_pixel_index(y1 * w + x0, w, h));
    assert(is_pixel_index(y1 * w + x1, w, h));
    let b = (
        channel(frame, w as int, x0, y0, c),
        channel(frame, w as int, x1, y0, c),
        channel(frame, w as int, x0, y1, c),
        channel(frame, w as int, x1, y1, c),
    );
    lemma_blend(k, val, b, t.fx, t.fy, nth(t.color, c), lo, hi);
}

/// The sum of `n` taps lies between `n` times the bounds.
pub(crate) proof fn lemma_sums_between<S: Scalar>(
    k: &Formulas<S>,
    val: spec_fn(S::T) -> real,
    frame: Seq<u8>,
    w: usize,
    h: usize,
    x: usize,
    y: usize,
    m: Motion<S::T>,
    taps_taken: usize,
    taps: Seq<Tap<S::T>>,
    sums: Seq<(S::T, S::T, S::T)>,
    c: int,
    lo: u8,
    hi: u8,
    n: int,
)
    requires
        is_exact(&k.0, val),
        w > 0,
        h > 0,
        0 <= c < 3,
        is_between(frame, w, h, c, lo, hi),
        is_exposure(k, frame, w, h, x, y, m, taps_taken, taps, sums),
        0 <= n <= taps.len(),
    ensures
        (lo * n) as real <= val(nth(sums[n], c)) <= (hi * n) as real,
    decreases n,
{
    if n == 0 {
        let zero = nth(sums[0], c);
        law_formulas_are_exact(&k.0, val, Expr::Const(0, 1), zero);
        lemma_fraction(0, 1);
    } else {
        lemma_sums_between(
            k,
            val,
            frame,
            w,
            h,
            x,
            y,
            m,
            taps_taken,
            taps,
            sums,
            c,
            lo,
            hi,
            n - 1,
        );
        let t = taps[n - 1];
        lemma_tap_between(k, val, frame, w, h, t, c, lo, hi);
        let (a, b) = (nth(sums[n - 1], c), nth(t.color, c));
        let e = sum(Expr::Given(a), Expr::Given(b));
        assert(e.gives(&k.0, nth(sums[n], c)));
        law_formulas_are_exact(&k.0, val, e, nth(sums[n], c));
        assert(e.exact(val) == val(a) + val(b)) by {
            reveal_with_fuel(Expr::exact, 3);
        }
        assert(lo * n == lo * (n - 1) + lo) by (nonlinear_arith);
        assert(hi * n == hi * (n - 1) + hi) by (nonlinear_arith);
    }
}

proof fn lemma_mean_between<S: Scalar>(
    k: &Formulas<S>,
    val: spec_fn(S::T) -> real,
    total: S::T,
    n: usize,
    lo: u8,
    hi: u8,
    out: u8,
)
    requires
        is_exact(&k.0, val),
        n > 0,
        (lo * n) as real <= val(total) <= (hi * n) as real,
        call_ensures(Formulas::<S>::mean_byte, (k, total, n), out),
    ensures
        lo <= out <= hi,
{
    let e = mean_expr(total, n);
    let mean = choose|mean: S::T|
        e.gives(&k.0, mean) && #[trigger] call_ensures(S::nearest_byte, (&k.0, mean), out);
    law_formulas_are_exact(&k.0, val, e, mean);
    lemma_fraction(1, 1);
    lemma_one(fraction(1, 1));
    lemma_fraction(1, 2);
    let i = (1 as real) / (n as real);
    assert(e.exact(val) == val(total) * i) by {
        reveal_with_fuel(Expr::exact, 4);
    }
    lemma_divided(1 as real, n as real);
    lemma_inverse(i, n as real);
    lemma_weighed((lo * n) as real, val(total), (hi * n) as real, i);
    lemma_undone(lo as int, n as int, i);
    lemma_undone(hi as int, n as int, i);
}

proof fn lemma_inverse(i: real, n: real)
    by (nonlinear_arith)
    requires
        n > (0 as real),
        i * n == (1 as real),
    ensures
        i >= (0 as real),
{
}

proof fn lemma_undone(a: int, n: int, i: real)
    requires
        i * (n as real) == (1 as real),
    ensures
        ((a * n) as real) * i == a as real,
{
    assert((a * n) as real == (a as real) * (n as real)) by (nonlinear_arith);
    lemma_swap(i, n as real);
    lemma_regroup(a as real, n as real, i);
    lemma_one(a as real);
}

/// Every channel of the blurred frame stays between the bounds of that channel
/// in the frame: no colour is made up, and a frame of one colour stays as it is.
pub proof fn law_blur_stays_in_range<S: Scalar>(
    k: &Formulas<S>,
    val: spec_fn(S::T) -> real,
    frame: Seq<u8>,
    w: usize,
    h: usize,
    fwd: FlowField<S::T>,
    bwd: FlowField<S::T>,
    shutter: S::T,
    samples: usize,
    out: Seq<u8>,
    c: int,
    lo: u8,
    hi: u8,
)
    requires
        is_exact(&k.0, val),
        is_motion_blurred(k, frame, w, h, fwd, bwd, shutter, samples, out),
        0 <= c < 3,
        is_between(frame, w, h, c, lo, hi),
    ensures
        is_between(out, w, h, c, lo, hi),
{
    let n = tap_count(samples as int) as usize;
    let span = choose|span: S::T|
        call_ensures(Formulas::<S>::span, (k, shutter), span) && #[trigger] is_blurred_over(
            k,
            frame,
            w,
            h,
            fwd,
            bwd,
            span,
            n,
            out,
        );
    assert forall|i: int| #[trigger] is_pixel_index(i, w, h) implies lo <= out[3 * i + c]
        <= hi by {
        lemma_split_index(i, w as int, h as int);
        let rgb = (out[3 * i], out[3 * i + 1], out[3 * i + 2]);
        assert(is_blurred_pixel(k, frame, w, h, fwd, bwd, span, n, i, rgb));
        let (m, still) = choose|m: Motion<S::T>, still: bool|
            {
                &&& #[trigger] is_exposed_motion(k, fwd, bwd, span, i, m)
                &&& #[trigger] call_ensures(
                    Formulas::<S>::is_still,
                    (k, m.fu, m.fv, m.bu, m.bv),
                    still,
                )
                &&& if still {
                    rgb == (frame[3 * i], frame[3 * i + 1], frame[3 * i + 2])
                } else {
                    is_smeared(
                        k,
                        frame,
                        w,
                        h,
                        (i % w as int) as usize,
                        (i / w as int) as usize,
                        m,
                        n,
                        rgb,
                    )
                }
            };
        if !still {
            let (x, y) = ((i % w as int) as usize, (i / w as int) as usize);
            let (taps, sums) = choose|taps: Seq<Tap<S::T>>, sums: Seq<(S::T, S::T, S::T)>|
                {
                    &&& #[trigger] is_exposure(k, frame, w, h, x, y, m, n, taps, sums)
                    &&& taps.len() == n
                    &&& call_ensures(Formulas::<S>::mean_byte, (k, sums[n as int].0, n), rgb.0)
                    &&& call_ensures(Formulas::<S>::mean_byte, (k, sums[n as int].1, n), rgb.1)
                    &&& call_ensures(Formulas::<S>::mean_byte, (k, sums[n as int].2, n), rgb.2)
                };
            lemma_sums_between(
                k,
                val,
                frame,
                w,
                h,
                x,
                y,
                m,
                n,
                taps,
                sums,
                c,
                lo,
                hi,
                n as int,
            );
            lemma_mean_between(k, val, nth(sums[n as int], c), n, lo, hi, nth(rgb, c));
        }
        assert(nth(rgb, c) == out[3 * i + c]);
    }
}

/// Fewer than two samples act as two.
pub proof fn law_few_samples_act_as_two<K: Numerics>(
    k: &K,
    frame: Seq<u8>,
    w: usize,
    h: usize,
    fwd: FlowField<K::T>,
    bwd: FlowField<K::T>,
    shutter: K::T,
    samples: usize,
    out: Seq<u8>,
)
    requires
        samples < 2,
    ensures
        is_motion_blurred(k, frame, w, h, fwd, bwd, shutter, samples, out) <==> is_motion_blurred(
            k,
            frame,
            w,
            h,
            fwd,
            bwd,
            shutter,
            2,
            out,
        ),
{
    assert(tap_count(samples as int) == tap_count(2));
}

/// The angle that a shutter angle acts as.
pub open spec fn nearest_angle(a: real) -> real {
    if a < (0 as real) {
        0 as real
    } else if a > (360 as real) {
        360 as real
    } else {
        a
    }
}

proof fn lemma_span_of_clamped<S: Scalar>(s: &S, shutter: S::T, nearest: S::T, p: S::T)
    requires
        operations_agree(s),
        angle_expr(shutter).gives(s, nearest),
        span_expr(shutter).gives(s, p),
    ensures
        product(quotient(Expr::Given(nearest), Expr::Const(360, 1)), Expr::Const(1, 2)).gives(
            s,
            p,
        ),
{
    let part = quotient(angle_expr(shutter), Expr::Const(360, 1));
    let (x, y) = choose|x: S::T, y: S::T|
        part.gives(s, x) && Expr::Const(1, 2).gives(s, y) && #[trigger] call_ensures(
            S::times,
            (s, x, y),
            p,
        );
    let (a, b) = choose|a: S::T, b: S::T|
        angle_expr(shutter).gives(s, a) && Expr::Const(360, 1).gives(s, b)
            && #[trigger] call_ensures(S::over, (s, a, b), x);
    law_formulas_have_one_value(s, angle_expr(shutter), a, nearest);
    assert(quotient(Expr::Given(nearest), Expr::Const(360, 1)).gives(s, x)) by {
        assert(Expr::Given(nearest).gives(s, a));
        assert(call_ensures(S::over, (s, a, b), x));
    }
}

/// Settings out of range act as the nearest ones: the blur for any angle and
/// sample count is the blur for that angle kept between 0 and 360 degrees and at
/// least two samples. All that it takes is that every operation has one outcome
/// and that an angle kept between its bounds stays as it is.
pub proof fn law_settings_act_as_the_clamped<S: Scalar>(
    k: &Formulas<S>,
    frame: Seq<u8>,
    w: usize,
    h: usize,
    fwd: FlowField<S::T>,
    bwd: FlowField<S::T>,
    shutter: S::T,
    nearest: S::T,
    samples: usize,
    out: Seq<u8>,
    other: Seq<u8>,
)
    requires
        operations_agree(&k.0),
        angle_expr(shutter).gives(&k.0, nearest),
        angle_expr(nearest).gives(&k.0, nearest),
        is_motion_blurred(k, frame, w, h, fwd, bwd, shutter, samples, out),
        is_motion_blurred(
            k,
            frame,
            w,
            h,
            fwd,
            bwd,
            nearest,
            tap_count(samples as int) as usize,
            other,
        ),
    ensures
        out == other,
{
    let n = tap_count(samples as int) as usize;
    assert(tap_count(n as int) as usize == n);
    let p = choose|span: S::T|
        call_ensures(Formulas::<S>::span, (k, shutter), span) && #[trigger] is_blurred_over(
            k,
            frame,
            w,
            h,
            fwd,
            bwd,
            span,
            n,
            out,
        );
    let q = choose|span: S::T|
        call_ensures(Formulas::<S>::span, (k, nearest), span) && #[trigger] is_blurred_over(
            k,
            frame,
            w,
            h,
            fwd,
            bwd,
            span,
            n,
            other,
        );
    lemma_span_of_clamped(&k.0, shutter, nearest, p);
    lemma_span_of_clamped(&k.0, nearest, nearest, q);
    let e = product(quotient(Expr::Given(nearest), Expr::Const(360, 1)), Expr::Const(1, 2));
    law_formulas_have_one_value(&k.0, e, p, q);
    law_formulas_are_deterministic(k);
    lemma_blurred(k, frame, w, h, fwd, bwd, p, n, out, other);
}

/// Settings out of range act as the nearest ones: where arithmetic is exact,
/// the blur for any angle and sample count is the blur for the nearest angle
/// between 0 and 360 degrees and at least two samples.
pub proof fn law_settings_act_as_the_nearest<S: Scalar>(
    k: &Formulas<S>,
    val: spec_fn(S::T) -> real,
    frame: Seq<u8>,
    w: usize,
    h: usize,
    fwd: FlowField<S::T>,
    bwd: FlowField<S::T>,
    shutter: S::T,
    nearest: S::T,
    samples: usize,
    out: Seq<u8>,
    other: Seq<u8>,
)
    requires
        is_exact(&k.0, val),
        forall|a: S::T, b: S::T| #[trigger] val(a) == #[trigger] val(b) ==> a == b,
        is_deterministic(k),
        val(nearest) == nearest_angle(val(shutter)),
        is_motion_blurred(k, frame, w, h, fwd, bwd, shutter, samples, out),
        is_motion_blurred(
            k,
            frame,
            w,
            h,
            fwd,
            bwd,
            nearest,
            tap_count(samples as int) as usize,
            other,
        ),
    ensures
        out == other,
{
    let n = tap_count(samples as int) as usize;
    assert(tap_count(n as int) as usize == n);
    let p = choose|span: S::T|
        call_ensures(Formulas::<S>::span, (k, shutter), span) && #[trigger] is_blurred_over(
            k,
            frame,
            w,
            h,
            fwd,
            bwd,
            span,
            n,
            out,
        );
    let q = choose|span: S::T|
        call_ensures(Formulas::<S>::span, (k, nearest), span) && #[trigger] is_blurred_over(
            k,
            frame,
            w,
            h,
            fwd,
            bwd,
            span,
            n,
            other,
        );
    law_formulas_are_exact(&k.0, val, span_expr(shutter), p);
    law_formulas_are_exact(&k.0, val, span_expr(nearest), q);
    law_shutter_spans_the_interval(val, shutter);
    law_shutter_spans_the_interval(val, nearest);
    lemma_cancel(val(p), val(q), 720 as real);
    lemma_blurred(k, frame, w, h, fwd, bwd, p, n, out, other);
}

/// Three entries in another order: entry `c` is the old entry `p[c]`.
pub open spec fn reordered<T>(t: (T, T, T), p: (int, int, int)) -> (T, T, T) {
    (nth(t, p.0), nth(t, p.1), nth(t, p.2))
}

/// A frame with the channels of every pixel in another order.
pub open spec fn rechannelled(frame: Seq<u8>, p: (int, int, int)) -> Seq<u8> {
    Seq::new(frame.len(), |j: int| frame[3 * (j / 3) + nth(p, j % 3)])
}

/// A choice of a channel for each of three.
pub open spec fn is_order(p: (int, int, int)) -> bool {
    0 <= p.0 < 3 && 0 <= p.1 < 3 && 0 <= p.2 < 3
}

/// A tap with the channels of its colour in another order.
pub open spec fn recoloured<T>(t: Tap<T>, p: (int, int, int)) -> Tap<T> {
    Tap { color: reordered(t.color, p), ..t }
}

proof fn lemma_rechannelled(frame: Seq<u8>, p: (int, int, int), i: int, c: int)
    requires
        is_order(p),
        0 <= i,
        3 * i + 2 < frame.len(),
        0 <= c < 3,
    ensures
        rechannelled(frame, p)[3 * i + c] == frame[3 * i + nth(p, c)],
{
    assert((3 * i + c) / 3 == i);
    assert((3 * i + c) % 3 == c);
}

proof fn lemma_blend_rechannelled<K: Numerics>(
    k: &K,
    frame: Seq<u8>,
    w: int,
    h: int,
    cx: int,
    cy: int,
    fx: K::T,
    fy: K::T,
    p: (int, int, int),
    c: int,
    out: K::T,
)
    requires
        is_order(p),
        0 <= c < 3,
        0 <= cx,
        0 <= cy,
        w > 0,
        h > 0,
        frame.len() == 3 * (w * h),
        is_blend(k, frame, w, h, cx, cy, fx, fy, nth(p, c), out),
    ensures
        is_blend(k, rechannelled(frame, p), w, h, cx, cy, fx, fy, c, out),
{
    let (x0, y0) = (lesser(cx, w - 1), lesser(cy, h - 1));
    let (x1, y1) = (lesser(cx + 1, w - 1), lesser(cy + 1, h - 1));
    lemma_join_index(x0, y0, w, h);
    lemma_join_index(x1, y0, w, h);
    lemma_join_index(x0, y1, w, h);
    lemma_join_index(x1, y1, w, h);
    lemma_rechannelled(frame, p, y0 * w + x0, c);
    lemma_rechannelled(frame, p, y0 * w + x1, c);
    lemma_rechannelled(frame, p, y1 * w + x0, c);
    lemma_rechannelled(frame, p, y1 * w + x1, c);
}

proof fn lemma_exposure_rechannelled<K: Numerics>(
    k: &K,
    frame: Seq<u8>,
    w: usize,
    h: usize,
    x: usize,
    y: usize,
    m: Motion<K::T>,
    n: usize,
    taps: Seq<Tap<K::T>>,
    sums: Seq<(K::T, K::T, K::T)>,
    p: (int, int, int),
)
    requires
        is_order(p),
        w > 0,
        h > 0,
        frame.len() == 3 * (w * h),
        is_exposure(k, frame, w, h, x, y, m, n, taps, sums),
    ensures
        is_exposure(
            k,
            rechannelled(frame, p),
            w,
            h,
            x,
            y,
            m,
            n,
            Seq::new(taps.len(), |s: int| recoloured(taps[s], p)),
            Seq::new(sums.len(), |s: int| reordered(sums[s], p)),
        ),
{
    let other = rechannelled(frame, p);
    let ts = Seq::new(taps.len(), |s: int| recoloured(taps[s], p));
    let us = Seq::new(sums.len(), |s: int| reordered(sums[s], p));
    assert forall|s: int|
        #![trigger ts[s]]
        0 <= s < ts.len() implies {
        &&& is_tap(k, other, w, h, x, y, m, n, s as usize, ts[s])
        &&& call_ensures(K::plus, (k, us[s].0, ts[s].color.0), us[s + 1].0)
        &&& call_ensures(K::plus, (k, us[s].1, ts[s].color.1), us[s + 1].1)
        &&& call_ensures(K::plus, (k, us[s].2, ts[s].color.2), us[s + 1].2)
    } by {
        let t = taps[s];
        assert(is_tap(k, frame, w, h, x, y, m, n, s as usize, t));
        let (cx, cy) = (t.cx as int, t.cy as int);
        let color = ts[s].color;
        lemma_blend_rechannelled(
            k,
            frame,
            w as int,
            h as int,
            cx,
            cy,
            t.fx,
            t.fy,
            p,
            0,
            color.0,
        );
        lemma_blend_rechannelled(
            k,
            frame,
            w as int,
            h as int,
            cx,
            cy,
            t.fx,
            t.fy,
            p,
            1,
            color.1,
        );
        lemma_blend_rechannelled(
            k,
            frame,
            w as int,
            h as int,
            cx,
            cy,
            t.fx,
            t.fy,
            p,
            2,
            color.2,
        );
    }
}

/// The channels are blurred alike and independently of one another: a frame
/// with its channels in another order comes out with its channels in that
/// order.
pub proof fn law_channels_are_blurred_alike<K: Numerics>(
    k: &K,
    frame: Seq<u8>,
    w: usize,
    h: usize,
    fwd: FlowField<K::T>,
    bwd: FlowField<K::T>,
    shutter: K::T,
    samples: usize,
    out: Seq<u8>,
    p: (int, int, int),
)
    requires
        is_order(p),
        frame.len() == 3 * (w * h),
        is_motion_blurred(k, frame, w, h, fwd, bwd, shutter, samples, out),
    ensures
        is_motion_blurred(
            k,
            rechannelled(frame, p),
            w,
            h,
            fwd,
            bwd,
            shutter,
            samples,
            rechannelled(out, p),
        ),
        is_deterministic(k) ==> forall|other: Seq<u8>| #[trigger]
            is_motion_blurred(
                k,
                rechannelled(frame, p),
                w,
                h,
                fwd,
                bwd,
                shutter,
                samples,
                other,
            ) ==> other == rechannelled(out, p),
{
    let n = tap_count(samples as int) as usize;
    let (f, o) = (rechannelled(frame, p), rechannelled(out, p));
    let span = choose|span: K::T|
        call_ensures(K::span, (k, shutter), span) && #[trigger] is_blurred_over(
            k,
            frame,
            w,
            h,
            fwd,
            bwd,
            span,
            n,
            out,
        );
    assert forall|i: int| #[trigger] is_pixel_index(i, w, h) implies is_blurred_pixel(
        k,
        f,
        w,
        h,
        fwd,
        bwd,
        span,
        n,
        i,
        (o[3 * i], o[3 * i + 1], o[3 * i + 2]),
    ) by {
        let rgb = (out[3 * i], out[3 * i + 1], out[3 * i + 2]);
        lemma_rechannelled(out, p, i, 0);
        lemma_rechannelled(out, p, i, 1);
        lemma_rechannelled(out, p, i, 2);
        lemma_rechannelled(frame, p, i, 0);
        lemma_rechannelled(frame, p, i, 1);
        lemma_rechannelled(frame, p, i, 2);
        assert(o[3 * i] == nth(rgb, p.0));
        lemma_pixel_rechannelled(k, frame, w, h, fwd, bwd, span, n, i, rgb, p);
    }
    assert(is_blurred_over(k, f, w, h, fwd, bwd, span, n, o));
    if is_deterministic(k) {
        assert forall|other: Seq<u8>| #[trigger]
            is_motion_blurred(k, f, w, h, fwd, bwd, shutter, samples, other) implies other == o by {
            law_blur_is_deterministic(k, f, w, h, fwd, bwd, shutter, samples, other, o);
        }
    }
}

proof fn lemma_pixel_rechannelled<K: Numerics>(
    k: &K,
    frame: Seq<u8>,
    w: usize,
    h: usize,
    fwd: FlowField<K::T>,
    bwd: FlowField<K::T>,
    span: K::T,
    n: usize,
    i: int,
    rgb: (u8, u8, u8),
    p: (int, int, int),
)
    requires
        is_order(p),
        frame.len() == 3 * (w * h),
        0 <= i < w * h,
        is_blurred_pixel(k, frame, w, h, fwd, bwd, span, n, i, rgb),
    ensures
        is_blurred_pixel(
            k,
            rechannelled(frame, p),
            w,
            h,
            fwd,
            bwd,
            span,
            n,
            i,
            reordered(rgb, p),
        ),
{
    let f = rechannelled(frame, p);
    let (x, y) = ((i % w as int) as usize, (i / w as int) as usize);
    lemma_split_index(i, w as int, h as int);
    lemma_rechannelled(frame, p, i, 0);
    lemma_rechannelled(frame, p, i, 1);
    lemma_rechannelled(frame, p, i, 2);
    let (m, still) = choose|m: Motion<K::T>, still: bool|
        {
            &&& #[trigger] is_exposed_motion(k, fwd, bwd, span, i, m)
            &&& #[trigger] call_ensures(K::is_still, (k, m.fu, m.fv, m.bu, m.bv), still)
            &&& if still {
                rgb == (frame[3 * i], frame[3 * i + 1], frame[3 * i + 2])
            } else {
                is_smeared(k, frame, w, h, x, y, m, n, rgb)
            }
        };
    if !still {
        let (taps, sums) = choose|taps: Seq<Tap<K::T>>, sums: Seq<(K::T, K::T, K::T)>|
            {
                &&& #[trigger] is_exposure(k, frame, w, h, x, y, m, n, taps, sums)
                &&& taps.len() == n
                &&& call_ensures(K::mean_byte, (k, sums[n as int].0, n), rgb.0)
                &&& call_ensures(K::mean_byte, (k, sums[n as int].1, n), rgb.1)
                &&& call_ensures(K::mean_byte, (k, sums[n as int].2, n), rgb.2)
            };
        lemma_exposure_rechannelled(k, frame, w, h, x, y, m, n, taps, sums, p);
        assert(is_smeared(k, f, w, h, x, y, m, n, reordered(rgb, p)));
    }
}

} // verus!
