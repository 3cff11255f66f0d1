//! What the blur amounts to where arithmetic is exact, told over pictures: the
//! mean of the frame along the motion of each pixel.
use crate::blur::{
    channel, is_blend, is_blurred_over, is_blurred_pixel, is_exposed_motion, is_exposure,
    is_motion_blurred, is_pixel_index, is_rgb_sample, is_smeared, is_tap, motion_blur, tap_count,
    Motion, Tap,
};
use crate::exact::{
    is_exact, law_formulas_are_exact, law_shutter_spans_the_interval, lemma_cancel,
    lemma_distribute, lemma_divided, lemma_fraction, lemma_one, lemma_regroup, lemma_swap,
    lemma_tap,
};
use crate::exposure::{lemma_sums_between, nth};
use crate::formulas::{
    blend_expr, is_less, mean_expr, product, span_expr, sum, tap_expr, travel_expr, Expr,
    Formulas, Scalar,
};
use crate::grid::lemma_join_index;
use crate::image::FlowField;
use crate::model::{
    are_taps, channel_of, edge, exposed, followed, is_blur, is_cell_of, is_exposed, is_mean_along,
    is_value_at, mix, on_grid, reach, sum_of,
};
use crate::moving::lemma_sum_same;
use crate::numerics::Numerics;
use crate::reading::picture;
use crate::sampling::lemma_cell;
use vstd::prelude::*;

verus! {

/// The share of tap `i` of `n`.
proof fn lemma_reach<T>(val: spec_fn(T) -> real, i: usize, n: usize)
    requires
        i < n,
    ensures
        tap_expr::<T>(i, n).exact(val) == reach(i as int, n as int),
{
    let k = lemma_tap(val, i, n);
    let m = n as real;
    let d = (2 * i + 1 - n) as real;
    let t = k * (2 as real) - (1 as real);
    lemma_swap(k * m, 2 as real);
    lemma_swap(k, m);
    lemma_distribute(m, k * (2 as real), 1 as real);
    lemma_regroup(m, k, 2 as real);
    lemma_one(m);
    lemma_swap(m, t);
    assert(t * m == d);
    if 2 * i + 1 < n {
        lemma_divided((n - 1 - 2 * i) as real, m);
        lemma_swap(m, -t);
        lemma_distribute(m, 0 as real, t);
        assert((-t) * m == (n - 1 - 2 * i) as real) by {
            lemma_one(m);
            assert(m * ((0 as real) - t) == m * (0 as real) - m * t);
        }
        lemma_cancel(-t, ((n - 1 - 2 * i) as real) / m, m);
        lemma_sign(t, m);
    } else {
        lemma_divided(d, m);
        lemma_cancel(t, d / m, m);
        lemma_sign(t, m);
    }
}

proof fn lemma_sign(t: real, m: real)
    by (nonlinear_arith)
    requires
        m > (0 as real),
    ensures
        t * m < (0 as real) <==> t < (0 as real),
{
}

/// Four bytes weighed one by one are mixed along the rows, then across them.
proof fn lemma_weights(b00: real, b10: real, b01: real, b11: real, x: real, y: real)
    ensures
        b00 * (((1 as real) - x) * ((1 as real) - y)) + b10 * (x * ((1 as real) - y)) + b01 * (((
        1 as real) - x) * y) + b11 * (x * y) == mix(mix(b00, b10, x), mix(b01, b11, x), y),
{
    let (p, q) = ((1 as real) - x, (1 as real) - y);
    lemma_regroup(b00, p, q);
    lemma_regroup(b10, x, q);
    lemma_regroup(b01, p, y);
    lemma_regroup(b11, x, y);
    let (a, b) = (mix(b00, b10, x), mix(b01, b11, x));
    lemma_swap(q, b00 * p);
    lemma_swap(q, b10 * x);
    lemma_swap(q, a);
    lemma_distribute(q, b00 * p, b10 * x);
    lemma_swap(y, b01 * p);
    lemma_swap(y, b11 * x);
    lemma_swap(y, b);
    lemma_distribute(y, b01 * p, b11 * x);
}

/// A tap is the value of the frame at its position.
proof fn lemma_tap_value<S: Scalar>(
    k: &Formulas<S>,
    val: spec_fn(S::T) -> real,
    frame: Seq<u8>,
    w: usize,
    h: usize,
    t: Tap<S::T>,
    c: int,
)
    requires
        is_exact(&k.0, val),
        w > 0,
        h > 0,
        0 <= c < 3,
        is_rgb_sample(k, frame, w, h, t),
    ensures
        is_value_at(
            channel_of(frame, w as int, c),
            w as int,
            h as int,
            val(t.px),
            val(t.py),
            val(nth(t.color, c)),
        ),
{
    lemma_cell(&k.0, val, t.px, w, t.cx, t.fx);
    lemma_cell(&k.0, val, t.py, h, t.cy, t.fy);
    let (i, j) = (t.cx as int, t.cy as int);
    let (x1, y1) = (edge(i + 1, w as int), edge(j + 1, h as int));
    let (b00, b10) = (channel(frame, w as int, i, j, c), channel(frame, w as int, x1, j, c));
    let (b01, b11) = (channel(frame, w as int, i, y1, c), channel(frame, w as int, x1, y1, c));
    let out = nth(t.color, c);
    assert(is_blend(k, frame, w as int, h as int, i, j, t.fx, t.fy, c, out));
    let e = blend_expr(b00, b10, b01, b11, t.fx, t.fy);
    assert(e.gives(&k.0, out));
    law_formulas_are_exact(&k.0, val, e, out);
    lemma_fraction(1, 1);
    let (x, y) = (val(t.fx), val(t.fy));
    let one = 1 as real;
    assert(e.exact(val) == (b00 as real) * ((one - x) * (one - y)) + (b10 as real) * (x * (one
        - y)) + (b01 as real) * ((one - x) * y) + (b11 as real) * (x * y)) by {
        reveal_with_fuel(Expr::exact, 8);
    }
    lemma_weights(b00 as real, b10 as real, b01 as real, b11 as real, x, y);
    assert(is_cell_of(i, val(t.px), w as int));
    assert(is_cell_of(j, val(t.py), h as int));
}

/// The sums of the taps.
proof fn lemma_tap_sums<S: Scalar>(
    k: &Formulas<S>,
    val: spec_fn(S::T) -> real,
    frame: Seq<u8>,
    w: usize,
    h: usize,
    x: usize,
    y: usize,
    m: Motion<S::T>,
    n: usize,
    taps: Seq<Tap<S::T>>,
    sums: Seq<(S::T, S::T, S::T)>,
    c: int,
    i: int,
)
    requires
        is_exact(&k.0, val),
        0 <= c < 3,
        is_exposure(k, frame, w, h, x, y, m, n, taps, sums),
        0 <= i <= taps.len(),
    ensures
        val(nth(sums[i], c)) == sum_of(|s: int| val(nth(taps[s].color, c)), 0, i),
    decreases i,
{
    if i == 0 {
        law_formulas_are_exact(&k.0, val, Expr::Const(0, 1), nth(sums[0], c));
        lemma_fraction(0, 1);
    } else {
        lemma_tap_sums(k, val, frame, w, h, x, y, m, n, taps, sums, c, i - 1);
        let t = taps[i - 1];
        let (a, b) = (nth(sums[i - 1], c), nth(t.color, c));
        let e = sum(Expr::Given(a), Expr::Given(b));
        assert(e.gives(&k.0, nth(sums[i], c)));
        law_formulas_are_exact(&k.0, val, e, nth(sums[i], c));
        assert(e.exact(val) == val(a) + val(b)) by {
            reveal_with_fuel(Expr::exact, 3);
        }
    }
}

proof fn lemma_offset<S: Scalar>(
    k: &Formulas<S>,
    val: spec_fn(S::T) -> real,
    x: usize,
    s: usize,
    n: usize,
    d: S::T,
    o: S::T,
    p: S::T,
)
    requires
        is_exact(&k.0, val),
        s < n,
        call_ensures(Formulas::<S>::tap_offset, (k, s, n, d), o),
        call_ensures(Formulas::<S>::shifted, (k, x, o), p),
    ensures
        val(p) == (x as real) + reach(s as int, n as int) * val(d),
{
    let e = product(tap_expr(s, n), Expr::Given(d));
    law_formulas_are_exact(&k.0, val, e, o);
    law_formulas_are_exact(&k.0, val, sum(Expr::Index(x), Expr::Given(o)), p);
    lemma_reach(val, s, n);
    assert(e.exact(val) == tap_expr::<S::T>(s, n).exact(val) * val(d)) by {
        reveal_with_fuel(Expr::exact, 2);
    }
    assert(val(p) == (x as real) + val(o)) by {
        reveal_with_fuel(Expr::exact, 3);
    }
}

/// Enough to be the nearest byte: the mean lies between the least and the
/// greatest byte there is.
proof fn lemma_mean<S: Scalar>(
    k: &Formulas<S>,
    val: spec_fn(S::T) -> real,
    total: S::T,
    n: usize,
    out: u8,
)
    requires
        is_exact(&k.0, val),
        n > 0,
        (0 as real) <= val(total) <= ((255 * n) as real),
        call_ensures(Formulas::<S>::mean_byte, (k, total, n), out),
    ensures
        -(n as real) <= (2 as real) * ((n * out) as real - val(total)) <= (n as real),
{
    let e = mean_expr(total, n);
    let mean = choose|mean: S::T|
        e.gives(&k.0, mean) && #[trigger] call_ensures(S::nearest_byte, (&k.0, mean), out);
    law_formulas_are_exact(&k.0, val, e, mean);
    lemma_fraction(1, 1);
    lemma_fraction(1, 2);
    let m = n as real;
    let i = (1 as real) / m;
    assert(e.exact(val) == val(total) * i) by {
        reveal_with_fuel(Expr::exact, 4);
    }
    lemma_divided(1 as real, m);
    lemma_regroup(val(total), i, m);
    lemma_one(val(total));
    assert(val(mean) * m == val(total));
    lemma_quotient(val(mean), m, 255 as real);
    lemma_gap(val(mean), m, out as real);
    assert((n * out) as real == m * (out as real)) by (nonlinear_arith)
        requires
            m == (n as real),
    ;
    lemma_swap(m, out as real);
}

proof fn lemma_quotient(q: real, m: real, top: real)
    by (nonlinear_arith)
    requires
        m > (0 as real),
        (0 as real) <= q * m <= top * m,
    ensures
        (0 as real) <= q <= top,
{
}

proof fn lemma_gap(q: real, m: real, b: real)
    by (nonlinear_arith)
    requires
        m > (0 as real),
        q - (1 as real) / (2 as real) <= b <= q + (1 as real) / (2 as real),
    ensures
        -m <= (2 as real) * (b * m - q * m) <= m,
{
}

proof fn lemma_smeared<S: Scalar>(
    k: &Formulas<S>,
    val: spec_fn(S::T) -> real,
    frame: Seq<u8>,
    w: usize,
    h: usize,
    x: usize,
    y: usize,
    m: Motion<S::T>,
    n: usize,
    rgb: (u8, u8, u8),
    c: int,
)
    requires
        is_exact(&k.0, val),
        w > 0,
        h > 0,
        n > 0,
        0 <= c < 3,
        is_smeared(k, frame, w, h, x, y, m, n, rgb),
    ensures
        is_mean_along(
            channel_of(frame, w as int, c),
            w as int,
            h as int,
            x as int,
            y as int,
            val(m.fu),
            val(m.fv),
            val(m.bu),
            val(m.bv),
            n as int,
            nth(rgb, c) as int,
        ),
{
    let (taps, sums) = choose|taps: Seq<Tap<S::T>>, sums: Seq<(S::T, S::T, S::T)>|
        {
            &&& #[trigger] is_exposure(k, frame, w, h, x, y, m, n, taps, sums)
            &&& taps.len() == n
            &&& call_ensures(Formulas::<S>::mean_byte, (k, sums[n as int].0, n), rgb.0)
            &&& call_ensures(Formulas::<S>::mean_byte, (k, sums[n as int].1, n), rgb.1)
            &&& call_ensures(Formulas::<S>::mean_byte, (k, sums[n as int].2, n), rgb.2)
        };
    let a = channel_of(frame, w as int, c);
    let t = Seq::new(n as nat, |s: int| val(nth(taps[s].color, c)));
    assert forall|s: int| 0 <= s < n implies is_value_at(
        a,
        w as int,
        h as int,
        (x as real) + reach(s, n as int) * followed(s, n as int, val(m.bu), val(m.fu)),
        (y as real) + reach(s, n as int) * followed(s, n as int, val(m.bv), val(m.fv)),
        #[trigger] t[s],
    ) by {
        let tap = taps[s];
        assert(is_tap(k, frame, w, h, x, y, m, n, s as usize, tap));
        let (du, dv) = if 2 * s + 1 < n {
            (m.bu, m.bv)
        } else {
            (m.fu, m.fv)
        };
        lemma_offset(k, val, x, s as usize, n, du, tap.ox, tap.px);
        lemma_offset(k, val, y, s as usize, n, dv, tap.oy, tap.py);
        lemma_tap_value(k, val, frame, w, h, tap, c);
    }
    lemma_tap_sums(k, val, frame, w, h, x, y, m, n, taps, sums, c, n as int);
    let total = nth(sums[n as int], c);
    lemma_sum_same(|s: int| val(nth(taps[s].color, c)), |s: int| t[s], 0, n as int);
    lemma_sums_between(k, val, frame, w, h, x, y, m, n, taps, sums, c, 0, 255, n as int);
    lemma_mean(k, val, total, n, nth(rgb, c));
    assert(are_taps(
        a,
        w as int,
        h as int,
        x as int,
        y as int,
        val(m.fu),
        val(m.fv),
        val(m.bu),
        val(m.bv),
        n as int,
        t,
    ));
}

proof fn lemma_exposed<S: Scalar>(
    k: &Formulas<S>,
    val: spec_fn(S::T) -> real,
    shutter: S::T,
    span: S::T,
)
    requires
        is_exact(&k.0, val),
        call_ensures(Formulas::<S>::span, (k, shutter), span),
    ensures
        val(span) == exposed(val(shutter)),
{
    law_formulas_are_exact(&k.0, val, span_expr(shutter), span);
    law_shutter_spans_the_interval(val, shutter);
}

proof fn lemma_scaled<S: Scalar>(
    k: &Formulas<S>,
    val: spec_fn(S::T) -> real,
    a: S::T,
    b: S::T,
    out: S::T,
)
    requires
        is_exact(&k.0, val),
        call_ensures(Formulas::<S>::times, (k, a, b), out),
    ensures
        val(out) == val(a) * val(b),
{
    law_formulas_are_exact(&k.0, val, product(Expr::Given(a), Expr::Given(b)), out);
    reveal_with_fuel(Expr::exact, 3);
}

proof fn lemma_travel<S: Scalar>(
    k: &Formulas<S>,
    val: spec_fn(S::T) -> real,
    m: Motion<S::T>,
    still: bool,
)
    requires
        is_exact(&k.0, val),
        call_ensures(Formulas::<S>::is_still, (k, m.fu, m.fv, m.bu, m.bv), still),
    ensures
        still == (val(m.fu) * val(m.fu) + val(m.fv) * val(m.fv) + val(m.bu) * val(m.bu) + val(m.bv)
            * val(m.bv) < (1 as real) / (10000 as real)),
{
    let s = &k.0;
    let (e, t) = (travel_expr(m.fu, m.fv, m.bu, m.bv), Expr::Const(1, 10_000));
    assert(is_less(s, e, t, still));
    let (p, q) = choose|p: S::T, q: S::T|
        e.gives(s, p) && t.gives(s, q) && #[trigger] call_ensures(S::less, (s, p, q), still);
    law_formulas_are_exact(s, val, e, p);
    law_formulas_are_exact(s, val, t, q);
    lemma_fraction(1, 10_000);
    reveal_with_fuel(Expr::exact, 6);
}

/// The blur of a frame over motion fields.
pub(crate) proof fn lemma_blur<S: Scalar>(
    k: &Formulas<S>,
    val: spec_fn(S::T) -> real,
    frame: Seq<u8>,
    w: usize,
    h: usize,
    fwd: FlowField<S::T>,
    bwd: FlowField<S::T>,
    shutter: S::T,
    samples: usize,
    out: Seq<u8>,
)
    requires
        is_exact(&k.0, val),
        is_motion_blurred(k, frame, w, h, fwd, bwd, shutter, samples, out),
    ensures
        out.len() == 3 * (w * h),
        is_blur(
            frame,
            w as int,
            h as int,
            picture(val, fwd.u@, w as int),
            picture(val, fwd.v@, w as int),
            picture(val, bwd.u@, w as int),
            picture(val, bwd.v@, w as int),
            val(shutter),
            samples as int,
            out,
        ),
{
    let n = tap_count(samples as int) as usize;
    let span = choose|span: S::T|
        call_ensures(Formulas::<S>::span, (k, shutter), span) && #[trigger] is_blurred_over(
            k,
            frame,
            w,
            h,
            fwd,
            bwd,
            span,
            n,
            out,
        );
    lemma_exposed(k, val, shutter, span);
    let (fu, fv) = (picture(val, fwd.u@, w as int), picture(val, fwd.v@, w as int));
    let (bu, bv) = (picture(val, bwd.u@, w as int), picture(val, bwd.v@, w as int));
    let e = exposed(val(shutter));
    assert forall|x: int, y: int, c: int|
        #![trigger out[3 * (y * w + x) + c]]
        on_grid(x, y, w as int, h as int) && 0 <= c < 3 implies is_exposed(
        channel_of(frame, w as int, c),
        w as int,
        h as int,
        x,
        y,
        fu(x, y) * e,
        fv(x, y) * e,
        bu(x, y) * e,
        bv(x, y) * e,
        n as int,
        out[3 * (y * w + x) + c] as int,
    ) by {
        let i = y * w + x;
        lemma_join_index(x, y, w as int, h as int);
        assert(is_pixel_index(i, w, h));
        let rgb = (out[3 * i], out[3 * i + 1], out[3 * i + 2]);
        assert(is_blurred_pixel(k, frame, w, h, fwd, bwd, span, n, i, rgb));
        let (m, still) = choose|m: Motion<S::T>, still: bool|
            {
                &&& #[trigger] is_exposed_motion(k, fwd, bwd, span, i, m)
                &&& #[trigger] call_ensures(
                    Formulas::<S>::is_still,
                    (k, m.fu, m.fv, m.bu, m.bv),
                    still,
                )
                &&& if still {
                    rgb == (frame[3 * i], frame[3 * i + 1], frame[3 * i + 2])
                } else {
                    is_smeared(
                        k,
                        frame,
                        w,
                        h,
                        (i % w as int) as usize,
                        (i / w as int) as usize,
                        m,
                        n,
                        rgb,
                    )
                }
            };
        lemma_scaled(k, val, fwd.u@[i], span, m.fu);
        lemma_scaled(k, val, fwd.v@[i], span, m.fv);
        lemma_scaled(k, val, bwd.u@[i], span, m.bu);
        lemma_scaled(k, val, bwd.v@[i], span, m.bv);
        lemma_travel(k, val, m, still);
        assert(nth(rgb, c) == out[3 * i + c]);
        if !still {
            lemma_smeared(k, val, frame, w, h, x as usize, y as usize, m, n, rgb, c);
        }
    }
}

proof fn blur_contract<K: Numerics>(
    k: &K,
    frame: &[u8],
    w: usize,
    h: usize,
    fwd: &FlowField<K::T>,
    bwd: &FlowField<K::T>,
    shutter: K::T,
    samples: usize,
    out: Vec<u8>,
)
    requires
        call_ensures(motion_blur::<K>, (k, frame, w, h, fwd, bwd, shutter, samples), out),
    ensures
        is_motion_blurred(k, frame@, w, h, *fwd, *bwd, shutter, samples, out@),
{
}

/// A pixel that hardly moves keeps its colour; any other takes on the mean of the
/// frame along its motion, tap by tap, each tap by the same share of both
/// components, backward in the first half of the exposure and forward in the
/// second.
pub proof fn law_blur_is_the_mean_along_the_motion<S: Scalar>(
    k: &Formulas<S>,
    val: spec_fn(S::T) -> real,
    frame: &[u8],
    w: usize,
    h: usize,
    fwd: &FlowField<S::T>,
    bwd: &FlowField<S::T>,
    shutter: S::T,
    samples: usize,
    out: Vec<u8>,
)
    requires
        is_exact(&k.0, val),
        call_ensures(
            motion_blur::<Formulas<S>>,
            (k, frame, w, h, fwd, bwd, shutter, samples),
            out,
        ),
    ensures
        out@.len() == 3 * (w * h),
        is_blur(
            frame@,
            w as int,
            h as int,
            picture(val, fwd.u@, w as int),
            picture(val, fwd.v@, w as int),
            picture(val, bwd.u@, w as int),
            picture(val, bwd.v@, w as int),
            val(shutter),
            samples as int,
            out@,
        ),
{
    blur_contract(k, frame, w, h, fwd, bwd, shutter, samples, out);
    lemma_blur(k, val, frame@, w, h, *fwd, *bwd, shutter, samples, out@);
}

} // verus!
