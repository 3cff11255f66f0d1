//! Motion-blur synthesis: the current frame is sampled along each pixel's
//! motion and the samples are averaged, mimicking a camera shutter that stays
//! open for a fraction of the frame interval.
//!
//! The exposure is centred on the current frame:
//!   * backward flow (current -> previous) covers the first half of the
//!     shutter interval,
//!   * forward flow (current -> next) covers the second half.
use crate::grid::{ahead, lemma_join_index, lemma_split_index, lesser};
use crate::image::FlowField;
use crate::numerics::Numerics;
use crate::parallel::par_map;
use vstd::prelude::*;

verus! {

/// At least two taps are taken along every trajectory.
pub open spec fn tap_count(samples: int) -> int {
    if samples >= 2 {
        samples
    } else {
        2
    }
}

/// Tap `s` of `n` lies before the middle of the exposure, so it follows the
/// backward flow.
pub open spec fn is_early(s: int, n: int) -> bool {
    2 * s + 1 < n
}

/// The motion of one pixel within the exposure: forward and backward.
pub struct Motion<T> {
    pub fu: T,
    pub fv: T,
    pub bu: T,
    pub bv: T,
}

/// The flow of pixel `i`, shortened to the exposed span.
pub open spec fn is_exposed_motion<K: Numerics>(
    k: &K,
    fwd: FlowField<K::T>,
    bwd: FlowField<K::T>,
    span: K::T,
    i: int,
    m: Motion<K::T>,
) -> bool {
    &&& call_ensures(K::times, (k, fwd.u@[i], span), m.fu)
    &&& call_ensures(K::times, (k, fwd.v@[i], span), m.fv)
    &&& call_ensures(K::times, (k, bwd.u@[i], span), m.bu)
    &&& call_ensures(K::times, (k, bwd.v@[i], span), m.bv)
}

/// One sample of the frame: where it was taken, and the colour found there.
pub struct Tap<T> {
    pub ox: T,
    pub oy: T,
    pub px: T,
    pub py: T,
    pub cx: usize,
    pub cy: usize,
    pub fx: T,
    pub fy: T,
    pub color: (T, T, T),
}

/// Channel `c` of the frame at column `x` of row `y`.
pub open spec fn channel(frame: Seq<u8>, w: int, x: int, y: int, c: int) -> u8 {
    frame[3 * (y * w + x) + c]
}

/// `out` mixes channel `c` of the four pixels about column `cx` and row `cy`; a
/// pixel beyond the last column or row stands for the last one.
pub open spec fn is_blend<K: Numerics>(
    k: &K,
    frame: Seq<u8>,
    w: int,
    h: int,
    cx: int,
    cy: int,
    fx: K::T,
    fy: K::T,
    c: int,
    out: K::T,
) -> bool {
    let x0 = lesser(cx, w - 1);
    let x1 = lesser(cx + 1, w - 1);
    let y0 = lesser(cy, h - 1);
    let y1 = lesser(cy + 1, h - 1);
    call_ensures(
        K::blend_bytes,
        (
            k,
            channel(frame, w, x0, y0, c),
            channel(frame, w, x1, y0, c),
            channel(frame, w, x0, y1, c),
            channel(frame, w, x1, y1, c),
            fx,
            fy,
        ),
        out,
    )
}

/// The frame at the fractional position `(px, py)`, clamped to the border.
pub open spec fn is_rgb_sample<K: Numerics>(
    k: &K,
    frame: Seq<u8>,
    w: usize,
    h: usize,
    t: Tap<K::T>,
) -> bool {
    &&& call_ensures(K::cell, (k, t.px, w), (t.cx, t.fx))
    &&& call_ensures(K::cell, (k, t.py, h), (t.cy, t.fy))
    &&& is_blend(k, frame, w as int, h as int, t.cx as int, t.cy as int, t.fx, t.fy, 0, t.color.0)
    &&& is_blend(k, frame, w as int, h as int, t.cx as int, t.cy as int, t.fx, t.fy, 1, t.color.1)
    &&& is_blend(k, frame, w as int, h as int, t.cx as int, t.cy as int, t.fx, t.fy, 2, t.color.2)
}

/// `t` is tap `s` of `n` for the pixel at column `x` of row `y`: it follows the
/// backward flow in the first half of the exposure, the forward flow in the
/// second.
pub open spec fn is_tap<K: Numerics>(
    k: &K,
    frame: Seq<u8>,
    w: usize,
    h: usize,
    x: usize,
    y: usize,
    m: Motion<K::T>,
    n: usize,
    s: usize,
    t: Tap<K::T>,
) -> bool {
    &&& call_ensures(
        K::tap_offset,
        (
            k,
            s,
            n,
            if is_early(s as int, n as int) {
                m.bu
            } else {
                m.fu
            },
        ),
        t.ox,
    )
    &&& call_ensures(
        K::tap_offset,
        (
            k,
            s,
            n,
            if is_early(s as int, n as int) {
                m.bv
            } else {
                m.fv
            },
        ),
        t.oy,
    )
    &&& call_ensures(K::shifted, (k, x, t.ox), t.px)
    &&& call_ensures(K::shifted, (k, y, t.oy), t.py)
    &&& is_rgb_sample(k, frame, w, h, t)
}

/// `sums` are the running sums of the colours of `taps`.
pub open spec fn is_exposure<K: Numerics>(
    k: &K,
    frame: Seq<u8>,
    w: usize,
    h: usize,
    x: usize,
    y: usize,
    m: Motion<K::T>,
    n: usize,
    taps: Seq<Tap<K::T>>,
    sums: Seq<(K::T, K::T, K::T)>,
) -> bool {
    &&& sums.len() == taps.len() + 1
    &&& call_ensures(K::zero, (k,), sums[0].0)
    &&& call_ensures(K::zero, (k,), sums[0].1)
    &&& call_ensures(K::zero, (k,), sums[0].2)
    &&& forall|s: int|
        #![trigger taps[s]]
        0 <= s < taps.len() ==> {
            &&& is_tap(k, frame, w, h, x, y, m, n, s as usize, taps[s])
            &&& call_ensures(K::plus, (k, sums[s].0, taps[s].color.0), sums[s + 1].0)
            &&& call_ensures(K::plus, (k, sums[s].1, taps[s].color.1), sums[s + 1].1)
            &&& call_ensures(K::plus, (k, sums[s].2, taps[s].color.2), sums[s + 1].2)
        }
}

/// `rgb` is the mean colour of `n` taps along the motion of a pixel.
pub open spec fn is_smeared<K: Numerics>(
    k: &K,
    frame: Seq<u8>,
    w: usize,
    h: usize,
    x: usize,
    y: usize,
    m: Motion<K::T>,
    n: usize,
    rgb: (u8, u8, u8),
) -> bool {
    exists|taps: Seq<Tap<K::T>>, sums: Seq<(K::T, K::T, K::T)>|
        {
            &&& #[trigger] is_exposure(k, frame, w, h, x, y, m, n, taps, sums)
            &&& taps.len() == n
            &&& call_ensures(K::mean_byte, (k, sums[n as int].0, n), rgb.0)
            &&& call_ensures(K::mean_byte, (k, sums[n as int].1, n), rgb.1)
            &&& call_ensures(K::mean_byte, (k, sums[n as int].2, n), rgb.2)
        }
}

/// `rgb` is pixel `i` of the blurred frame: a pixel that stays put keeps its
/// colour, any other is smeared along its motion.
pub open spec fn is_blurred_pixel<K: Numerics>(
    k: &K,
    frame: Seq<u8>,
    w: usize,
    h: usize,
    fwd: FlowField<K::T>,
    bwd: FlowField<K::T>,
    span: K::T,
    n: usize,
    i: int,
    rgb: (u8, u8, u8),
) -> bool {
    exists|m: Motion<K::T>, still: bool|
        {
            &&& #[trigger] is_exposed_motion(k, fwd, bwd, span, i, m)
            &&& #[trigger] call_ensures(K::is_still, (k, m.fu, m.fv, m.bu, m.bv), still)
            &&& if still {
                rgb == (frame[3 * i], frame[3 * i + 1], frame[3 * i + 2])
            } else {
                is_smeared(
                    k,
                    frame,
                    w,
                    h,
                    (i % w as int) as usize,
                    (i / w as int) as usize,
                    m,
                    n,
                    rgb,
                )
            }
        }
}

/// `out` is `frame`, blurred along `fwd` and `bwd` over the exposed span.
pub open spec fn is_blurred_over<K: Numerics>(
    k: &K,
    frame: Seq<u8>,
    w: usize,
    h: usize,
    fwd: FlowField<K::T>,
    bwd: FlowField<K::T>,
    span: K::T,
    n: usize,
    out: Seq<u8>,
) -> bool {
    &&& out.len() == 3 * (w * h)
    &&& forall|i: int| #[trigger]
        is_pixel_index(i, w, h) ==> is_blurred_pixel(
            k,
            frame,
            w,
            h,
            fwd,
            bwd,
            span,
            n,
            i,
            (out[3 * i], out[3 * i + 1], out[3 * i + 2]),
        )
}

/// `i` is the index of a pixel of a `w` by `h` frame.
pub open spec fn is_pixel_index(i: int, w: usize, h: usize) -> bool {
    0 <= i < w * h
}

/// `out` is `frame`, blurred with the given shutter angle and sample count.
pub open spec fn is_motion_blurred<K: Numerics>(
    k: &K,
    frame: Seq<u8>,
    w: usize,
    h: usize,
    fwd: FlowField<K::T>,
    bwd: FlowField<K::T>,
    shutter: K::T,
    samples: usize,
    out: Seq<u8>,
) -> bool {
    exists|span: K::T|
        call_ensures(K::span, (k, shutter), span) && #[trigger] is_blurred_over(
            k,
            frame,
            w,
            h,
            fwd,
            bwd,
            span,
            tap_count(samples as int) as usize,
            out,
        )
}

/// Byte offset of a pixel.
fn offset(x: usize, y: usize, w: usize, h: usize) -> (o: usize)
    requires
        x < w,
        y < h,
        3 * (w * h) <= usize::MAX,
    ensures
        o == 3 * (y * w + x),
        o + 2 < 3 * (w * h),
{
    proof {
        lemma_join_index(x as int, y as int, w as int, h as int);
    }
    (y * w + x) * 3
}

/// Bilinear RGB sample with border clamping.
fn sample_rgb<K: Numerics>(
    k: &K,
    frame: &[u8],
    w: usize,
    h: usize,
    ox: K::T,
    oy: K::T,
    px: K::T,
    py: K::T,
) -> (t: Tap<K::T>)
    requires
        w > 0,
        h > 0,
        3 * (w * h) <= frame@.len(),
    ensures
        t.ox == ox,
        t.oy == oy,
        t.px == px,
        t.py == py,
        is_rgb_sample(k, frame@, w, h, t),
{
    let len: usize = frame.len();
    let (cx, fx) = k.cell(px, w);
    let (cy, fy) = k.cell(py, h);
    let x0: usize = if cx < w {
        cx
    } else {
        w - 1
    };
    let y0: usize = if cy < h {
        cy
    } else {
        h - 1
    };
    let x1: usize = ahead(x0, 1, w);
    let y1: usize = ahead(y0, 1, h);
    let i00: usize = offset(x0, y0, w, h);
    let i10: usize = offset(x1, y0, w, h);
    let i01: usize = offset(x0, y1, w, h);
    let i11: usize = offset(x1, y1, w, h);
    let r = k.blend_bytes(frame[i00], frame[i10], frame[i01], frame[i11], fx, fy);
    let g = k.blend_bytes(
        frame[i00 + 1],
        frame[i10 + 1],
        frame[i01 + 1],
        frame[i11 + 1],
        fx,
        fy,
    );
    let b = k.blend_bytes(
        frame[i00 + 2],
        frame[i10 + 2],
        frame[i01 + 2],
        frame[i11 + 2],
        fx,
        fy,
    );
    Tap { ox, oy, px, py, cx, cy, fx, fy, color: (r, g, b) }
}

/// Mean colour of `n` taps along the motion of the pixel at column `x` of row
/// `y`.
fn smear<K: Numerics>(
    k: &K,
    frame: &[u8],
    w: usize,
    h: usize,
    x: usize,
    y: usize,
    m: Motion<K::T>,
    n: usize,
) -> (rgb: (u8, u8, u8))
    requires
        w > 0,
        h > 0,
        3 * (w * h) <= frame@.len(),
    ensures
        is_smeared(k, frame@, w, h, x, y, m, n, rgb),
{
    let ghost mut taps: Seq<Tap<K::T>> = seq![];
    let mut r = k.zero();
    let mut g = k.zero();
    let mut b = k.zero();
    let ghost mut sums: Seq<(K::T, K::T, K::T)> = seq![(r, g, b)];
    let mut s: usize = 0;
    while s < n
        invariant
            s <= n,
            w > 0,
            h > 0,
            3 * (w * h) <= frame@.len(),
            taps.len() == s,
            sums.len() == s + 1,
            sums[s as int] == (r, g, b),
            is_exposure(k, frame@, w, h, x, y, m, n, taps, sums),
        decreases n - s,
    {
        // Taps before the middle follow the backward flow, the others the
        // forward flow.
        let early: bool = s < n / 2;
        assert(early == is_early(s as int, n as int));
        let (du, dv) = if early {
            (m.bu, m.bv)
        } else {
            (m.fu, m.fv)
        };
        let ox = k.tap_offset(s, n, du);
        let oy = k.tap_offset(s, n, dv);
        let px = k.shifted(x, ox);
        let py = k.shifted(y, oy);
        let tap = sample_rgb(k, frame, w, h, ox, oy, px, py);
        r = k.plus(r, tap.color.0);
        g = k.plus(g, tap.color.1);
        b = k.plus(b, tap.color.2);
        proof {
            let before = taps;
            let sums_before = sums;
            taps = taps.push(tap);
            sums = sums.push((r, g, b));
            assert forall|j: int|
                #![trigger taps[j]]
                0 <= j < taps.len() implies {
                &&& is_tap(k, frame@, w, h, x, y, m, n, j as usize, taps[j])
                &&& call_ensures(K::plus, (k, sums[j].0, taps[j].color.0), sums[j + 1].0)
                &&& call_ensures(K::plus, (k, sums[j].1, taps[j].color.1), sums[j + 1].1)
                &&& call_ensures(K::plus, (k, sums[j].2, taps[j].color.2), sums[j + 1].2)
            } by {
                if j < s {
                    assert(taps[j] == before[j]);
                }
            }
        }
        s += 1;
    }
    (k.mean_byte(r, n), k.mean_byte(g, n), k.mean_byte(b, n))
}

/// One pixel of the blurred frame.
fn blur_pixel<K: Numerics>(
    k: &K,
    frame: &[u8],
    w: usize,
    h: usize,
    fwd: &FlowField<K::T>,
    bwd: &FlowField<K::T>,
    span: K::T,
    n: usize,
    i: usize,
) -> (rgb: (u8, u8, u8))
    requires
        i < w * h,
        3 * (w * h) <= frame@.len(),
        w * h <= fwd.u@.len(),
        w * h <= fwd.v@.len(),
        w * h <= bwd.u@.len(),
        w * h <= bwd.v@.len(),
    ensures
        is_blurred_pixel(k, frame@, w, h, *fwd, *bwd, span, n, i as int, rgb),
{
    let len: usize = frame.len();
    proof {
        lemma_split_index(i as int, w as int, h as int);
    }
    let m = Motion {
        fu: k.times(fwd.u[i], span),
        fv: k.times(fwd.v[i], span),
        bu: k.times(bwd.u[i], span),
        bv: k.times(bwd.v[i], span),
    };
    assert(is_exposed_motion(k, *fwd, *bwd, span, i as int, m));
    // Stationary pixels keep their colour: avoids shimmer.
    let still: bool = k.is_still(m.fu, m.fv, m.bu, m.bv);
    assert(call_ensures(K::is_still, (k, m.fu, m.fv, m.bu, m.bv), still));
    if still {
        (frame[i * 3], frame[i * 3 + 1], frame[i * 3 + 2])
    } else {
        smear(k, frame, w, h, i % w, i / w, m, n)
    }
}

/// The bytes of a list of pixels.
fn pixel_bytes(pixels: &Vec<(u8, u8, u8)>) -> (out: Vec<u8>)
    requires
        3 * pixels.len() <= usize::MAX,
    ensures
        out.len() == 3 * pixels.len(),
        forall|i: int|
            #![trigger pixels@[i]]
            0 <= i < pixels.len() ==> (out@[3 * i], out@[3 * i + 1], out@[3 * i + 2]) == pixels@[i],
{
    let mut out: Vec<u8> = Vec::new();
    let mut i: usize = 0;
    while i < pixels.len()
        invariant
            i <= pixels.len(),
            out.len() == 3 * i,
            forall|j: int|
                #![trigger pixels@[j]]
                0 <= j < i ==> (out@[3 * j], out@[3 * j + 1], out@[3 * j + 2]) == pixels@[j],
        decreases pixels.len() - i,
    {
        let p = pixels[i];
        out.push(p.0);
        out.push(p.1);
        out.push(p.2);
        i += 1;
    }
    out
}

/// Apply motion blur to one RGB24 frame.
///
/// * `fwd` is the flow from the current frame to the next frame.
/// * `bwd` is the flow from the current frame to the previous frame.
/// * `shutter` is the shutter angle.
/// * `samples` is the number of taps along the trajectory (quality vs speed).
pub fn motion_blur<K: Numerics>(
    k: &K,
    frame: &[u8],
    w: usize,
    h: usize,
    fwd: &FlowField<K::T>,
    bwd: &FlowField<K::T>,
    shutter: K::T,
    samples: usize,
) -> (out: Vec<u8>)
    requires
        3 * (w * h) <= frame@.len(),
        w * h <= fwd.u@.len(),
        w * h <= fwd.v@.len(),
        w * h <= bwd.u@.len(),
        w * h <= bwd.v@.len(),
    ensures
        is_motion_blurred(k, frame@, w, h, *fwd, *bwd, shutter, samples, out@),
{
    let len: usize = frame.len();
    let span = k.span(shutter);
    let n: usize = if samples >= 2 {
        samples
    } else {
        2
    };
    proof {
        assert(w * h >= 0) by (nonlinear_arith);
    }
    let pixels: Vec<(u8, u8, u8)> = par_map(
        w * h,
        |i: usize| -> (rgb: (u8, u8, u8))
            requires
                w * h > i,
                3 * (w * h) <= frame@.len(),
                w * h <= fwd.u@.len(),
                w * h <= fwd.v@.len(),
                w * h <= bwd.u@.len(),
                w * h <= bwd.v@.len(),
            ensures
                is_blurred_pixel(k, frame@, w, h, *fwd, *bwd, span, n, i as int, rgb)
            { blur_pixel(k, frame, w, h, fwd, bwd, span, n, i) },
    );
    let out = pixel_bytes(&pixels);
    proof {
        assert forall|i: int| #[trigger] is_pixel_index(i, w, h) implies is_blurred_pixel(
            k,
            frame@,
            w,
            h,
            *fwd,
            *bwd,
            span,
            n,
            i,
            (out@[3 * i], out@[3 * i + 1], out@[3 * i + 2]),
        ) by {
            assert(pixels@[i] == (out@[3 * i], out@[3 * i + 1], out@[3 * i + 2]));
        }
        assert(n == tap_count(samples as int) as usize);
        assert(is_blurred_over(k, frame@, w, h, *fwd, *bwd, span, n, out@));
    }
    out
}

/// The exposure is centred: tap `s` follows the backward flow exactly where
/// its mirror image, tap `n - 1 - s`, follows the forward flow; only a tap in
/// the very middle is its own mirror image. The early taps are the first
/// `n / 2`.
pub proof fn law_exposure_is_centred(s: int, n: int)
    requires
        0 <= s < n,
    ensures
        n - 1 - s != s ==> is_early(s, n) != is_early(n - 1 - s, n),
        is_early(s, n) <==> s < n / 2,
{
}

/// A frame in which every pixel stays put comes out as it went in.
pub proof fn law_still_frame_is_unchanged<K: Numerics>(
    k: &K,
    frame: Seq<u8>,
    w: usize,
    h: usize,
    fwd: FlowField<K::T>,
    bwd: FlowField<K::T>,
    shutter: K::T,
    samples: usize,
    out: Seq<u8>,
)
    requires
        is_motion_blurred(k, frame, w, h, fwd, bwd, shutter, samples, out),
        frame.len() == 3 * (w * h),
        forall|span: K::T, m: Motion<K::T>, i: int, still: bool|
            {
                &&& call_ensures(K::span, (k, shutter), span)
                &&& 0 <= i < w * h
                &&& #[trigger] is_exposed_motion(k, fwd, bwd, span, i, m)
                &&& #[trigger] call_ensures(K::is_still, (k, m.fu, m.fv, m.bu, m.bv), still)
            } ==> still,
    ensures
        out == frame,
{
    let n = tap_count(samples as int) as usize;
    let span = choose|span: K::T|
        call_ensures(K::span, (k, shutter), span) && #[trigger] is_blurred_over(
            k,
            frame,
            w,
            h,
            fwd,
            bwd,
            span,
            n,
            out,
        );
    assert forall|j: int| 0 <= j < out.len() implies out[j] == frame[j] by {
        let i = j / 3;
        assert(is_pixel_index(i, w, h));
        assert(3 * i <= j < 3 * i + 3);
    }
    assert(out =~= frame);
}

} // verus!
