//! What the device's work amounts to, told over pictures: under any meaning of
//! what buffers hold in which the kernels do their part, which motion a frame is
//! blurred along.
use crate::frames::{Role, Settings};
use crate::gpu::device::{Device, Source, Tensor, Transfer};
use crate::gpu::flows::{
    at_rest, estimated, flow_between, lemma_level_grid, level_image, refined, smoothed, step,
    structure, summed_mismatch, GpuFlowPair,
};
use crate::gpu::frame::{
    backward_field, forward_field, frame_transfers, is_frame_done, is_reused,
};
use crate::gpu::kernel::Kernel;
use crate::gpu::stages::{
    blurred, dims, downsampled, gradient_x, gradient_y, half_blurred, half_summed2, half_summed3,
    is_grid, mismatch, motion_blurred, product, ran, resize_params, summed2, summed3, upscaled,
    Field,
};
use crate::levels::{law_level_count, level_count, level_side};
use crate::model::{
    across, edge, end_of, first_in, five, is_cell_step, is_update, on_grid, same_on, slopes_x,
    slopes_y, soft, sum_of, window_product, window_sum, zero_on, Img,
};
use crate::moving::lemma_sum_same;
use vstd::prelude::*;

verus! {

/// What the kernels make of pictures that are taken between cells, and of those
/// that are filtered or blurred: any function of the pictures and the sizes.
pub struct Kernels {
    /// A picture, taken where a motion leads.
    pub ahead: spec_fn(Img, Img, Img, int, int) -> Img,
    /// A picture on a finer grid: its own size, then that of the grid.
    pub lift: spec_fn(Img, int, int, int, int) -> Img,
    /// A picture, filtered.
    pub filter: spec_fn(Img, int, int) -> Img,
    /// A frame, blurred along a forward and a backward motion, with the size, the
    /// number of taps and the shutter angle.
    pub blur: spec_fn(Img, Img, Img, Img, Img, int, int, int, u32) -> Img,
}

/// `g` is `f`, softened along its rows.
pub open spec fn is_soft_across(f: Img, w: int, h: int, g: Img) -> bool {
    forall|x: int, y: int| on_grid(x, y, w, h) ==> #[trigger] g(x, y) == across(f, w, x, y)
}

/// `g` is `f`, softened along its columns.
pub open spec fn is_soft_down(f: Img, w: int, h: int, g: Img) -> bool {
    forall|x: int, y: int|
        on_grid(x, y, w, h) ==> #[trigger] g(x, y) == five(
            f(x, edge(y - 2, h)),
            f(x, edge(y - 1, h)),
            f(x, y),
            f(x, edge(y + 1, h)),
            f(x, edge(y + 2, h)),
        )
}

/// The mean of a picture over two columns and two rows.
pub open spec fn quarter(f: Img, sw: int, sh: int) -> Img {
    |x: int, y: int|
        (f(edge(2 * x, sw), edge(2 * y, sh)) + f(edge(2 * x + 1, sw), edge(2 * y, sh)) + f(
            edge(2 * x, sw),
            edge(2 * y + 1, sh),
        ) + f(edge(2 * x + 1, sw), edge(2 * y + 1, sh))) / (4 as real)
}

/// `g` is the product of two pictures.
pub open spec fn is_product(a: Img, b: Img, w: int, h: int, g: Img) -> bool {
    forall|x: int, y: int| on_grid(x, y, w, h) ==> #[trigger] g(x, y) == a(x, y) * b(x, y)
}

/// `g` is `f`, summed along its rows over a window of radius `r`.
pub open spec fn is_summed_across(f: Img, w: int, h: int, r: int, g: Img) -> bool {
    forall|x: int, y: int|
        on_grid(x, y, w, h) ==> #[trigger] g(x, y) == sum_of(
            |i: int| f(i, y),
            first_in(x, r),
            end_of(x, r, w),
        )
}

/// `g` is `f`, summed along its columns over a window of radius `r`.
pub open spec fn is_summed_down(f: Img, w: int, h: int, r: int, g: Img) -> bool {
    forall|x: int, y: int|
        on_grid(x, y, w, h) ==> #[trigger] g(x, y) == sum_of(
            |j: int| f(x, j),
            first_in(y, r),
            end_of(y, r, h),
        )
}

/// How much one picture exceeds another.
pub open spec fn excess(b: Img, a: Img) -> Img {
    |x: int, y: int| b(x, y) - a(x, y)
}

/// Two pictures are updated by the solution of the equations that five others
/// hold at every cell.
pub open spec fn are_updates(
    xx: Img,
    yy: Img,
    xy: Img,
    xt: Img,
    yt: Img,
    u: Img,
    v: Img,
    w: int,
    h: int,
    u2: Img,
    v2: Img,
) -> bool {
    forall|x: int, y: int|
        #![trigger u2(x, y)]
        #![trigger v2(x, y)]
        on_grid(x, y, w, h) ==> is_update(
            xx(x, y),
            yy(x, y),
            xy(x, y),
            xt(x, y),
            yt(x, y),
            u2(x, y) - u(x, y),
            v2(x, y) - v(x, y),
        )
}

/// The kernels that soften and halve images.
pub open spec fn images_are_made(m: spec_fn(Tensor) -> Img) -> bool {
    &&& forall|i: Seq<Tensor>, p: Seq<u32>|
        i.len() == 1 ==> is_soft_across(
            m(i[0]),
            p[0] as int,
            p[1] as int,
            m(#[trigger] ran(Kernel::GaussianH, 1, i, p)),
        )
    &&& forall|i: Seq<Tensor>, p: Seq<u32>|
        i.len() == 1 ==> is_soft_down(
            m(i[0]),
            p[0] as int,
            p[1] as int,
            m(#[trigger] ran(Kernel::GaussianV, 1, i, p)),
        )
    &&& forall|i: Seq<Tensor>, p: Seq<u32>|
        i.len() == 1 ==> same_on(
            m(#[trigger] ran(Kernel::Downsample, 1, i, p)),
            quarter(m(i[0]), p[2] as int, p[3] as int),
            p[0] as int,
            p[1] as int,
        )
}

/// The kernels that take slopes, products and sums.
pub open spec fn sums_are_made(m: spec_fn(Tensor) -> Img) -> bool {
    &&& forall|i: Seq<Tensor>, p: Seq<u32>|
        i.len() == 1 ==> same_on(
            m(#[trigger] ran(Kernel::Gradients, 1, i, p)),
            slopes_x(m(i[0]), p[0] as int),
            p[0] as int,
            p[1] as int,
        )
    &&& forall|i: Seq<Tensor>, p: Seq<u32>|
        i.len() == 1 ==> same_on(
            m(#[trigger] ran(Kernel::Gradients, 2, i, p)),
            slopes_y(m(i[0]), p[1] as int),
            p[0] as int,
            p[1] as int,
        )
    &&& forall|i: Seq<Tensor>, p: Seq<u32>|
        i.len() == 2 ==> is_product(
            m(i[0]),
            m(i[0]),
            p[0] as int,
            p[1] as int,
            m(#[trigger] ran(Kernel::Products, 2, i, p)),
        )
    &&& forall|i: Seq<Tensor>, p: Seq<u32>|
        i.len() == 2 ==> is_product(
            m(i[1]),
            m(i[1]),
            p[0] as int,
            p[1] as int,
            m(#[trigger] ran(Kernel::Products, 3, i, p)),
        )
    &&& forall|i: Seq<Tensor>, p: Seq<u32>|
        i.len() == 2 ==> is_product(
            m(i[0]),
            m(i[1]),
            p[0] as int,
            p[1] as int,
            m(#[trigger] ran(Kernel::Products, 4, i, p)),
        )
    &&& forall|i: Seq<Tensor>, p: Seq<u32>, n: int|
        i.len() == 3 && 3 <= n < 6 ==> is_summed_across(
            m(i[n - 3]),
            p[0] as int,
            p[1] as int,
            p[2] as int,
            m(#[trigger] ran(Kernel::Box3H, n, i, p)),
        )
    &&& forall|i: Seq<Tensor>, p: Seq<u32>, n: int|
        i.len() == 3 && 3 <= n < 6 ==> is_summed_down(
            m(i[n - 3]),
            p[0] as int,
            p[1] as int,
            p[2] as int,
            m(#[trigger] ran(Kernel::Box3V, n, i, p)),
        )
    &&& forall|i: Seq<Tensor>, p: Seq<u32>, n: int|
        i.len() == 2 && 2 <= n < 4 ==> is_summed_across(
            m(i[n - 2]),
            p[0] as int,
            p[1] as int,
            p[2] as int,
            m(#[trigger] ran(Kernel::Box2H, n, i, p)),
        )
    &&& forall|i: Seq<Tensor>, p: Seq<u32>, n: int|
        i.len() == 2 && 2 <= n < 4 ==> is_summed_down(
            m(i[n - 2]),
            p[0] as int,
            p[1] as int,
            p[2] as int,
            m(#[trigger] ran(Kernel::Box2V, n, i, p)),
        )
}

/// The kernels that move, solve, filter and blur.
pub open spec fn motions_are_made(m: spec_fn(Tensor) -> Img, k: Kernels) -> bool {
    &&& forall|i: Seq<Tensor>, p: Seq<u32>|
        i.len() == 6 ==> is_product(
            m(i[4]),
            excess((k.ahead)(m(i[1]), m(i[2]), m(i[3]), p[0] as int, p[1] as int), m(i[0])),
            p[0] as int,
            p[1] as int,
            m(#[trigger] ran(Kernel::WarpDiff, 6, i, p)),
        )
    &&& forall|i: Seq<Tensor>, p: Seq<u32>|
        i.len() == 6 ==> is_product(
            m(i[5]),
            excess((k.ahead)(m(i[1]), m(i[2]), m(i[3]), p[0] as int, p[1] as int), m(i[0])),
            p[0] as int,
            p[1] as int,
            m(#[trigger] ran(Kernel::WarpDiff, 7, i, p)),
        )
    &&& forall|i: Seq<Tensor>, p: Seq<u32>|
        i.len() == 7 ==> are_updates(
            m(i[0]),
            m(i[1]),
            m(i[2]),
            m(i[3]),
            m(i[4]),
            m(i[5]),
            m(i[6]),
            p[0] as int,
            p[1] as int,
            m(#[trigger] ran(Kernel::SolveUpdate, 5, i, p)),
            m(ran(Kernel::SolveUpdate, 6, i, p)),
        )
    &&& forall|i: Seq<Tensor>, p: Seq<u32>|
        i.len() == 1 ==> m(#[trigger] ran(Kernel::Median, 1, i, p)) == (k.filter)(
            m(i[0]),
            p[0] as int,
            p[1] as int,
        )
    &&& forall|i: Seq<Tensor>, p: Seq<u32>, n: int|
        i.len() == 2 && 2 <= n < 4 ==> m(#[trigger] ran(Kernel::UpscaleFlow, n, i, p)) == (k.lift)(
            m(i[n - 2]),
            p[2] as int,
            p[3] as int,
            p[0] as int,
            p[1] as int,
        )
    &&& forall|i: Seq<Tensor>, p: Seq<u32>, n: int|
        i.len() == 2 && 2 <= n < 4 ==> same_on(
            m(#[trigger] ran(Kernel::Negate, n, i, p)),
            |x: int, y: int| -m(i[n - 2])(x, y),
            p[0] as int,
            p[1] as int,
        )
    &&& forall|i: Seq<Tensor>, p: Seq<u32>|
        i.len() == 5 ==> m(#[trigger] ran(Kernel::Blur, 5, i, p)) == (k.blur)(
            m(i[0]),
            m(i[1]),
            m(i[2]),
            m(i[3]),
            m(i[4]),
            p[0] as int,
            p[1] as int,
            p[2] as int,
            p[3],
        )
}

/// Under the meaning `m` of what buffers hold, every kernel does its part.
pub open spec fn kernels_work(m: spec_fn(Tensor) -> Img, k: Kernels) -> bool {
    &&& forall|x: int, y: int| #[trigger] m(Tensor::Zero)(x, y) == (0 as real)
    &&& images_are_made(m)
    &&& sums_are_made(m)
    &&& motions_are_made(m, k)
}

/// The pictures of a pyramid on the device: the first is the base, softened; each
/// further one that before it, halved by means of four cells, and softened.
pub open spec fn is_soft_pyramid(base: Img, w: int, h: int, p: Seq<Img>) -> bool {
    &&& forall|x: int, y: int|
        on_grid(x, y, w, h) ==> #[trigger] p[0](x, y) == soft(base, w, h, x, y)
    &&& forall|l: int, x: int, y: int|
        0 < l < p.len() && on_grid(x, y, level_side(w, l), level_side(h, l)) ==> #[trigger] p[l](
            x,
            y,
        ) == soft(
            quarter(p[l - 1], level_side(w, l - 1), level_side(h, l - 1)),
            level_side(w, l),
            level_side(h, l),
            x,
            y,
        )
}

/// One step of the estimate of the motion from `a` to `b` on the device.
pub open spec fn is_device_step(
    k: Kernels,
    a: Img,
    b: Img,
    w: int,
    h: int,
    r: int,
    u: Img,
    v: Img,
    u2: Img,
    v2: Img,
) -> bool {
    forall|x: int, y: int|
        on_grid(x, y, w, h) ==> #[trigger] is_cell_step(
            a,
            excess((k.ahead)(b, u, v, w, h), a),
            w,
            h,
            r,
            u,
            v,
            u2,
            v2,
            x,
            y,
        )
}

/// `n` steps of the estimate on the device.
pub open spec fn is_device_steps(
    k: Kernels,
    a: Img,
    b: Img,
    w: int,
    h: int,
    r: int,
    n: int,
    u: Img,
    v: Img,
    u2: Img,
    v2: Img,
) -> bool
    decreases n,
{
    if n <= 0 {
        u2 == u && v2 == v
    } else {
        exists|p: Img, q: Img|
            is_device_steps(k, a, b, w, h, r, n - 1, u, v, p, q) && #[trigger] is_device_step(
                k,
                a,
                b,
                w,
                h,
                r,
                p,
                q,
                u2,
                v2,
            )
    }
}

/// `(u, v)` is the motion at level `l` of two pyramids on the device, estimated
/// from the coarsest level, which starts at rest, down to this one.
pub open spec fn is_device_motion_at(
    k: Kernels,
    pa: Seq<Img>,
    pb: Seq<Img>,
    w: int,
    h: int,
    r: int,
    iters: int,
    l: int,
    u: Img,
    v: Img,
) -> bool
    decreases pa.len() - l,
{
    let (lw, lh) = (level_side(w, l), level_side(h, l));
    let (cw, ch) = (level_side(w, l + 1), level_side(h, l + 1));
    exists|su: Img, sv: Img|
        {
            &&& #[trigger] is_device_steps(k, pa[l], pb[l], lw, lh, r, iters, su, sv, u, v)
            &&& if l >= pa.len() - 1 {
                zero_on(su, lw, lh) && zero_on(sv, lw, lh)
            } else {
                exists|cu: Img, cv: Img|
                    {
                        &&& is_device_motion_at(k, pa, pb, w, h, r, iters, l + 1, cu, cv)
                        &&& su == #[trigger] (k.lift)(cu, cw, ch, lw, lh)
                        &&& sv == #[trigger] (k.lift)(cv, cw, ch, lw, lh)
                    }
            }
        }
}

/// `(u, v)` is the filtered motion from one picture to another on the device:
/// each component is that of the estimate, filtered.
pub open spec fn is_device_motion(
    k: Kernels,
    a: Img,
    b: Img,
    w: int,
    h: int,
    r: int,
    iters: int,
    levels: int,
    u: Img,
    v: Img,
) -> bool {
    exists|pa: Seq<Img>, pb: Seq<Img>, p: Img, q: Img|
        {
            &&& is_soft_pyramid(a, w, h, pa)
            &&& is_soft_pyramid(b, w, h, pb)
            &&& pa.len() == levels
            &&& pb.len() == levels
            &&& #[trigger] is_device_motion_at(k, pa, pb, w, h, r, iters, 0, p, q)
            &&& u == (k.filter)(p, w, h)
            &&& v == (k.filter)(q, w, h)
        }
}

proof fn lemma_blurred(m: spec_fn(Tensor) -> Img, t: Tensor, f: Img, w: int, h: int)
    requires
        images_are_made(m),
        is_grid(w, h),
        same_on(m(t), f, w, h),
    ensures
        forall|x: int, y: int|
            on_grid(x, y, w, h) ==> #[trigger] m(blurred(t, w, h))(x, y) == soft(f, w, h, x, y),
{
    let g = m(half_blurred(t, w, h));
    assert forall|x: int, y: int| on_grid(x, y, w, h) implies #[trigger] m(blurred(t, w, h))(x, y)
        == soft(f, w, h, x, y) by {
        assert forall|j: int| 0 <= j < h implies #[trigger] g(x, j) == across(f, w, x, j) by {
            let s = m(t);
            assert(s(edge(x - 2, w), j) == f(edge(x - 2, w), j));
            assert(s(edge(x - 1, w), j) == f(edge(x - 1, w), j));
            assert(s(x, j) == f(x, j));
            assert(s(edge(x + 1, w), j) == f(edge(x + 1, w), j));
            assert(s(edge(x + 2, w), j) == f(edge(x + 2, w), j));
        }
    }
}

pub(crate) proof fn lemma_level_images(
    m: spec_fn(Tensor) -> Img,
    t: Tensor,
    w: int,
    h: int,
    levels: int,
) -> (p: Seq<Img>)
    requires
        images_are_made(m),
        is_grid(w, h),
        levels >= 1,
    ensures
        p.len() == levels,
        forall|l: int| 0 <= l < levels ==> #[trigger] p[l] == m(level_image(t, w, h, l)),
        is_soft_pyramid(m(t), w, h, p),
{
    let p = Seq::new(levels as nat, |l: int| m(level_image(t, w, h, l)));
    lemma_blurred(m, t, m(t), w, h);
    assert forall|l: int, x: int, y: int|
        0 < l < p.len() && on_grid(x, y, level_side(w, l), level_side(h, l)) implies
    #[trigger] p[l](x, y) == soft(
        quarter(p[l - 1], level_side(w, l - 1), level_side(h, l - 1)),
        level_side(w, l),
        level_side(h, l),
        x,
        y,
    ) by {
        lemma_level_grid(w, h, l);
        lemma_level_grid(w, h, l - 1);
        let (lw, lh) = (level_side(w, l), level_side(h, l));
        let (sw, sh) = (level_side(w, l - 1), level_side(h, l - 1));
        let half = downsampled(level_image(t, w, h, l - 1), lw, lh, sw, sh);
        assert(p[l - 1] == m(level_image(t, w, h, l - 1)));
        assert(same_on(m(half), quarter(p[l - 1], sw, sh), lw, lh));
        lemma_blurred(m, half, quarter(p[l - 1], sw, sh), lw, lh);
        assert(level_image(t, w, h, l) == blurred(half, lw, lh));
    }
    p
}

/// Sums across and then down are sums over the window.
proof fn lemma_summed(f: Img, t: Img, w: int, h: int, r: int, s: Img, g: Img, x: int, y: int)
    requires
        same_on(t, f, w, h),
        is_summed_across(t, w, h, r, s),
        is_summed_down(s, w, h, r, g),
        on_grid(x, y, w, h),
        r >= 0,
    ensures
        g(x, y) == window_sum(f, w, h, r, x, y),
{
    let (lo, hi) = (first_in(y, r), end_of(y, r, h));
    let (a, b) = (first_in(x, r), end_of(x, r, w));
    let rows = |j: int| sum_of(|i: int| f(i, j), a, b);
    let column = |j: int| s(x, j);
    assert forall|j: int| lo <= j < hi implies #[trigger] column(j) == rows(j) by {
        let (p, q) = (|i: int| t(i, j), |i: int| f(i, j));
        assert(s(x, j) == sum_of(p, a, b));
        assert forall|i: int| a <= i < b implies #[trigger] p(i) == q(i) by {
            assert(t(i, j) == f(i, j));
        }
        lemma_sum_same(p, q, a, b);
    }
    lemma_sum_same(column, rows, lo, hi);
}

proof fn lemma_structure(
    m: spec_fn(Tensor) -> Img,
    a: Tensor,
    w: int,
    h: int,
    r: usize,
    x: int,
    y: int,
)
    requires
        sums_are_made(m),
        is_grid(w, h),
        r <= u32::MAX,
        on_grid(x, y, w, h),
    ensures
        ({
            let (gx, gy) = (slopes_x(m(a), w), slopes_y(m(a), h));
            &&& m(structure(a, 0, w, h, r))(x, y) == window_product(gx, gx, w, h, r as int, x, y)
            &&& m(structure(a, 1, w, h, r))(x, y) == window_product(gy, gy, w, h, r as int, x, y)
            &&& m(structure(a, 2, w, h, r))(x, y) == window_product(gx, gy, w, h, r as int, x, y)
        }),
{
    let (gx, gy) = (slopes_x(m(a), w), slopes_y(m(a), h));
    let (ix, iy) = (gradient_x(a, w, h), gradient_y(a, w, h));
    let (t0, t1, t2) = (
        product(ix, iy, 0, w, h),
        product(ix, iy, 1, w, h),
        product(ix, iy, 2, w, h),
    );
    assert(same_on(m(ix), gx, w, h));
    assert(same_on(m(iy), gy, w, h));
    lemma_products(m, ix, iy, gx, gy, w, h);
    lemma_summed3(m, t0, t1, t2, 0, |i: int, j: int| gx(i, j) * gx(i, j), w, h, r, x, y);
    lemma_summed3(m, t0, t1, t2, 1, |i: int, j: int| gy(i, j) * gy(i, j), w, h, r, x, y);
    lemma_summed3(m, t0, t1, t2, 2, |i: int, j: int| gx(i, j) * gy(i, j), w, h, r, x, y);
}

proof fn lemma_products(
    m: spec_fn(Tensor) -> Img,
    ix: Tensor,
    iy: Tensor,
    gx: Img,
    gy: Img,
    w: int,
    h: int,
)
    requires
        sums_are_made(m),
        is_grid(w, h),
        same_on(m(ix), gx, w, h),
        same_on(m(iy), gy, w, h),
    ensures
        same_on(m(product(ix, iy, 0, w, h)), |i: int, j: int| gx(i, j) * gx(i, j), w, h),
        same_on(m(product(ix, iy, 1, w, h)), |i: int, j: int| gy(i, j) * gy(i, j), w, h),
        same_on(m(product(ix, iy, 2, w, h)), |i: int, j: int| gx(i, j) * gy(i, j), w, h),
{
    assert(is_product(m(ix), m(ix), w, h, m(product(ix, iy, 0, w, h))));
    assert(is_product(m(iy), m(iy), w, h, m(product(ix, iy, 1, w, h))));
    assert(is_product(m(ix), m(iy), w, h, m(product(ix, iy, 2, w, h))));
    assert forall|x: int, y: int| on_grid(x, y, w, h) implies m(ix)(x, y) == gx(x, y) && m(iy)(
        x,
        y,
    ) == gy(x, y) by {}
}

proof fn lemma_summed3(
    m: spec_fn(Tensor) -> Img,
    a: Tensor,
    b: Tensor,
    c: Tensor,
    n: int,
    f: Img,
    w: int,
    h: int,
    r: usize,
    x: int,
    y: int,
)
    requires
        sums_are_made(m),
        is_grid(w, h),
        r <= u32::MAX,
        0 <= n < 3,
        same_on(m(seq![a, b, c][n]), f, w, h),
        on_grid(x, y, w, h),
    ensures
        m(summed3(a, b, c, n, w, h, r))(x, y) == window_sum(f, w, h, r as int, x, y),
{
    let t = m(seq![a, b, c][n]);
    let s = m(half_summed3(a, b, c, n, w, h, r));
    let g = m(summed3(a, b, c, n, w, h, r));
    assert(is_summed_across(t, w, h, r as int, s));
    assert(is_summed_down(s, w, h, r as int, g));
    lemma_summed(f, t, w, h, r as int, s, g, x, y);
}

proof fn lemma_summed2(
    m: spec_fn(Tensor) -> Img,
    a: Tensor,
    b: Tensor,
    n: int,
    f: Img,
    w: int,
    h: int,
    r: usize,
    x: int,
    y: int,
)
    requires
        sums_are_made(m),
        is_grid(w, h),
        r <= u32::MAX,
        0 <= n < 2,
        same_on(m(seq![a, b][n]), f, w, h),
        on_grid(x, y, w, h),
    ensures
        m(summed2(a, b, n, w, h, r))(x, y) == window_sum(f, w, h, r as int, x, y),
{
    let t = m(seq![a, b][n]);
    let s = m(half_summed2(a, b, n, w, h, r));
    let g = m(summed2(a, b, n, w, h, r));
    assert(is_summed_across(t, w, h, r as int, s));
    assert(is_summed_down(s, w, h, r as int, g));
    lemma_summed(f, t, w, h, r as int, s, g, x, y);
}

proof fn lemma_summed_mismatch(
    m: spec_fn(Tensor) -> Img,
    k: Kernels,
    a: Tensor,
    b: Tensor,
    f: Field,
    w: int,
    h: int,
    r: usize,
    x: int,
    y: int,
)
    requires
        kernels_work(m, k),
        is_grid(w, h),
        r <= u32::MAX,
        on_grid(x, y, w, h),
    ensures
        ({
            let (gx, gy) = (slopes_x(m(a), w), slopes_y(m(a), h));
            let d = excess((k.ahead)(m(b), m(f.u), m(f.v), w, h), m(a));
            &&& m(summed_mismatch(a, b, f, 0, w, h, r))(x, y) == window_product(
                gx,
                d,
                w,
                h,
                r as int,
                x,
                y,
            )
            &&& m(summed_mismatch(a, b, f, 1, w, h, r))(x, y) == window_product(
                gy,
                d,
                w,
                h,
                r as int,
                x,
                y,
            )
        }),
{
    let (gx, gy) = (slopes_x(m(a), w), slopes_y(m(a), h));
    let d = excess((k.ahead)(m(b), m(f.u), m(f.v), w, h), m(a));
    let (ix, iy) = (gradient_x(a, w, h), gradient_y(a, w, h));
    assert(same_on(m(ix), gx, w, h));
    assert(same_on(m(iy), gy, w, h));
    let t0 = mismatch(a, b, f, ix, iy, 0, w, h);
    let t1 = mismatch(a, b, f, ix, iy, 1, w, h);
    assert(is_product(m(ix), d, w, h, m(t0)));
    assert(is_product(m(iy), d, w, h, m(t1)));
    let (f0, f1) = (|i: int, j: int| gx(i, j) * d(i, j), |i: int, j: int| gy(i, j) * d(i, j));
    assert forall|i: int, j: int| on_grid(i, j, w, h) implies #[trigger] m(t0)(i, j) == f0(
        i,
        j,
    ) by {
        assert(m(ix)(i, j) == gx(i, j));
    }
    assert forall|i: int, j: int| on_grid(i, j, w, h) implies #[trigger] m(t1)(i, j) == f1(
        i,
        j,
    ) by {
        assert(m(iy)(i, j) == gy(i, j));
    }
    lemma_summed2(m, t0, t1, 0, f0, w, h, r, x, y);
    lemma_summed2(m, t0, t1, 1, f1, w, h, r, x, y);
}

proof fn lemma_step(
    m: spec_fn(Tensor) -> Img,
    k: Kernels,
    a: Tensor,
    b: Tensor,
    f: Field,
    w: int,
    h: int,
    r: usize,
)
    requires
        kernels_work(m, k),
        is_grid(w, h),
        r <= u32::MAX,
    ensures
        is_device_step(
            k,
            m(a),
            m(b),
            w,
            h,
            r as int,
            m(f.u),
            m(f.v),
            m(step(a, b, f, 0, w, h, r)),
            m(step(a, b, f, 1, w, h, r)),
        ),
{
    let d = excess((k.ahead)(m(b), m(f.u), m(f.v), w, h), m(a));
    let (u2, v2) = (m(step(a, b, f, 0, w, h, r)), m(step(a, b, f, 1, w, h, r)));
    assert(are_updates(
        m(structure(a, 0, w, h, r)),
        m(structure(a, 1, w, h, r)),
        m(structure(a, 2, w, h, r)),
        m(summed_mismatch(a, b, f, 0, w, h, r)),
        m(summed_mismatch(a, b, f, 1, w, h, r)),
        m(f.u),
        m(f.v),
        w,
        h,
        u2,
        v2,
    ));
    assert forall|x: int, y: int| on_grid(x, y, w, h) implies #[trigger] is_cell_step(
        m(a),
        d,
        w,
        h,
        r as int,
        m(f.u),
        m(f.v),
        u2,
        v2,
        x,
        y,
    ) by {
        lemma_structure(m, a, w, h, r, x, y);
        lemma_summed_mismatch(m, k, a, b, f, w, h, r, x, y);
        let new = u2(x, y);
    }
}

pub(crate) proof fn lemma_refined(
    m: spec_fn(Tensor) -> Img,
    k: Kernels,
    a: Tensor,
    b: Tensor,
    f: Field,
    w: int,
    h: int,
    r: usize,
    iters: nat,
)
    requires
        kernels_work(m, k),
        is_grid(w, h),
        r <= u32::MAX,
    ensures
        is_device_steps(
            k,
            m(a),
            m(b),
            w,
            h,
            r as int,
            iters as int,
            m(f.u),
            m(f.v),
            m(refined(a, b, f, w, h, r, iters).u),
            m(refined(a, b, f, w, h, r, iters).v),
        ),
    decreases iters,
{
    if iters > 0 {
        let prior = refined(a, b, f, w, h, r, (iters - 1) as nat);
        lemma_refined(m, k, a, b, f, w, h, r, (iters - 1) as nat);
        lemma_step(m, k, a, b, prior, w, h, r);
    }
}

proof fn lemma_estimated(
    m: spec_fn(Tensor) -> Img,
    k: Kernels,
    a: Tensor,
    b: Tensor,
    w: int,
    h: int,
    r: usize,
    iters: nat,
    levels: int,
    l: int,
    pa: Seq<Img>,
    pb: Seq<Img>,
)
    requires
        kernels_work(m, k),
        is_grid(w, h),
        r <= u32::MAX,
        0 <= l < levels,
        pa.len() == levels,
        pb.len() == levels,
        forall|i: int| 0 <= i < levels ==> #[trigger] pa[i] == m(level_image(a, w, h, i)),
        forall|i: int| 0 <= i < levels ==> #[trigger] pb[i] == m(level_image(b, w, h, i)),
    ensures
        is_device_motion_at(
            k,
            pa,
            pb,
            w,
            h,
            r as int,
            iters as int,
            l,
            m(estimated(a, b, w, h, r, iters, levels, l).u),
            m(estimated(a, b, w, h, r, iters, levels, l).v),
        ),
    decreases levels - l,
{
    lemma_level_grid(w, h, l);
    let (lw, lh) = (level_side(w, l), level_side(h, l));
    let (cw, ch) = (level_side(w, l + 1), level_side(h, l + 1));
    let start = if l >= levels - 1 {
        at_rest()
    } else {
        upscaled(estimated(a, b, w, h, r, iters, levels, l + 1), lw, lh, cw, ch)
    };
    lemma_refined(m, k, level_image(a, w, h, l), level_image(b, w, h, l), start, lw, lh, r, iters);
    if l < levels - 1 {
        lemma_level_grid(w, h, l + 1);
        lemma_estimated(m, k, a, b, w, h, r, iters, levels, l + 1, pa, pb);
        let c = estimated(a, b, w, h, r, iters, levels, l + 1);
        let (cu, cv) = (m(c.u), m(c.v));
        assert(m(ran(
            Kernel::UpscaleFlow,
            2,
            seq![c.u, c.v],
            resize_params(lw, lh, cw, ch),
        )) == (k.lift)(cu, cw, ch, lw, lh));
        assert(m(ran(
            Kernel::UpscaleFlow,
            3,
            seq![c.u, c.v],
            resize_params(lw, lh, cw, ch),
        )) == (k.lift)(cv, cw, ch, lw, lh));
        assert(m(start.u) == (k.lift)(cu, cw, ch, lw, lh));
        assert(m(start.v) == (k.lift)(cv, cw, ch, lw, lh));
    }
    assert(pa[l] == m(level_image(a, w, h, l)));
    assert(pb[l] == m(level_image(b, w, h, l)));
}

/// The motion from one image to another on the device is that from the picture
/// of the first to the picture of the second, each component filtered by itself.
pub proof fn law_device_flow_is_the_motion_between(
    m: spec_fn(Tensor) -> Img,
    k: Kernels,
    a: Source,
    b: Source,
    w: int,
    h: int,
    r: usize,
    iters: usize,
    requested: usize,
)
    requires
        kernels_work(m, k),
        is_grid(w, h),
        r <= u32::MAX,
    ensures
        is_device_motion(
            k,
            m(Tensor::Image(a)),
            m(Tensor::Image(b)),
            w,
            h,
            r as int,
            iters as int,
            level_count(w, h, requested as int),
            m(flow_between(a, b, w, h, r, iters, requested).u),
            m(flow_between(a, b, w, h, r, iters, requested).v),
        ),
{
    let levels = level_count(w, h, requested as int);
    law_level_count(w, h, requested as int);
    let (ta, tb) = (Tensor::Image(a), Tensor::Image(b));
    let pa = lemma_level_images(m, ta, w, h, levels);
    let pb = lemma_level_images(m, tb, w, h, levels);
    lemma_estimated(m, k, ta, tb, w, h, r, iters as nat, levels, 0, pa, pb);
    let e = estimated(ta, tb, w, h, r, iters as nat, levels, 0);
    let (p, q) = (m(e.u), m(e.v));
    assert(m(smoothed(e, w, h).u) == (k.filter)(p, w, h));
    assert(m(smoothed(e, w, h).v) == (k.filter)(q, w, h));
    assert(is_device_motion_at(k, pa, pb, w, h, r as int, iters as int, 0, p, q));
}

/// Under any meaning of what buffers hold in which the median kernel filters the
/// image that it reads, each component of the motion on the device is the filter
/// of the same component of the solution.
pub proof fn law_components_are_filtered_apart<M>(
    m: spec_fn(Tensor) -> M,
    filter: spec_fn(M) -> M,
    a: Source,
    b: Source,
    w: int,
    h: int,
    r: usize,
    iters: usize,
    requested: usize,
)
    requires
        forall|t: Tensor|
            m(#[trigger] ran(Kernel::Median, 1, seq![t], dims(w, h))) == filter(m(t)),
    ensures
        ({
            let levels = level_count(w, h, requested as int);
            let (ta, tb) = (Tensor::Image(a), Tensor::Image(b));
            let e = estimated(ta, tb, w, h, r, iters as nat, levels, 0);
            let f = flow_between(a, b, w, h, r, iters, requested);
            m(f.u) == filter(m(e.u)) && m(f.v) == filter(m(e.v))
        }),
{
}

/// What a motion field on the device means.
pub open spec fn motion_of(m: spec_fn(Tensor) -> Img, d: Device, p: GpuFlowPair) -> (Img, Img) {
    (m(d.buffers[p.u as int].holds), m(d.buffers[p.v as int].holds))
}

/// The two motions that a frame is blurred along on the device: ahead, its motion
/// toward the next frame, and for the last frame of all none but its own; behind,
/// its motion toward the previous frame, or the kept motion of that frame turned
/// round.
pub open spec fn are_device_motions(
    m: spec_fn(Tensor) -> Img,
    k: Kernels,
    before: Device,
    s: Settings<u32>,
    role: Role,
    w: int,
    h: int,
    cache: Option<GpuFlowPair>,
    fu: Img,
    fv: Img,
    bu: Img,
    bv: Img,
) -> bool {
    let (r, iters) = (s.window as int, s.iters as int);
    let levels = level_count(w, h, s.levels as int);
    let here = m(Tensor::Image(Source::Current));
    let ahead = if role == Role::Last {
        here
    } else {
        m(Tensor::Image(Source::Next))
    };
    let behind = m(Tensor::Image(Source::Previous));
    &&& is_device_motion(k, here, ahead, w, h, r, iters, levels, fu, fv)
    &&& if s.flow_cache && role != Role::Last && cache is Some {
        let (cu, cv) = motion_of(m, before, cache->0);
        &&& same_on(bu, |x: int, y: int| -cu(x, y), w, h)
        &&& same_on(bv, |x: int, y: int| -cv(x, y), w, h)
    } else {
        is_device_motion(k, here, behind, w, h, r, iters, levels, bu, bv)
    }
}

/// What becomes of a frame on the device: what comes back last is the frame,
/// blurred along its motions with the shutter angle and the number of taps that
/// were asked for, and what is kept is the motion ahead.
pub proof fn law_device_blurs_along_the_motions(
    m: spec_fn(Tensor) -> Img,
    k: Kernels,
    before: Device,
    after: Device,
    s: Settings<u32>,
    role: Role,
    w: int,
    h: int,
    cache: Option<GpuFlowPair>,
    kept: Option<GpuFlowPair>,
)
    requires
        kernels_work(m, k),
        is_grid(w, h),
        s.window <= u32::MAX,
        s.samples <= u32::MAX,
        is_frame_done(before, after, s, role, w, h, cache, kept),
    ensures
        after.transfers.len() > before.transfers.len(),
        after.transfers.last() is Down,
        kept is Some <==> s.flow_cache && role != Role::Last,
        exists|fu: Img, fv: Img, bu: Img, bv: Img|
            {
                &&& m(after.transfers.last()->Down_0) == (k.blur)(
                    m(Tensor::Image(Source::Frame)),
                    fu,
                    fv,
                    bu,
                    bv,
                    w,
                    h,
                    s.samples as int,
                    s.shutter,
                )
                &&& #[trigger] are_device_motions(
                    m,
                    k,
                    before,
                    s,
                    role,
                    w,
                    h,
                    cache,
                    fu,
                    fv,
                    bu,
                    bv,
                )
                &&& kept is Some ==> motion_of(m, after, kept->0) == (fu, fv)
            },
{
    let f = forward_field(s, role, w, h);
    let g = backward_field(s, role, before, cache, w, h);
    let target = if role == Role::Last {
        Source::Current
    } else {
        Source::Next
    };
    let (fu, fv) = (m(f.u), m(f.v));
    let (bu, bv) = (m(g.u), m(g.v));
    let here = Source::Current;
    law_device_flow_is_the_motion_between(m, k, here, target, w, h, s.window, s.iters, s.levels);
    if is_reused(s, role, cache) {
        let (cu, cv) = motion_of(m, before, cache->0);
        let i = seq![
            before.buffers[cache->0.u as int].holds,
            before.buffers[cache->0.v as int].holds,
        ];
        assert(same_on(
            m(ran(Kernel::Negate, 2, i, dims(w, h))),
            |x: int, y: int| -m(i[0])(x, y),
            w,
            h,
        ));
        assert(same_on(
            m(ran(Kernel::Negate, 3, i, dims(w, h))),
            |x: int, y: int| -m(i[1])(x, y),
            w,
            h,
        ));
    } else {
        let behind = Source::Previous;
        law_device_flow_is_the_motion_between(
            m,
            k,
            here,
            behind,
            w,
            h,
            s.window,
            s.iters,
            s.levels,
        );
    }
    let out = motion_blurred(
        Tensor::Image(Source::Frame),
        f,
        g,
        w,
        h,
        s.shutter,
        s.samples,
    );
    let moved = frame_transfers(role, is_reused(s, role, cache), out);
    assert(moved.last() == Transfer::Down(out));
    assert(after.transfers.last() == moved.last());
    assert(are_device_motions(m, k, before, s, role, w, h, cache, fu, fv, bu, bv));
}

} // verus!
