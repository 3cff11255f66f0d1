//! Motion estimation and motion blur on the device, from whole images.
use crate::gpu::device::{
    added, downs, fetches, goes_on, has_room, is_live, is_lot, refilled, submits, with_lot,
    Buffer, Device, GpuContext, Source, Tensor, Transfer,
};
use crate::gpu::stages::{
    blurred, downsampled, field, gradient_x, gradient_y, held, is_grid, median, mismatch,
    motion_blurred, negated, product, summed2, summed3, updated, upscaled, Field,
};
use crate::levels::{
    half_side, law_level_count, lemma_level_side, level_count, level_side, pyramid_level_count,
};
use vstd::prelude::*;

verus! {

/// A pyramid of images on the device, and the size of each level.
pub struct GpuPyramid {
    pub bufs: Vec<usize>,
    pub dims: Vec<(usize, usize)>,
}

/// A motion field on the device.
#[derive(Debug, Clone, Copy)]
pub struct GpuFlowPair {
    pub u: usize,
    pub v: usize,
}

/// Forward and backward motion of one frame, both on the device.
#[derive(Debug, Clone, Copy)]
pub struct GpuFrameFlows {
    pub fwd: GpuFlowPair,
    pub bwd: GpuFlowPair,
}

/// A product of the gradients of an image, summed over the window.
pub open spec fn structure(a: Tensor, which: int, w: int, h: int, r: usize) -> Tensor {
    let ix = gradient_x(a, w, h);
    let iy = gradient_y(a, w, h);
    summed3(
        product(ix, iy, 0, w, h),
        product(ix, iy, 1, w, h),
        product(ix, iy, 2, w, h),
        which,
        w,
        h,
        r,
    )
}

/// The mismatch of two images under a motion field, summed over the window.
pub open spec fn summed_mismatch(
    a: Tensor,
    b: Tensor,
    m: Field,
    which: int,
    w: int,
    h: int,
    r: usize,
) -> Tensor {
    let ix = gradient_x(a, w, h);
    let iy = gradient_y(a, w, h);
    summed2(
        mismatch(a, b, m, ix, iy, 0, w, h),
        mismatch(a, b, m, ix, iy, 1, w, h),
        which,
        w,
        h,
        r,
    )
}

/// A component of the motion after one more iteration.
pub open spec fn step(
    a: Tensor,
    b: Tensor,
    m: Field,
    which: int,
    w: int,
    h: int,
    r: usize,
) -> Tensor {
    updated(
        structure(a, 0, w, h, r),
        structure(a, 1, w, h, r),
        structure(a, 2, w, h, r),
        summed_mismatch(a, b, m, 0, w, h, r),
        summed_mismatch(a, b, m, 1, w, h, r),
        m,
        which,
        w,
        h,
    )
}

/// The motion after `iters` iterations.
pub open spec fn refined(
    a: Tensor,
    b: Tensor,
    m: Field,
    w: int,
    h: int,
    r: usize,
    iters: nat,
) -> Field
    decreases iters,
{
    if iters == 0 {
        m
    } else {
        let prior = refined(a, b, m, w, h, r, (iters - 1) as nat);
        Field { u: step(a, b, prior, 0, w, h, r), v: step(a, b, prior, 1, w, h, r) }
    }
}

/// Level `level` of the pyramid of an image: the image blurred, then each level
/// the one before it halved and blurred.
pub open spec fn level_image(t: Tensor, w: int, h: int, level: int) -> Tensor
    decreases level,
{
    if level <= 0 {
        blurred(t, w, h)
    } else {
        let (lw, lh) = (level_side(w, level), level_side(h, level));
        let half = downsampled(
            level_image(t, w, h, level - 1),
            lw,
            lh,
            level_side(w, level - 1),
            level_side(h, level - 1),
        );
        blurred(half, lw, lh)
    }
}

/// No motion at all.
pub open spec fn at_rest() -> Field {
    Field { u: Tensor::Zero, v: Tensor::Zero }
}

/// The motion at level `level` of two pyramids with `levels` levels: the
/// coarsest level starts at rest, each finer one from the level before it.
pub open spec fn estimated(
    a: Tensor,
    b: Tensor,
    w: int,
    h: int,
    r: usize,
    iters: nat,
    levels: int,
    level: int,
) -> Field
    decreases levels - level,
{
    let (lw, lh) = (level_side(w, level), level_side(h, level));
    let start = if level >= levels - 1 {
        at_rest()
    } else {
        upscaled(
            estimated(a, b, w, h, r, iters, levels, level + 1),
            lw,
            lh,
            level_side(w, level + 1),
            level_side(h, level + 1),
        )
    };
    refined(level_image(a, w, h, level), level_image(b, w, h, level), start, lw, lh, r, iters)
}

/// Both components of a motion field after the median filter.
pub open spec fn smoothed(m: Field, w: int, h: int) -> Field {
    Field { u: median(m.u, w, h), v: median(m.v, w, h) }
}

/// The motion from one image to another, `requested` levels asked for.
pub open spec fn flow_between(
    a: Source,
    b: Source,
    w: int,
    h: int,
    r: usize,
    iters: usize,
    requested: usize,
) -> Field {
    smoothed(
        estimated(
            Tensor::Image(a),
            Tensor::Image(b),
            w,
            h,
            r,
            iters as nat,
            level_count(w, h, requested as int),
            0,
        ),
        w,
        h,
    )
}

/// The buffers with two new ones that hold a motion field.
pub open spec fn with_pair(
    m: Map<int, Buffer>,
    p: GpuFlowPair,
    f: Field,
    words: int,
) -> Map<int, Buffer> {
    m.insert(p.u as int, Buffer { holds: f.u, words }).insert(
        p.v as int,
        Buffer { holds: f.v, words },
    )
}

/// Two distinct numbers that no buffer has.
pub open spec fn is_new_pair(m: Map<int, Buffer>, p: GpuFlowPair) -> bool {
    p.u != p.v && !m.contains_key(p.u as int) && !m.contains_key(p.v as int)
}

/// A motion field of `words` cells on the device.
pub open spec fn is_pair(d: Device, p: GpuFlowPair, words: int) -> bool {
    p.u != p.v && has_room(d, p.u as int, words) && has_room(d, p.v as int, words)
}

/// What a motion field on the device holds.
pub open spec fn flow_of(d: Device, p: GpuFlowPair) -> Field {
    field(d, p.u, p.v)
}

/// The device with other buffers, after some more submissions.
pub open spec fn worked(d: Device, buffers: Map<int, Buffer>, submissions: nat) -> Device {
    Device { buffers, submissions: d.submissions + submissions, ..d }
}

/// How often kernels are submitted to solve the motion over `levels` levels:
/// once for every level, and once between two of them.
pub open spec fn solve_submissions(levels: int) -> nat {
    (2 * levels - 1) as nat
}

/// How often kernels are submitted for the motion between two images: once for
/// each pyramid, for the solution, and once for the median filter.
pub open spec fn single_submissions(levels: int) -> nat {
    solve_submissions(levels) + 3
}

/// How often kernels are submitted for the motion of a frame in both
/// directions: once for each of three pyramids, for two solutions, and once for
/// the median filter of each.
pub open spec fn both_submissions(levels: int) -> nat {
    2 * solve_submissions(levels) + 5
}

/// One level of motion estimation, from the motion in `u` and `v` and back into
/// them. All iterations go to the device in a single submission.
pub fn gpu_lk_level(
    ctx: &mut GpuContext,
    a: usize,
    b: usize,
    w: usize,
    h: usize,
    u: usize,
    v: usize,
    win_r: usize,
    iters: usize,
)
    requires
        old(ctx).wf(),
        !old(ctx)@.pending,
        is_grid(w as int, h as int),
        has_room(old(ctx)@, a as int, w * h),
        has_room(old(ctx)@, b as int, w * h),
        has_room(old(ctx)@, u as int, w * h),
        has_room(old(ctx)@, v as int, w * h),
        u != v,
        u != a,
        u != b,
        v != a,
        v != b,
    ensures
        final(ctx).wf(),
        goes_on(old(ctx).recorded(), final(ctx).recorded()),
        submits(added(old(ctx).recorded(), final(ctx).recorded())) == 1,
        final(ctx)@ == ({
            let d = old(ctx)@;
            let m = refined(
                held(d, a),
                held(d, b),
                field(d, u, v),
                w as int,
                h as int,
                win_r,
                iters as nat,
            );
            worked(d, refilled(refilled(d.buffers, u as int, m.u), v as int, m.v), 1)
        }),
{
    let ghost before = *ctx;
    let n: usize = w * h;
    assert(n >= 1) by (nonlinear_arith)
        requires
            n == w * h,
            w >= 1,
            h >= 1,
    ;
    let ghost d0 = ctx@;
    let ghost (ta, tb) = (held(d0, a), held(d0, b));
    let ghost m0 = field(d0, u, v);
    let ghost (gw, gh) = (w as int, h as int);
    let s = ctx.storage_bufs(17, n);
    proof {
        assert forall|i: int| 0 <= i < 17 implies is_live(ctx@, #[trigger] s@[i] as int) by {
            assert(s@.contains(s@[i]));
        }
    }
    let (ix, iy): (usize, usize) = (s[0], s[1]);
    let (ix_sq, iy_sq, ix_iy): (usize, usize, usize) = (s[2], s[3], s[4]);
    let (ixx, iyy, ixy): (usize, usize, usize) = (s[5], s[6], s[7]);
    let (t0, t1, t2): (usize, usize, usize) = (s[8], s[9], s[10]);
    let (ixt, iyt): (usize, usize) = (s[11], s[12]);
    let (sxt, syt): (usize, usize) = (s[13], s[14]);
    let (u0, u1): (usize, usize) = (s[15], s[16]);

    ctx.enc_gradients(a, ix, iy, w, h);
    ctx.enc_products(ix, iy, ix_sq, iy_sq, ix_iy, w, h);
    ctx.enc_box3(ix_sq, iy_sq, ix_iy, ixx, iyy, ixy, t0, t1, t2, w, h, win_r);
    let mut done: usize = 0;
    while done < iters
        invariant
            done <= iters,
            ctx.wf(),
            goes_on(old(ctx).recorded(), ctx.recorded()),
            is_grid(w as int, h as int),
            n == w * h,
            gw == w,
            gh == h,
            s.len() == 17,
            is_lot(d0.buffers, s@),
            ix == s@[0],
            iy == s@[1],
            ixx == s@[5],
            iyy == s@[6],
            ixy == s@[7],
            ixt == s@[11],
            iyt == s@[12],
            sxt == s@[13],
            syt == s@[14],
            u0 == s@[15],
            u1 == s@[16],
            has_room(d0, a as int, n as int),
            has_room(d0, b as int, n as int),
            has_room(d0, u as int, n as int),
            has_room(d0, v as int, n as int),
            u != v,
            u != a,
            u != b,
            v != a,
            v != b,
            ta == held(d0, a),
            tb == held(d0, b),
            ctx@.submissions == d0.submissions,
            ctx@.transfers == d0.transfers,
            ctx@.buffers.dom() == with_lot(d0.buffers, s@, n as int).dom(),
            forall|i: int| 0 <= i < 17 ==> has_room(ctx@, #[trigger] s@[i] as int, n as int),
            forall|x: int| #[trigger]
                d0.buffers.contains_key(x) && x != u && x != v ==> ctx@.buffers[x] == d0.buffers[x],
            ctx@.buffers[u as int].words == d0.buffers[u as int].words,
            ctx@.buffers[v as int].words == d0.buffers[v as int].words,
            field(ctx@, u, v) == refined(ta, tb, m0, gw, gh, win_r, done as nat),
            held(ctx@, ix) == gradient_x(ta, gw, gh),
            held(ctx@, iy) == gradient_y(ta, gw, gh),
            held(ctx@, ixx) == structure(ta, 0, gw, gh, win_r),
            held(ctx@, iyy) == structure(ta, 1, gw, gh, win_r),
            held(ctx@, ixy) == structure(ta, 2, gw, gh, win_r),
        decreases iters - done,
    {
        let ghost m = field(ctx@, u, v);
        ctx.enc_warp(a, b, u, v, ix, iy, ixt, iyt, w, h);
        ctx.enc_box2(ixt, iyt, sxt, syt, u0, u1, w, h, win_r);
        assert(held(ctx@, sxt) == summed_mismatch(ta, tb, m, 0, gw, gh, win_r));
        assert(held(ctx@, syt) == summed_mismatch(ta, tb, m, 1, gw, gh, win_r));
        assert(field(ctx@, u, v) == m);
        ctx.enc_solve(ixx, iyy, ixy, sxt, syt, u, v, w, h);
        done += 1;
    }
    ctx.submit();
    ctx.release_all(&s);
    proof {
        let m = refined(ta, tb, m0, gw, gh, win_r, iters as nat);
        assert(ctx@.buffers =~= refilled(refilled(d0.buffers, u as int, m.u), v as int, m.v));
        GpuContext::law_added_commands_do_the_work(&before, ctx);
    }
}

/// Whether buffers were added to others, which stayed as they were.
pub open spec fn is_grown(
    before: Map<int, Buffer>,
    now: Map<int, Buffer>,
    added: Seq<usize>,
) -> bool {
    &&& is_lot(before, added)
    &&& forall|b: int| #[trigger]
        now.contains_key(b) <==> before.contains_key(b) || (0 <= b <= usize::MAX && added.contains(
            b as usize,
        ))
    &&& forall|b: int| #[trigger] before.contains_key(b) ==> now[b] == before[b]
}

impl GpuPyramid {
    /// The pyramid has the sizes and holds the levels that belong to an image
    /// of `w` by `h` cells.
    pub open spec fn is_of(self, d: Device, t: Tensor, w: int, h: int, levels: int) -> bool {
        &&& self.bufs@.len() == levels
        &&& self.dims@.len() == levels
        &&& forall|l: int|
            0 <= l < levels ==> #[trigger] self.dims@[l] == (
                level_side(w, l) as usize,
                level_side(h, l) as usize,
            )
        &&& forall|l: int|
            0 <= l < levels ==> is_level(d, #[trigger] self.bufs@[l], t, w, h, l)
    }
}

/// Whether a buffer holds a level of the pyramid of an image.
pub open spec fn is_level(d: Device, b: usize, t: Tensor, w: int, h: int, l: int) -> bool {
    &&& is_live(d, b as int)
    &&& d.buffers[b as int] == (Buffer {
        holds: level_image(t, w, h, l),
        words: level_side(w, l) * level_side(h, l),
    })
}

pub(crate) proof fn lemma_level_grid(w: int, h: int, l: int)
    requires
        is_grid(w, h),
        l >= 0,
    ensures
        is_grid(level_side(w, l), level_side(h, l)),
        1 <= level_side(w, l) <= w,
        1 <= level_side(h, l) <= h,
        1 <= level_side(w, l) * level_side(h, l) <= w * h,
{
    lemma_level_side(w, l);
    lemma_level_side(h, l);
    let (a, b) = (level_side(w, l), level_side(h, l));
    assert(1 <= a * b <= w * h) by (nonlinear_arith)
        requires
            1 <= a <= w,
            1 <= b <= h,
    ;
}

/// Builds the pyramid of an image in a single submission. Only its levels stay
/// on the device.
pub fn gpu_build_pyramid(
    ctx: &mut GpuContext,
    image: Source,
    w: usize,
    h: usize,
    levels: usize,
) -> (p: GpuPyramid)
    requires
        old(ctx).wf(),
        !old(ctx)@.pending,
        is_grid(w as int, h as int),
    ensures
        final(ctx).wf(),
        goes_on(old(ctx).recorded(), final(ctx).recorded()),
        submits(added(old(ctx).recorded(), final(ctx).recorded())) == 1,
        !final(ctx)@.pending,
        final(ctx)@.submissions == old(ctx)@.submissions + 1,
        final(ctx)@.transfers == old(ctx)@.transfers.push(Transfer::Up(image)),
        is_grown(old(ctx)@.buffers, final(ctx)@.buffers, p.bufs@),
        p.is_of(
            final(ctx)@,
            Tensor::Image(image),
            w as int,
            h as int,
            level_count(w as int, h as int, levels as int),
        ),
{
    let ghost before = *ctx;
    let count: usize = pyramid_level_count(w, h, levels);
    let ghost d0 = ctx@;
    let ghost t = Tensor::Image(image);
    let ghost (gw, gh) = (w as int, h as int);
    proof {
        lemma_level_grid(gw, gh, 0);
    }
    let n: usize = w * h;
    let base: usize = ctx.upload_buf(image, n);
    let blurred_base: usize = ctx.storage_buf(n);
    let tmp: usize = ctx.storage_buf(n);
    ctx.enc_gaussian(base, tmp, blurred_base, w, h);
    let mut bufs: Vec<usize> = Vec::new();
    let mut dims: Vec<(usize, usize)> = Vec::new();
    let mut spare: Vec<usize> = Vec::new();
    bufs.push(blurred_base);
    dims.push((w, h));
    spare.push(base);
    spare.push(tmp);
    let mut cw: usize = w;
    let mut ch: usize = h;
    let mut last: usize = blurred_base;
    let mut i: usize = 1;
    proof {
        assert(bufs@[0] == blurred_base);
        assert(spare@[0] == base);
        assert(spare@[1] == tmp);
    }
    while i < count
        invariant
            1 <= i <= count,
            is_grid(gw, gh),
            ctx.wf(),
            goes_on(old(ctx).recorded(), ctx.recorded()),
            ctx@.submissions == d0.submissions,
            ctx@.transfers == d0.transfers.push(Transfer::Up(image)),
            bufs.len() == i,
            dims.len() == i,
            last == bufs@[i - 1],
            cw == level_side(gw, i - 1),
            ch == level_side(gh, i - 1),
            forall|l: int|
                0 <= l < i ==> #[trigger] dims@[l] == (
                    level_side(gw, l) as usize,
                    level_side(gh, l) as usize,
                ),
            forall|l: int| 0 <= l < i ==> is_level(ctx@, #[trigger] bufs@[l], t, gw, gh, l),
            forall|j: int| 0 <= j < spare@.len() ==> is_live(ctx@, #[trigger] spare@[j] as int),
            forall|j: int, k: int|
                0 <= j < bufs@.len() && 0 <= k < spare@.len() ==> #[trigger] bufs@[j]
                    != #[trigger] spare@[k],
            is_lot(d0.buffers, bufs@),
            is_lot(d0.buffers, spare@),
            forall|x: int| #[trigger]
                ctx@.buffers.contains_key(x) ==> d0.buffers.contains_key(x) || (0 <= x
                    <= usize::MAX && (bufs@.contains(x as usize) || spare@.contains(x as usize))),
            forall|x: int| #[trigger]
                d0.buffers.contains_key(x) ==> ctx@.buffers.contains_key(x) && ctx@.buffers[x]
                    == d0.buffers[x],
        decreases count - i,
    {
        proof {
            lemma_level_grid(gw, gh, i - 1);
            lemma_level_grid(gw, gh, i as int);
        }
        let (nw, nh): (usize, usize) = (half_side(cw), half_side(ch));
        let ghost d1 = ctx@;
        let ghost (had, rest) = (bufs@, spare@);
        let down: usize = ctx.storage_buf(nw * nh);
        ctx.enc_downsample(last, down, cw, ch, nw, nh);
        let out: usize = ctx.storage_buf(nw * nh);
        let tmp2: usize = ctx.storage_buf(nw * nh);
        ctx.enc_gaussian(down, tmp2, out, nw, nh);
        bufs.push(out);
        dims.push((nw, nh));
        spare.push(down);
        spare.push(tmp2);
        proof {
            assert(bufs@[i as int] == out);
            assert(spare@[rest.len() as int] == down);
            assert(spare@[rest.len() as int + 1] == tmp2);
            assert forall|x: usize| had.contains(x) implies #[trigger] bufs@.contains(x) by {
                let j = choose|j: int| 0 <= j < had.len() && had[j] == x;
                assert(bufs@[j] == x);
            }
            assert forall|x: usize| rest.contains(x) implies #[trigger] spare@.contains(x) by {
                let j = choose|j: int| 0 <= j < rest.len() && rest[j] == x;
                assert(spare@[j] == x);
            }
            assert forall|j: int| 0 <= j < had.len() implies is_live(
                d1,
                #[trigger] bufs@[j] as int,
            ) by {
                assert(is_level(d1, had[j], t, gw, gh, j));
            }
            assert forall|j: int| 0 <= j < rest.len() implies is_live(
                d1,
                #[trigger] spare@[j] as int,
            ) by {
                assert(is_live(d1, rest[j] as int));
            }
        }
        last = out;
        cw = nw;
        ch = nh;
        i += 1;
    }
    ctx.submit();
    ctx.release_all(&spare);
    proof {
        GpuContext::law_added_commands_do_the_work(&before, ctx);
    }
    GpuPyramid { bufs, dims }
}

/// Whether two pyramids can be compared on their first `levels` levels.
pub open spec fn can_solve(d: Device, pa: GpuPyramid, pb: GpuPyramid, levels: int) -> bool {
    &&& 1 <= levels <= pa.bufs@.len()
    &&& pa.dims@.len() == pa.bufs@.len()
    &&& levels <= pb.bufs@.len()
    &&& forall|l: int| 0 <= l < levels ==> can_solve_level(d, pa, pb, l)
}

/// Whether two pyramids can be compared on one level.
pub open spec fn can_solve_level(d: Device, pa: GpuPyramid, pb: GpuPyramid, l: int) -> bool {
    let (w, h) = pa.dims@[l];
    &&& is_grid(w as int, h as int)
    &&& 4 * (w * h) <= usize::MAX
    &&& has_room(d, pa.bufs@[l] as int, w * h)
    &&& has_room(d, pb.bufs@[l] as int, w * h)
}

/// How many levels to use of a pyramid that has `built`, when `requested` were
/// asked for (zero: all of them).
pub open spec fn used_levels(requested: int, built: int) -> int {
    if requested == 0 || requested > built {
        built
    } else {
        requested
    }
}

/// How many cells a level of a pyramid has.
pub open spec fn level_cells(p: GpuPyramid, level: int) -> int {
    let (w, h) = p.dims@[level];
    w * h
}

/// The motion between two pyramids at level `level`, when `levels` are used.
pub open spec fn solved(
    d: Device,
    pa: GpuPyramid,
    pb: GpuPyramid,
    r: usize,
    iters: nat,
    levels: int,
    level: int,
) -> Field
    decreases levels - level,
{
    let (w, h) = pa.dims@[level];
    let start = if level >= levels - 1 {
        at_rest()
    } else {
        let (from_w, from_h) = pa.dims@[level + 1];
        upscaled(
            solved(d, pa, pb, r, iters, levels, level + 1),
            w as int,
            h as int,
            from_w as int,
            from_h as int,
        )
    };
    refined(
        held(d, pa.bufs@[level]),
        held(d, pb.bufs@[level]),
        start,
        w as int,
        h as int,
        r,
        iters,
    )
}

/// Solves the motion between two pyramids from the coarsest level down. Only
/// the result, of the size of the finest level, stays on the device.
pub fn gpu_solve_flow(
    ctx: &mut GpuContext,
    pa: &GpuPyramid,
    pb: &GpuPyramid,
    win_r: usize,
    iters: usize,
    levels: usize,
) -> (flow: GpuFlowPair)
    requires
        old(ctx).wf(),
        !old(ctx)@.pending,
        can_solve(old(ctx)@, *pa, *pb, used_levels(levels as int, pa.bufs@.len() as int)),
    ensures
        final(ctx).wf(),
        goes_on(old(ctx).recorded(), final(ctx).recorded()),
        is_new_pair(old(ctx)@.buffers, flow),
        final(ctx)@ == worked(
            old(ctx)@,
            with_pair(
                old(ctx)@.buffers,
                flow,
                solved(
                    old(ctx)@,
                    *pa,
                    *pb,
                    win_r,
                    iters as nat,
                    used_levels(levels as int, pa.bufs@.len() as int),
                    0,
                ),
                level_cells(*pa, 0),
            ),
            solve_submissions(used_levels(levels as int, pa.bufs@.len() as int)),
        ),
{
    let used: usize = if levels == 0 || levels > pa.bufs.len() {
        pa.bufs.len()
    } else {
        levels
    };
    let ghost d0 = ctx@;
    let mut lvl: usize = used - 1;
    assert(can_solve_level(d0, *pa, *pb, lvl as int));
    let (mut cw, mut ch): (usize, usize) = pa.dims[lvl];
    proof {
        lemma_level_grid(cw as int, ch as int, 0);
    }
    let mut u: usize = ctx.storage_buf(cw * ch);
    let mut v: usize = ctx.storage_buf(cw * ch);
    ctx.clear(u);
    ctx.clear(v);
    gpu_lk_level(ctx, pa.bufs[lvl], pb.bufs[lvl], cw, ch, u, v, win_r, iters);
    let ghost mut sol = solved(d0, *pa, *pb, win_r, iters as nat, used as int, lvl as int);
    assert(ctx@.buffers =~= with_pair(
        d0.buffers,
        GpuFlowPair { u, v },
        sol,
        cw * ch,
    ));
    while lvl > 0
        invariant
            lvl < used,
            ctx.wf(),
            goes_on(old(ctx).recorded(), ctx.recorded()),
            !d0.pending,
            can_solve(d0, *pa, *pb, used as int),
            is_new_pair(d0.buffers, GpuFlowPair { u, v }),
            pa.dims@[lvl as int] == (cw, ch),
            sol == solved(d0, *pa, *pb, win_r, iters as nat, used as int, lvl as int),
            ctx@ == worked(
                d0,
                with_pair(d0.buffers, GpuFlowPair { u, v }, sol, cw * ch),
                solve_submissions(used - lvl),
            ),
        decreases lvl,
    {
        proof {
            assert(can_solve_level(d0, *pa, *pb, lvl as int));
            assert(can_solve_level(d0, *pa, *pb, lvl - 1));
        }
        lvl -= 1;
        let (tw, th): (usize, usize) = pa.dims[lvl];
        proof {
            lemma_level_grid(tw as int, th as int, 0);
        }
        let u2: usize = ctx.storage_buf(tw * th);
        let v2: usize = ctx.storage_buf(tw * th);
        ctx.enc_upscale_flow(u, v, u2, v2, tw, th, cw, ch);
        ctx.submit();
        ctx.release(u);
        ctx.release(v);
        u = u2;
        v = v2;
        cw = tw;
        ch = th;
        gpu_lk_level(ctx, pa.bufs[lvl], pb.bufs[lvl], cw, ch, u, v, win_r, iters);
        proof {
            sol = solved(d0, *pa, *pb, win_r, iters as nat, used as int, lvl as int);
            assert(ctx@.buffers =~= with_pair(d0.buffers, GpuFlowPair { u, v }, sol, cw * ch));
        }
    }
    GpuFlowPair { u, v }
}

/// Median filter of both components of a motion field.
pub fn median_on_device(
    ctx: &mut GpuContext,
    flow: &GpuFlowPair,
    w: usize,
    h: usize,
) -> (smooth: GpuFlowPair)
    requires
        old(ctx).wf(),
        !old(ctx)@.pending,
        is_grid(w as int, h as int),
        is_pair(old(ctx)@, *flow, w * h),
    ensures
        final(ctx).wf(),
        goes_on(old(ctx).recorded(), final(ctx).recorded()),
        is_new_pair(old(ctx)@.buffers, smooth),
        final(ctx)@ == worked(
            old(ctx)@,
            with_pair(
                old(ctx)@.buffers,
                smooth,
                smoothed(flow_of(old(ctx)@, *flow), w as int, h as int),
                w * h,
            ),
            1,
        ),
{
    let ghost d0 = ctx@;
    proof {
        lemma_level_grid(w as int, h as int, 0);
    }
    let n: usize = w * h;
    let u: usize = ctx.storage_buf(n);
    let v: usize = ctx.storage_buf(n);
    ctx.enc_median(flow.u, u, w, h);
    ctx.enc_median(flow.v, v, w, h);
    ctx.submit();
    let smooth = GpuFlowPair { u, v };
    assert(ctx@.buffers =~= with_pair(
        d0.buffers,
        smooth,
        smoothed(flow_of(d0, *flow), w as int, h as int),
        w * h,
    ));
    smooth
}

/// Turns a motion field round.
pub fn gpu_negate_flow(
    ctx: &mut GpuContext,
    flow: &GpuFlowPair,
    w: usize,
    h: usize,
) -> (back: GpuFlowPair)
    requires
        old(ctx).wf(),
        !old(ctx)@.pending,
        is_grid(w as int, h as int),
        is_pair(old(ctx)@, *flow, w * h),
    ensures
        final(ctx).wf(),
        goes_on(old(ctx).recorded(), final(ctx).recorded()),
        is_new_pair(old(ctx)@.buffers, back),
        final(ctx)@ == worked(
            old(ctx)@,
            with_pair(
                old(ctx)@.buffers,
                back,
                negated(flow_of(old(ctx)@, *flow), w as int, h as int),
                w * h,
            ),
            1,
        ),
{
    let ghost d0 = ctx@;
    proof {
        lemma_level_grid(w as int, h as int, 0);
    }
    let n: usize = w * h;
    let u: usize = ctx.storage_buf(n);
    let v: usize = ctx.storage_buf(n);
    ctx.enc_negate(flow.u, flow.v, u, v, w, h);
    ctx.submit();
    let back = GpuFlowPair { u, v };
    assert(ctx@.buffers =~= with_pair(
        d0.buffers,
        back,
        negated(flow_of(d0, *flow), w as int, h as int),
        w * h,
    ));
    back
}

/// A pyramid stays what it is while its buffers stay as they are.
proof fn lemma_pyramid_kept(
    d: Device,
    now: Device,
    p: GpuPyramid,
    t: Tensor,
    w: int,
    h: int,
    levels: int,
)
    requires
        p.is_of(d, t, w, h, levels),
        forall|b: int| #[trigger]
            d.buffers.contains_key(b) ==> now.buffers.contains_key(b) && now.buffers[b]
                == d.buffers[b],
    ensures
        p.is_of(now, t, w, h, levels),
{
    assert forall|l: int| 0 <= l < levels implies is_level(
        now,
        #[trigger] p.bufs@[l],
        t,
        w,
        h,
        l,
    ) by {
        assert(is_level(d, p.bufs@[l], t, w, h, l));
    }
}

/// The pyramids of two images can be compared, and what comes out is the
/// motion between the images.
proof fn lemma_solved(
    d: Device,
    pa: GpuPyramid,
    pb: GpuPyramid,
    a: Tensor,
    b: Tensor,
    w: int,
    h: int,
    r: usize,
    iters: nat,
    levels: int,
    level: int,
)
    requires
        is_grid(w, h),
        4 * (w * h) <= usize::MAX,
        pa.is_of(d, a, w, h, levels),
        pb.is_of(d, b, w, h, levels),
        0 <= level < levels,
    ensures
        solved(d, pa, pb, r, iters, levels, level) == estimated(
            a,
            b,
            w,
            h,
            r,
            iters,
            levels,
            level,
        ),
        can_solve(d, pa, pb, levels),
        level_cells(pa, level) == level_side(w, level) * level_side(h, level),
    decreases levels - level,
{
    assert forall|l: int| 0 <= l < levels implies can_solve_level(d, pa, pb, l) by {
        lemma_level_grid(w, h, l);
        assert(is_level(d, pa.bufs@[l], a, w, h, l));
        assert(is_level(d, pb.bufs@[l], b, w, h, l));
        assert(pa.dims@[l] == (level_side(w, l) as usize, level_side(h, l) as usize));
    }
    lemma_level_grid(w, h, level);
    assert(is_level(d, pa.bufs@[level], a, w, h, level));
    assert(is_level(d, pb.bufs@[level], b, w, h, level));
    assert(pa.dims@[level] == (level_side(w, level) as usize, level_side(h, level) as usize));
    if level < levels - 1 {
        lemma_level_grid(w, h, level + 1);
        assert(pa.dims@[level + 1] == (
            level_side(w, level + 1) as usize,
            level_side(h, level + 1) as usize,
        ));
        lemma_solved(d, pa, pb, a, b, w, h, r, iters, levels, level + 1);
    }
}

/// The median-filtered motion between two pyramids.
fn smooth_flow(
    ctx: &mut GpuContext,
    pa: &GpuPyramid,
    pb: &GpuPyramid,
    a: Ghost<Source>,
    b: Ghost<Source>,
    w: usize,
    h: usize,
    win_r: usize,
    iters: usize,
    levels: usize,
) -> (flow: GpuFlowPair)
    requires
        old(ctx).wf(),
        !old(ctx)@.pending,
        is_grid(w as int, h as int),
        4 * (w * h) <= usize::MAX,
        pa.is_of(
            old(ctx)@,
            Tensor::Image(a@),
            w as int,
            h as int,
            level_count(w as int, h as int, levels as int),
        ),
        pb.is_of(
            old(ctx)@,
            Tensor::Image(b@),
            w as int,
            h as int,
            level_count(w as int, h as int, levels as int),
        ),
    ensures
        final(ctx).wf(),
        goes_on(old(ctx).recorded(), final(ctx).recorded()),
        is_new_pair(old(ctx)@.buffers, flow),
        final(ctx)@ == worked(
            old(ctx)@,
            with_pair(
                old(ctx)@.buffers,
                flow,
                flow_between(a@, b@, w as int, h as int, win_r, iters, levels),
                w * h,
            ),
            solve_submissions(level_count(w as int, h as int, levels as int)) + 1,
        ),
{
    let ghost d0 = ctx@;
    proof {
        let n = level_count(w as int, h as int, levels as int);
        law_level_count(w as int, h as int, levels as int);
        lemma_solved(
            d0,
            *pa,
            *pb,
            Tensor::Image(a@),
            Tensor::Image(b@),
            w as int,
            h as int,
            win_r,
            iters as nat,
            n,
            0,
        );
        assert(used_levels(levels as int, n) == n);
    }
    let raw = gpu_solve_flow(ctx, pa, pb, win_r, iters, levels);
    let flow = median_on_device(ctx, &raw, w, h);
    ctx.release(raw.u);
    ctx.release(raw.v);
    proof {
        let f = flow_between(a@, b@, w as int, h as int, win_r, iters, levels);
        assert(ctx@.buffers =~= with_pair(d0.buffers, flow, f, w * h));
    }
    flow
}

/// The motion from one image to another. Nothing comes back from the device,
/// and only the result stays there.
pub fn gpu_flow_single_device(
    ctx: &mut GpuContext,
    a: Source,
    b: Source,
    w: usize,
    h: usize,
    win_r: usize,
    iters: usize,
    levels: usize,
) -> (flow: GpuFlowPair)
    requires
        old(ctx).wf(),
        !old(ctx)@.pending,
        is_grid(w as int, h as int),
        4 * (w * h) <= usize::MAX,
    ensures
        final(ctx).wf(),
        goes_on(old(ctx).recorded(), final(ctx).recorded()),
        is_new_pair(old(ctx)@.buffers, flow),
        final(ctx)@ == (Device {
            buffers: with_pair(
                old(ctx)@.buffers,
                flow,
                flow_between(a, b, w as int, h as int, win_r, iters, levels),
                w * h,
            ),
            submissions: old(ctx)@.submissions + single_submissions(
                level_count(w as int, h as int, levels as int),
            ),
            transfers: old(ctx)@.transfers.push(Transfer::Up(a)).push(Transfer::Up(b)),
            ..old(ctx)@
        }),
{
    let ghost d0 = ctx@;
    let ghost n = level_count(w as int, h as int, levels as int);
    let pa = gpu_build_pyramid(ctx, a, w, h, levels);
    let ghost d1 = ctx@;
    let pb = gpu_build_pyramid(ctx, b, w, h, levels);
    let ghost d2 = ctx@;
    proof {
        lemma_pyramid_kept(d1, d2, pa, Tensor::Image(a), w as int, h as int, n);
    }
    let flow = smooth_flow(ctx, &pa, &pb, Ghost(a), Ghost(b), w, h, win_r, iters, levels);
    proof {
        lemma_lot_live(d0.buffers, d1.buffers, pa.bufs@);
        lemma_lot_live(d1.buffers, d2.buffers, pb.bufs@);
    }
    ctx.release_all(&pa.bufs);
    ctx.release_all(&pb.bufs);
    proof {
        let f = flow_between(a, b, w as int, h as int, win_r, iters, levels);
        assert(ctx@.buffers =~= with_pair(d0.buffers, flow, f, w * h));
    }
    flow
}

/// Forward and backward motion of a frame. Its pyramid is built once and used
/// for both. Nothing comes back from the device, and only the results stay
/// there.
pub fn gpu_flows_device(
    ctx: &mut GpuContext,
    cur: Source,
    prev: Source,
    next: Source,
    w: usize,
    h: usize,
    win_r: usize,
    iters: usize,
    levels: usize,
) -> (flows: GpuFrameFlows)
    requires
        old(ctx).wf(),
        !old(ctx)@.pending,
        is_grid(w as int, h as int),
        4 * (w * h) <= usize::MAX,
    ensures
        final(ctx).wf(),
        goes_on(old(ctx).recorded(), final(ctx).recorded()),
        is_new_pair(old(ctx)@.buffers, flows.fwd),
        is_new_pair(old(ctx)@.buffers, flows.bwd),
        are_apart(flows.fwd, flows.bwd),
        final(ctx)@ == (Device {
            buffers: with_pair(
                with_pair(
                    old(ctx)@.buffers,
                    flows.fwd,
                    flow_between(cur, next, w as int, h as int, win_r, iters, levels),
                    w * h,
                ),
                flows.bwd,
                flow_between(cur, prev, w as int, h as int, win_r, iters, levels),
                w * h,
            ),
            submissions: old(ctx)@.submissions + both_submissions(
                level_count(w as int, h as int, levels as int),
            ),
            transfers: old(ctx)@.transfers.push(Transfer::Up(cur)).push(Transfer::Up(prev)).push(
                Transfer::Up(next),
            ),
            ..old(ctx)@
        }),
{
    let ghost d0 = ctx@;
    let ghost n = level_count(w as int, h as int, levels as int);
    let pa = gpu_build_pyramid(ctx, cur, w, h, levels);
    let ghost d1 = ctx@;
    let pb_prev = gpu_build_pyramid(ctx, prev, w, h, levels);
    let ghost d2 = ctx@;
    let pb_next = gpu_build_pyramid(ctx, next, w, h, levels);
    let ghost d3 = ctx@;
    proof {
        lemma_pyramid_kept(d1, d2, pa, Tensor::Image(cur), w as int, h as int, n);
        lemma_pyramid_kept(d2, d3, pa, Tensor::Image(cur), w as int, h as int, n);
        lemma_pyramid_kept(d2, d3, pb_prev, Tensor::Image(prev), w as int, h as int, n);
    }
    let fwd = smooth_flow(ctx, &pa, &pb_next, Ghost(cur), Ghost(next), w, h, win_r, iters, levels);
    let ghost d4 = ctx@;
    proof {
        lemma_pyramid_kept(d3, d4, pa, Tensor::Image(cur), w as int, h as int, n);
        lemma_pyramid_kept(d3, d4, pb_prev, Tensor::Image(prev), w as int, h as int, n);
    }
    let bwd = smooth_flow(ctx, &pa, &pb_prev, Ghost(cur), Ghost(prev), w, h, win_r, iters, levels);
    proof {
        lemma_lot_live(d0.buffers, d1.buffers, pa.bufs@);
        lemma_lot_live(d1.buffers, d2.buffers, pb_prev.bufs@);
        lemma_lot_live(d2.buffers, d3.buffers, pb_next.bufs@);
    }
    ctx.release_all(&pa.bufs);
    ctx.release_all(&pb_prev.bufs);
    ctx.release_all(&pb_next.bufs);
    proof {
        let f = flow_between(cur, next, w as int, h as int, win_r, iters, levels);
        let b = flow_between(cur, prev, w as int, h as int, win_r, iters, levels);
        assert(ctx@.buffers =~= with_pair(with_pair(d0.buffers, fwd, f, w * h), bwd, b, w * h));
    }
    GpuFrameFlows { fwd, bwd }
}

/// Two motion fields that share no buffer.
pub open spec fn are_apart(p: GpuFlowPair, q: GpuFlowPair) -> bool {
    p.u != q.u && p.u != q.v && p.v != q.u && p.v != q.v
}

/// Blurs the current frame along its motion. The frame goes to the device, the
/// blurred one comes back, and neither stays there.
pub fn gpu_motion_blur(
    ctx: &mut GpuContext,
    flows: &GpuFrameFlows,
    w: usize,
    h: usize,
    shutter: u32,
    samples: usize,
)
    requires
        old(ctx).wf(),
        !old(ctx)@.pending,
        is_grid(w as int, h as int),
        4 * (w * h) <= usize::MAX,
        is_pair(old(ctx)@, flows.fwd, w * h),
        is_pair(old(ctx)@, flows.bwd, w * h),
    ensures
        final(ctx).wf(),
        goes_on(old(ctx).recorded(), final(ctx).recorded()),
        submits(added(old(ctx).recorded(), final(ctx).recorded())) == 1,
        fetches(added(old(ctx).recorded(), final(ctx).recorded())) == 1,
        final(ctx)@ == (Device {
            submissions: old(ctx)@.submissions + 1,
            transfers: old(ctx)@.transfers.push(Transfer::Up(Source::Frame)).push(
                Transfer::Down(
                    motion_blurred(
                        Tensor::Image(Source::Frame),
                        flow_of(old(ctx)@, flows.fwd),
                        flow_of(old(ctx)@, flows.bwd),
                        w as int,
                        h as int,
                        shutter,
                        samples,
                    ),
                ),
            ),
            ..old(ctx)@
        }),
{
    let ghost before = *ctx;
    let ghost d0 = ctx@;
    proof {
        lemma_level_grid(w as int, h as int, 0);
    }
    let n: usize = w * h;
    let frame: usize = ctx.upload_buf(Source::Frame, n);
    let out: usize = ctx.storage_buf(n);
    ctx.enc_blur(
        frame,
        flows.fwd.u,
        flows.fwd.v,
        flows.bwd.u,
        flows.bwd.v,
        out,
        w,
        h,
        shutter,
        samples,
    );
    ctx.submit();
    ctx.read_back(out);
    ctx.release(frame);
    ctx.release(out);
    assert(ctx@.buffers =~= d0.buffers);
    proof {
        GpuContext::law_added_commands_do_the_work(&before, ctx);
        let ts = d0.transfers.push(Transfer::Up(Source::Frame));
        assert(ts.drop_last() =~= d0.transfers);
        assert(ctx@.transfers.drop_last() =~= ts);
        assert(downs(ts) == downs(d0.transfers));
        assert(downs(ctx@.transfers) == downs(ts) + 1);
    }
}

/// Turning a motion field round undoes itself: under any meaning of what buffers
/// hold in which the negation kernel turns each component, and turning twice is
/// nothing, a field that was turned twice means what it meant at first.
pub proof fn law_negation_undoes_itself<M>(
    meaning: spec_fn(Tensor) -> M,
    turn: spec_fn(M) -> M,
    m: Field,
    w: int,
    h: int,
)
    requires
        forall|f: Field|
            #![trigger negated(f, w, h)]
            meaning(negated(f, w, h).u) == turn(meaning(f.u)) && meaning(negated(f, w, h).v)
                == turn(meaning(f.v)),
        forall|x: M| #[trigger] turn(turn(x)) == x,
    ensures
        meaning(negated(m, w, h).u) == turn(meaning(m.u)),
        meaning(negated(m, w, h).v) == turn(meaning(m.v)),
        meaning(negated(negated(m, w, h), w, h).u) == meaning(m.u),
        meaning(negated(negated(m, w, h), w, h).v) == meaning(m.v),
{
}

/// Buffers that were added are live, and were not before.
proof fn lemma_lot_live(before: Map<int, Buffer>, now: Map<int, Buffer>, added: Seq<usize>)
    requires
        is_grown(before, now, added),
    ensures
        forall|i: int| 0 <= i < added.len() ==> now.contains_key(#[trigger] added[i] as int),
        forall|x: usize| #[trigger] added.contains(x) ==> !before.contains_key(x as int),
{
    assert forall|i: int| 0 <= i < added.len() implies now.contains_key(
        #[trigger] added[i] as int,
    ) by {
        assert(added.contains(added[i]));
    }
}

} // verus!
