//! What each function that records work for the device leaves there, and which
//! commands it records.
use crate::frames::{Role, Settings};
use crate::gpu::device::{after_all, is_live, Command, Device, GpuContext, Source, Tensor, Transfer};
use crate::gpu::flows::{
    at_rest, gpu_build_pyramid, gpu_flow_single_device, gpu_flows_device, gpu_lk_level, is_grown,
    gpu_motion_blur, gpu_negate_flow, gpu_solve_flow, median_on_device, solved, GpuFlowPair,
    GpuFrameFlows, GpuPyramid,
};
use crate::gpu::frame::{frame_commands, gpu_frame};
use crate::gpu::kernel::Kernel;
use crate::gpu::meaning::{
    are_device_motions, is_device_motion, is_device_motion_at, is_device_steps, is_soft_pyramid,
    kernels_work, law_device_blurs_along_the_motions, law_device_flow_is_the_motion_between,
    lemma_level_images, lemma_refined, motion_of, Kernels,
};
use crate::gpu::stages::{dims, field, held, is_grid, ran, resize_params, upscaled};
use crate::levels::{law_level_count, lemma_level_side, level_count, level_side};
use crate::model::{same_on, Img};
use vstd::prelude::*;

verus! {

/// Some buffers are new on the device, and all others are as they were; no kernels
/// are left to be submitted.
pub open spec fn only_adds(before: Device, after: Device, new: Seq<usize>) -> bool {
    &&& !before.pending ==> !after.pending
    &&& forall|b: int| #[trigger]
        is_live(after, b) <==> is_live(before, b) || exists|i: int|
            0 <= i < new.len() && #[trigger] new[i] as int == b
    &&& forall|b: int| #[trigger] is_live(before, b) ==> after.buffers[b] == before.buffers[b]
    &&& forall|i: int| 0 <= i < new.len() ==> !is_live(before, #[trigger] new[i] as int)
}

proof fn lemma_only_adds_pair(before: Device, after: Device, p: GpuFlowPair)
    requires
        after.pending ==> before.pending,
        p.u != p.v,
        !is_live(before, p.u as int),
        !is_live(before, p.v as int),
        forall|b: int| #[trigger]
            is_live(after, b) <==> is_live(before, b) || b == p.u as int || b == p.v as int,
        forall|b: int| #[trigger] is_live(before, b) ==> after.buffers[b] == before.buffers[b],
    ensures
        only_adds(before, after, seq![p.u, p.v]),
{
    let new = seq![p.u, p.v];
    assert(new[0] == p.u && new[1] == p.v);
}

proof fn lemma_only_adds_lot(before: Device, after: Device, new: Seq<usize>)
    requires
        !after.pending,
        is_grown(before.buffers, after.buffers, new),
    ensures
        only_adds(before, after, new),
{
    assert forall|b: int| #[trigger]
        is_live(after, b) <==> is_live(before, b) || exists|i: int|
            0 <= i < new.len() && #[trigger] new[i] as int == b by {
        assert(after.buffers.contains_key(b) <==> before.buffers.contains_key(b) || (0 <= b
            <= usize::MAX && new.contains(b as usize)));
        if 0 <= b <= usize::MAX && new.contains(b as usize) {
            let i = choose|i: int| 0 <= i < new.len() && new[i] == b as usize;
            assert(new[i] as int == b);
        }
        if exists|i: int| 0 <= i < new.len() && #[trigger] new[i] as int == b {
            let i = choose|i: int| 0 <= i < new.len() && #[trigger] new[i] as int == b;
            assert(new[i] == b as usize);
        }
    }
    assert forall|b: int| #[trigger] is_live(before, b) implies after.buffers[b]
        == before.buffers[b] by {
        assert(before.buffers.contains_key(b));
    }
}

/// The motion from one image to another, whichever they are, is left on the device,
/// and both images were sent there.
pub proof fn law_single_flow_leaves_the_motion(
    m: spec_fn(Tensor) -> Img,
    k: Kernels,
    ctx: &mut GpuContext,
    a: Source,
    b: Source,
    w: usize,
    h: usize,
    win_r: usize,
    iters: usize,
    levels: usize,
    flow: GpuFlowPair,
)
    requires
        kernels_work(m, k),
        is_grid(w as int, h as int),
        win_r <= u32::MAX,
        call_ensures(gpu_flow_single_device, (ctx, a, b, w, h, win_r, iters, levels), flow),
    ensures
        only_adds(old(ctx)@, final(ctx)@, seq![flow.u, flow.v]),
        is_device_motion(
            k,
            m(Tensor::Image(a)),
            m(Tensor::Image(b)),
            w as int,
            h as int,
            win_r as int,
            iters as int,
            level_count(w as int, h as int, levels as int),
            motion_of(m, final(ctx)@, flow).0,
            motion_of(m, final(ctx)@, flow).1,
        ),
        final(ctx)@.transfers == old(ctx)@.transfers + seq![Transfer::Up(a), Transfer::Up(b)],
{
    lemma_only_adds_pair(old(ctx)@, final(ctx)@, flow);
    law_device_flow_is_the_motion_between(
        m,
        k,
        a,
        b,
        w as int,
        h as int,
        win_r,
        iters,
        levels,
    );
    assert(final(ctx)@.transfers =~= old(ctx)@.transfers + seq![Transfer::Up(a), Transfer::Up(b)]);
}

/// The motions of an image toward two others are left on the device: ahead toward
/// the next, behind toward the previous. Each image was sent there once.
pub proof fn law_both_flows_leave_both_motions(
    m: spec_fn(Tensor) -> Img,
    k: Kernels,
    ctx: &mut GpuContext,
    cur: Source,
    prev: Source,
    next: Source,
    w: usize,
    h: usize,
    win_r: usize,
    iters: usize,
    levels: usize,
    flows: GpuFrameFlows,
)
    requires
        kernels_work(m, k),
        is_grid(w as int, h as int),
        win_r <= u32::MAX,
        call_ensures(
            gpu_flows_device,
            (ctx, cur, prev, next, w, h, win_r, iters, levels),
            flows,
        ),
    ensures
        only_adds(
            old(ctx)@,
            final(ctx)@,
            seq![flows.fwd.u, flows.fwd.v, flows.bwd.u, flows.bwd.v],
        ),
        is_device_motion(
            k,
            m(Tensor::Image(cur)),
            m(Tensor::Image(next)),
            w as int,
            h as int,
            win_r as int,
            iters as int,
            level_count(w as int, h as int, levels as int),
            motion_of(m, final(ctx)@, flows.fwd).0,
            motion_of(m, final(ctx)@, flows.fwd).1,
        ),
        is_device_motion(
            k,
            m(Tensor::Image(cur)),
            m(Tensor::Image(prev)),
            w as int,
            h as int,
            win_r as int,
            iters as int,
            level_count(w as int, h as int, levels as int),
            motion_of(m, final(ctx)@, flows.bwd).0,
            motion_of(m, final(ctx)@, flows.bwd).1,
        ),
        final(ctx)@.transfers == old(ctx)@.transfers + seq![
            Transfer::Up(cur),
            Transfer::Up(prev),
            Transfer::Up(next),
        ],
{
    let new = seq![flows.fwd.u, flows.fwd.v, flows.bwd.u, flows.bwd.v];
    assert(new[0] == flows.fwd.u && new[1] == flows.fwd.v);
    assert(new[2] == flows.bwd.u && new[3] == flows.bwd.v);
    let (gw, gh) = (w as int, h as int);
    law_device_flow_is_the_motion_between(m, k, cur, next, gw, gh, win_r, iters, levels);
    law_device_flow_is_the_motion_between(m, k, cur, prev, gw, gh, win_r, iters, levels);
    assert(final(ctx)@.transfers =~= old(ctx)@.transfers + seq![
        Transfer::Up(cur),
        Transfer::Up(prev),
        Transfer::Up(next),
    ]);
}

/// A motion field on the device is turned round: each component by itself. The
/// field that it was made of stays.
pub proof fn law_negation_turns_each_component(
    m: spec_fn(Tensor) -> Img,
    k: Kernels,
    ctx: &mut GpuContext,
    flow: &GpuFlowPair,
    w: usize,
    h: usize,
    back: GpuFlowPair,
)
    requires
        kernels_work(m, k),
        is_grid(w as int, h as int),
        old(ctx)@.buffers.contains_key(flow.u as int),
        old(ctx)@.buffers.contains_key(flow.v as int),
        call_ensures(gpu_negate_flow, (ctx, flow, w, h), back),
    ensures
        only_adds(old(ctx)@, final(ctx)@, seq![back.u, back.v]),
        ({
            let (u, v) = motion_of(m, old(ctx)@, *flow);
            let (p, q) = motion_of(m, final(ctx)@, back);
            &&& same_on(p, |x: int, y: int| -u(x, y), w as int, h as int)
            &&& same_on(q, |x: int, y: int| -v(x, y), w as int, h as int)
            &&& motion_of(m, final(ctx)@, *flow) == (u, v)
        }),
{
    lemma_only_adds_pair(old(ctx)@, final(ctx)@, back);
    let (gw, gh) = (w as int, h as int);
    let i = seq![held(old(ctx)@, flow.u), held(old(ctx)@, flow.v)];
    assert(same_on(
        m(ran(Kernel::Negate, 2, i, dims(gw, gh))),
        |x: int, y: int| -m(i[0])(x, y),
        gw,
        gh,
    ));
    assert(same_on(
        m(ran(Kernel::Negate, 3, i, dims(gw, gh))),
        |x: int, y: int| -m(i[1])(x, y),
        gw,
        gh,
    ));
}

/// Each component of a motion field on the device is filtered by itself. The field
/// that it was made of stays.
pub proof fn law_median_filters_each_component(
    m: spec_fn(Tensor) -> Img,
    k: Kernels,
    ctx: &mut GpuContext,
    flow: &GpuFlowPair,
    w: usize,
    h: usize,
    smooth: GpuFlowPair,
)
    requires
        kernels_work(m, k),
        is_grid(w as int, h as int),
        old(ctx)@.buffers.contains_key(flow.u as int),
        old(ctx)@.buffers.contains_key(flow.v as int),
        call_ensures(median_on_device, (ctx, flow, w, h), smooth),
    ensures
        only_adds(old(ctx)@, final(ctx)@, seq![smooth.u, smooth.v]),
        ({
            let (u, v) = motion_of(m, old(ctx)@, *flow);
            &&& motion_of(m, final(ctx)@, smooth) == (
                (k.filter)(u, w as int, h as int),
                (k.filter)(v, w as int, h as int),
            )
            &&& motion_of(m, final(ctx)@, *flow) == (u, v)
        }),
{
    lemma_only_adds_pair(old(ctx)@, final(ctx)@, smooth);
}

/// One level of motion estimation on the device takes as many steps as it was asked
/// for, from the motion that was there; nothing else changes.
pub proof fn law_device_level_takes_steps(
    m: spec_fn(Tensor) -> Img,
    k: Kernels,
    ctx: &mut GpuContext,
    a: usize,
    b: usize,
    w: usize,
    h: usize,
    u: usize,
    v: usize,
    win_r: usize,
    iters: usize,
    other: int,
)
    requires
        kernels_work(m, k),
        is_grid(w as int, h as int),
        win_r <= u32::MAX,
        u != v,
        call_ensures(gpu_lk_level, (ctx, a, b, w, h, u, v, win_r, iters), ()),
    ensures
        is_device_steps(
            k,
            m(old(ctx)@.buffers[a as int].holds),
            m(old(ctx)@.buffers[b as int].holds),
            w as int,
            h as int,
            win_r as int,
            iters as int,
            m(old(ctx)@.buffers[u as int].holds),
            m(old(ctx)@.buffers[v as int].holds),
            m(final(ctx)@.buffers[u as int].holds),
            m(final(ctx)@.buffers[v as int].holds),
        ),
        other != u && other != v ==> final(ctx)@.buffers[other] == old(ctx)@.buffers[other],
        final(ctx)@.transfers == old(ctx)@.transfers,
{
    let d = old(ctx)@;
    lemma_refined(
        m,
        k,
        held(d, a),
        held(d, b),
        field(d, u, v),
        w as int,
        h as int,
        win_r,
        iters as nat,
    );
}

/// The pyramid of an image on the device has the levels that were asked for, each
/// the one before it halved and softened, and the sizes go with them.
pub proof fn law_device_pyramid_is_soft(
    m: spec_fn(Tensor) -> Img,
    k: Kernels,
    ctx: &mut GpuContext,
    image: Source,
    w: usize,
    h: usize,
    levels: usize,
    p: GpuPyramid,
    l: int,
)
    requires
        kernels_work(m, k),
        is_grid(w as int, h as int),
        call_ensures(gpu_build_pyramid, (ctx, image, w, h, levels), p),
        0 <= l < p.bufs@.len(),
    ensures
        only_adds(old(ctx)@, final(ctx)@, p.bufs@),
        p.bufs@.len() == level_count(w as int, h as int, levels as int),
        p.dims@.len() == p.bufs@.len(),
        p.dims@[l].0 == level_side(w as int, l),
        p.dims@[l].1 == level_side(h as int, l),
        is_soft_pyramid(
            m(Tensor::Image(image)),
            w as int,
            h as int,
            Seq::new(
                p.bufs@.len(),
                |i: int| m(final(ctx)@.buffers[p.bufs@[i] as int].holds),
            ),
        ),
        final(ctx)@.transfers == old(ctx)@.transfers + seq![Transfer::Up(image)],
{
    lemma_only_adds_lot(old(ctx)@, final(ctx)@, p.bufs@);
    let (gw, gh) = (w as int, h as int);
    let n = level_count(gw, gh, levels as int);
    law_level_count(gw, gh, levels as int);
    let t = Tensor::Image(image);
    let q = lemma_level_images(m, t, gw, gh, n);
    let d = final(ctx)@;
    let s = Seq::new(p.bufs@.len(), |i: int| m(d.buffers[p.bufs@[i] as int].holds));
    assert forall|i: int| 0 <= i < n implies #[trigger] s[i] == q[i] by {
        let b = p.bufs@[i];
    }
    assert(s =~= q);
    lemma_level_side(gw, l);
    lemma_level_side(gh, l);
    assert(p.dims@[l] == (level_side(gw, l) as usize, level_side(gh, l) as usize));
    assert(d.transfers =~= old(ctx)@.transfers + seq![Transfer::Up(image)]);
}

/// What the levels of a pyramid on the device mean.
pub open spec fn pictures_of(
    m: spec_fn(Tensor) -> Img,
    d: Device,
    p: GpuPyramid,
    levels: int,
) -> Seq<Img> {
    Seq::new(levels as nat, |i: int| m(d.buffers[p.bufs@[i] as int].holds))
}

proof fn lemma_solved_motion(
    m: spec_fn(Tensor) -> Img,
    k: Kernels,
    d: Device,
    pa: GpuPyramid,
    pb: GpuPyramid,
    w: int,
    h: int,
    r: usize,
    iters: nat,
    levels: int,
    l: int,
)
    requires
        kernels_work(m, k),
        r <= u32::MAX,
        0 <= l < levels,
        forall|i: int|
            #![trigger pa.dims@[i]]
            0 <= i < levels ==> pa.dims@[i].0 == level_side(w, i) && pa.dims@[i].1 == level_side(
                h,
                i,
            ) && is_grid(level_side(w, i), level_side(h, i)),
    ensures
        is_device_motion_at(
            k,
            pictures_of(m, d, pa, levels),
            pictures_of(m, d, pb, levels),
            w,
            h,
            r as int,
            iters as int,
            l,
            m(solved(d, pa, pb, r, iters, levels, l).u),
            m(solved(d, pa, pb, r, iters, levels, l).v),
        ),
    decreases levels - l,
{
    let (qa, qb) = (pictures_of(m, d, pa, levels), pictures_of(m, d, pb, levels));
    let size = pa.dims@[l];
    let (lw, lh) = (level_side(w, l), level_side(h, l));
    let (cw, ch) = (level_side(w, l + 1), level_side(h, l + 1));
    let start = if l >= levels - 1 {
        at_rest()
    } else {
        upscaled(solved(d, pa, pb, r, iters, levels, l + 1), lw, lh, cw, ch)
    };
    lemma_refined(
        m,
        k,
        held(d, pa.bufs@[l]),
        held(d, pb.bufs@[l]),
        start,
        lw,
        lh,
        r,
        iters,
    );
    if l < levels - 1 {
        let coarse = pa.dims@[l + 1];
        lemma_solved_motion(m, k, d, pa, pb, w, h, r, iters, levels, l + 1);
        let c = solved(d, pa, pb, r, iters, levels, l + 1);
        let (cu, cv) = (m(c.u), m(c.v));
        let (i, p) = (seq![c.u, c.v], resize_params(lw, lh, cw, ch));
        assert(m(ran(Kernel::UpscaleFlow, 2, i, p)) == (k.lift)(cu, cw, ch, lw, lh));
        assert(m(ran(Kernel::UpscaleFlow, 3, i, p)) == (k.lift)(cv, cw, ch, lw, lh));
        assert(m(start.u) == (k.lift)(cu, cw, ch, lw, lh));
        assert(m(start.v) == (k.lift)(cv, cw, ch, lw, lh));
    }
    assert(qa[l] == m(held(d, pa.bufs@[l])));
    assert(qb[l] == m(held(d, pb.bufs@[l])));
}

/// The motion between two pyramids on the device is estimated from the coarsest of
/// the levels that are used down to the finest: as many as were asked for, or all
/// where none or too many were.
pub proof fn law_solution_is_the_motion(
    m: spec_fn(Tensor) -> Img,
    k: Kernels,
    ctx: &mut GpuContext,
    pa: &GpuPyramid,
    pb: &GpuPyramid,
    w: int,
    h: int,
    win_r: usize,
    iters: usize,
    requested: usize,
    levels: int,
    flow: GpuFlowPair,
)
    requires
        kernels_work(m, k),
        win_r <= u32::MAX,
        levels == (if 0 < requested <= pa.bufs@.len() {
            requested as int
        } else {
            pa.bufs@.len() as int
        }),
        levels >= 1,
        forall|i: int|
            #![trigger pa.dims@[i]]
            0 <= i < levels ==> pa.dims@[i].0 == level_side(w, i) && pa.dims@[i].1 == level_side(
                h,
                i,
            ) && is_grid(level_side(w, i), level_side(h, i)),
        call_ensures(gpu_solve_flow, (ctx, pa, pb, win_r, iters, requested), flow),
    ensures
        only_adds(old(ctx)@, final(ctx)@, seq![flow.u, flow.v]),
        is_device_motion_at(
            k,
            pictures_of(m, old(ctx)@, *pa, levels),
            pictures_of(m, old(ctx)@, *pb, levels),
            w,
            h,
            win_r as int,
            iters as int,
            0,
            motion_of(m, final(ctx)@, flow).0,
            motion_of(m, final(ctx)@, flow).1,
        ),
{
    lemma_only_adds_pair(old(ctx)@, final(ctx)@, flow);
    lemma_solved_motion(m, k, old(ctx)@, *pa, *pb, w, h, win_r, iters as nat, levels, 0);
}

/// The frame goes to the device, and what comes back is the frame, blurred along the
/// forward and the backward motion that were given.
pub proof fn law_device_blur_follows_the_motions(
    m: spec_fn(Tensor) -> Img,
    k: Kernels,
    ctx: &mut GpuContext,
    flows: &GpuFrameFlows,
    w: usize,
    h: usize,
    shutter: u32,
    samples: usize,
)
    requires
        kernels_work(m, k),
        is_grid(w as int, h as int),
        samples <= u32::MAX,
        call_ensures(gpu_motion_blur, (ctx, flows, w, h, shutter, samples), ()),
    ensures
        ({
            let n = old(ctx)@.transfers.len() as int;
            let ts = final(ctx)@.transfers;
            let (fu, fv) = motion_of(m, old(ctx)@, flows.fwd);
            let (bu, bv) = motion_of(m, old(ctx)@, flows.bwd);
            &&& ts.len() == n + 2
            &&& ts.take(n) == old(ctx)@.transfers
            &&& ts[n] == Transfer::Up(Source::Frame)
            &&& ts[n + 1] is Down
            &&& m(ts[n + 1]->Down_0) == (k.blur)(
                m(Tensor::Image(Source::Frame)),
                fu,
                fv,
                bu,
                bv,
                w as int,
                h as int,
                samples as int,
                shutter,
            )
            &&& final(ctx)@.buffers == old(ctx)@.buffers
        }),
{
    let n = old(ctx)@.transfers.len() as int;
    assert(final(ctx)@.transfers.take(n) =~= old(ctx)@.transfers);
}

/// A frame on the device is blurred along its own motions; see
/// `law_device_blurs_along_the_motions`.
pub proof fn law_device_frame_follows_its_motions(
    m: spec_fn(Tensor) -> Img,
    k: Kernels,
    ctx: &mut GpuContext,
    s: &Settings<u32>,
    role: Role,
    w: usize,
    h: usize,
    cache: Option<GpuFlowPair>,
    kept: Option<GpuFlowPair>,
)
    requires
        kernels_work(m, k),
        is_grid(w as int, h as int),
        s.window <= u32::MAX,
        s.samples <= u32::MAX,
        call_ensures(gpu_frame, (ctx, s, role, w, h, cache), kept),
    ensures
        final(ctx)@.transfers.last() is Down,
        exists|fu: Img, fv: Img, bu: Img, bv: Img|
            {
                &&& m(final(ctx)@.transfers.last()->Down_0) == (k.blur)(
                    m(Tensor::Image(Source::Frame)),
                    fu,
                    fv,
                    bu,
                    bv,
                    w as int,
                    h as int,
                    s.samples as int,
                    s.shutter,
                )
                &&& #[trigger] are_device_motions(
                    m,
                    k,
                    old(ctx)@,
                    *s,
                    role,
                    w as int,
                    h as int,
                    cache,
                    fu,
                    fv,
                    bu,
                    bv,
                )
                &&& kept is Some ==> motion_of(m, final(ctx)@, kept->0) == (fu, fv)
            },
{
    law_device_blurs_along_the_motions(
        m,
        k,
        old(ctx)@,
        final(ctx)@,
        *s,
        role,
        w as int,
        h as int,
        cache,
        kept,
    );
}

/// Of all that a frame needs on the device only the motion that is kept stays, in
/// two buffers of the size of a frame; the one that was kept before is gone, and all
/// other buffers are as they were.
pub proof fn law_frames_leave_the_kept_motion(
    ctx: &mut GpuContext,
    s: &Settings<u32>,
    role: Role,
    w: usize,
    h: usize,
    cache: Option<GpuFlowPair>,
    kept: Option<GpuFlowPair>,
    b: int,
)
    requires
        call_ensures(gpu_frame, (ctx, s, role, w, h, cache), kept),
    ensures
        ({
            let given_up = cache is Some && (b == cache->0.u || b == cache->0.v);
            let stays = kept is Some && (b == kept->0.u || b == kept->0.v);
            &&& is_live(final(ctx)@, b) <==> stays || (is_live(old(ctx)@, b) && !given_up)
            &&& stays ==> final(ctx)@.buffers[b].words == w * h && (is_live(old(ctx)@, b)
                ==> given_up)
            &&& !stays && is_live(final(ctx)@, b) ==> final(ctx)@.buffers[b] == old(
                ctx,
            )@.buffers[b]
            &&& kept is Some ==> kept->0.u != kept->0.v
            &&& !final(ctx)@.pending
        }),
{
}

/// The commands that are handed over for a frame do that work: they take the device
/// to where the frame, blurred along its motions, came back last.
pub proof fn law_handed_over_commands_blur_the_frame(
    m: spec_fn(Tensor) -> Img,
    k: Kernels,
    ctx: &mut GpuContext,
    s: &Settings<u32>,
    role: Role,
    w: usize,
    h: usize,
    cache: Option<GpuFlowPair>,
    r: (Vec<Command>, Option<GpuFlowPair>),
)
    requires
        kernels_work(m, k),
        is_grid(w as int, h as int),
        s.window <= u32::MAX,
        s.samples <= u32::MAX,
        call_ensures(frame_commands, (ctx, s, role, w, h, cache), r),
    ensures
        after_all(old(ctx).recorded().0, r.0@) == final(ctx)@,
        final(ctx).recorded().1.len() == 0,
        final(ctx)@.transfers.last() is Down,
        exists|fu: Img, fv: Img, bu: Img, bv: Img|
            {
                &&& m(final(ctx)@.transfers.last()->Down_0) == (k.blur)(
                    m(Tensor::Image(Source::Frame)),
                    fu,
                    fv,
                    bu,
                    bv,
                    w as int,
                    h as int,
                    s.samples as int,
                    s.shutter,
                )
                &&& #[trigger] are_device_motions(
                    m,
                    k,
                    old(ctx)@,
                    *s,
                    role,
                    w as int,
                    h as int,
                    cache,
                    fu,
                    fv,
                    bu,
                    bv,
                )
                &&& r.1 is Some ==> motion_of(m, final(ctx)@, r.1->0) == (fu, fv)
            },
{
    law_device_blurs_along_the_motions(
        m,
        k,
        old(ctx)@,
        final(ctx)@,
        *s,
        role,
        w as int,
        h as int,
        cache,
        r.1,
    );
}

/// The commands of a record, with one more behind them.
pub open spec fn is_joined_by(before: Seq<Command>, now: Seq<Command>, c: Command) -> bool {
    now.len() == before.len() + 1 && now.last() == c && now.drop_last() == before
}

/// A call for a storage buffer records that one is made, with room for at least one
/// word, under a number that no buffer has.
pub proof fn law_storage_is_made(ctx: &mut GpuContext, n: usize, buffer: usize)
    requires
        call_ensures(GpuContext::storage_buf, (ctx, n), buffer),
    ensures
        ({
            let floats: usize = if n == 0 {
                1
            } else {
                n
            };
            is_joined_by(
                old(ctx).recorded().1,
                final(ctx).recorded().1,
                (Command::Create { buffer, floats }),
            )
        }),
        !is_live(old(ctx)@, buffer as int),
{
    let floats: usize = if n == 0 {
        1
    } else {
        n
    };
    let c = Command::Create { buffer, floats };
    assert(old(ctx).recorded().1.push(c).drop_last() =~= old(ctx).recorded().1);
}

/// A call to send an image records that it is sent, whole, under a number that no
/// buffer has.
pub proof fn law_images_are_sent(ctx: &mut GpuContext, source: Source, n: usize, buffer: usize)
    requires
        call_ensures(GpuContext::upload_buf, (ctx, source, n), buffer),
    ensures
        is_joined_by(
            old(ctx).recorded().1,
            final(ctx).recorded().1,
            (Command::Upload { buffer, source, floats: n }),
        ),
        !is_live(old(ctx)@, buffer as int),
{
    let c = Command::Upload { buffer, source, floats: n };
    assert(old(ctx).recorded().1.push(c).drop_last() =~= old(ctx).recorded().1);
}

/// Calls to clear, fetch and give back a buffer record that, of the whole buffer.
pub proof fn law_buffers_are_handled_whole(
    clear: &mut GpuContext,
    fetch: &mut GpuContext,
    release: &mut GpuContext,
    buffer: usize,
)
    requires
        4 * old(clear)@.buffers[buffer as int].words <= usize::MAX,
        0 <= old(clear)@.buffers[buffer as int].words,
        4 * old(fetch)@.buffers[buffer as int].words <= usize::MAX,
        0 <= old(fetch)@.buffers[buffer as int].words,
        call_ensures(GpuContext::clear, (clear, buffer), ()),
        call_ensures(GpuContext::read_back, (fetch, buffer), ()),
        call_ensures(GpuContext::release, (release, buffer), ()),
    ensures
        ({
            let now = final(clear).recorded().1;
            &&& is_joined_by(old(clear).recorded().1, now, now.last())
            &&& now.last() matches Command::Clear { buffer: b, bytes } && b == buffer && bytes == 4
                * old(clear)@.buffers[buffer as int].words
        }),
        ({
            let now = final(fetch).recorded().1;
            &&& is_joined_by(old(fetch).recorded().1, now, now.last())
            &&& now.last() matches Command::ReadBack { buffer: b, bytes } && b == buffer && bytes
                == 4 * old(fetch)@.buffers[buffer as int].words
        }),
        is_joined_by(
            old(release).recorded().1,
            final(release).recorded().1,
            (Command::Release { buffer }),
        ),
{
    let a = final(clear).recorded().1.last();
    assert(old(clear).recorded().1.push(a).drop_last() =~= old(clear).recorded().1);
    let b = final(fetch).recorded().1.last();
    assert(old(fetch).recorded().1.push(b).drop_last() =~= old(fetch).recorded().1);
    let c = Command::Release { buffer };
    assert(old(release).recorded().1.push(c).drop_last() =~= old(release).recorded().1);
}

/// A call to run a kernel records the kernel with its buffers and parameters, on
/// workgroups that cover the grid.
pub proof fn law_kernels_are_started(
    ctx: &mut GpuContext,
    kernel: Kernel,
    buffers: Vec<usize>,
    params: Vec<u32>,
)
    requires
        params@.len() >= 2,
        params@[0] <= u32::MAX - 15,
        params@[1] <= u32::MAX - 15,
        call_ensures(GpuContext::dispatch, (ctx, kernel, buffers, params), ()),
    ensures
        ({
            let now = final(ctx).recorded().1;
            &&& is_joined_by(old(ctx).recorded().1, now, now.last())
            &&& now.last() matches Command::Dispatch {
                kernel: k,
                buffers: b,
                params: p,
                groups_x,
                groups_y,
            } && {
                &&& k == kernel
                &&& b == buffers
                &&& p == params
                &&& 16 * (groups_x - 1) < params@[0] <= 16 * groups_x || (params@[0] == 0
                    && groups_x == 1)
                &&& 16 * (groups_y - 1) < params@[1] <= 16 * groups_y || (params@[1] == 0
                    && groups_y == 1)
            }
        }),
{
    let c = final(ctx).recorded().1.last();
    assert(old(ctx).recorded().1.push(c).drop_last() =~= old(ctx).recorded().1);
}

/// A call to start the recorded kernels records that, and handing over the commands
/// gives all of them away and leaves the device as it is.
pub proof fn law_commands_are_handed_over(
    submit: &mut GpuContext,
    take: &mut GpuContext,
    cs: Vec<Command>,
)
    requires
        call_ensures(GpuContext::submit, (submit,), ()),
        call_ensures(GpuContext::take_commands, (take,), cs),
    ensures
        is_joined_by(old(submit).recorded().1, final(submit).recorded().1, Command::Submit),
        cs@ == old(take).recorded().1,
        final(take).recorded().1.len() == 0,
        final(take).recorded().0 == old(take)@,
        final(take)@ == old(take)@,
{
    let c = Command::Submit;
    assert(old(submit).recorded().1.push(c).drop_last() =~= old(submit).recorded().1);
}

/// A call for several buffers makes as many new ones, each of its own, and changes
/// no other; giving a list of buffers back takes these away and no others.
pub proof fn law_lots_are_made_and_given_back(
    make: &mut GpuContext,
    count: usize,
    n: usize,
    all: Vec<usize>,
    release: &mut GpuContext,
    list: &Vec<usize>,
    b: int,
    i: int,
    j: int,
)
    requires
        call_ensures(GpuContext::storage_bufs, (make, count, n), all),
        call_ensures(GpuContext::release_all, (release, list), ()),
    ensures
        all@.len() == count,
        0 <= i < j < count ==> all@[i] != all@[j],
        0 <= i < count ==> !is_live(old(make)@, all@[i] as int) && is_live(
            final(make)@,
            all@[i] as int,
        ) && final(make)@.buffers[all@[i] as int].words == n,
        is_live(old(make)@, b) ==> is_live(final(make)@, b) && final(make)@.buffers[b] == old(
            make,
        )@.buffers[b],
        is_live(final(release)@, b) <==> is_live(old(release)@, b) && !(exists|p: int|
            0 <= p < list@.len() && #[trigger] list@[p] as int == b),
        is_live(final(release)@, b) ==> final(release)@.buffers[b] == old(release)@.buffers[b],
{
    if 0 <= i < count {
        assert(all@.contains(all@[i]));
    }
    if 0 <= b <= usize::MAX {
        assert(list@.contains(b as usize) <==> exists|p: int|
            0 <= p < list@.len() && #[trigger] list@[p] as int == b) by {
            if list@.contains(b as usize) {
                let p = choose|p: int| 0 <= p < list@.len() && list@[p] == b as usize;
                assert(list@[p] as int == b);
            }
            if exists|p: int| 0 <= p < list@.len() && #[trigger] list@[p] as int == b {
                let p = choose|p: int| 0 <= p < list@.len() && #[trigger] list@[p] as int == b;
                assert(list@[p] == b as usize);
            }
        }
    }
}

} // verus!
