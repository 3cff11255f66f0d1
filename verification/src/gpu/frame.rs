//! One frame on the device: its motion in both directions, then the blur.
use crate::frames::{Role, Settings};
use crate::gpu::device::{
    added, after_all, all_allowed, downs, fetches, goes_on, law_commands_are_counted, submits,
    uploads, ups, Buffer, Command, Device, GpuContext, Source, Tensor, Transfer,
};
use crate::gpu::flows::{
    are_apart, both_submissions, flow_between, flow_of, gpu_flow_single_device, gpu_flows_device,
    gpu_motion_blur, gpu_negate_flow, is_new_pair, is_pair, single_submissions, with_pair,
    GpuFlowPair, GpuFrameFlows,
};
use crate::gpu::stages::{is_grid, motion_blurred, negated, Field};
use crate::levels::level_count;
use vstd::prelude::*;

verus! {

/// Whether the backward motion comes from the one that was kept.
pub open spec fn is_reused(s: Settings<u32>, role: Role, cache: Option<GpuFlowPair>) -> bool {
    s.flow_cache && role != Role::Last && cache is Some
}

/// The forward motion of a frame: to the next frame, or for the last one to
/// itself.
pub open spec fn forward_field(s: Settings<u32>, role: Role, w: int, h: int) -> Field {
    let target = if role == Role::Last {
        Source::Current
    } else {
        Source::Next
    };
    flow_between(Source::Current, target, w, h, s.window, s.iters, s.levels)
}

/// The backward motion of a frame: to the previous frame, or the kept motion
/// turned round.
pub open spec fn backward_field(
    s: Settings<u32>,
    role: Role,
    d: Device,
    cache: Option<GpuFlowPair>,
    w: int,
    h: int,
) -> Field {
    match cache {
        Some(ahead) if is_reused(s, role, cache) => negated(flow_of(d, ahead), w, h),
        _ => flow_between(
            Source::Current,
            Source::Previous,
            w,
            h,
            s.window,
            s.iters,
            s.levels,
        ),
    }
}

/// How often kernels are submitted for a frame, with `levels` pyramid levels:
/// for its motion, and once for the blur.
pub open spec fn frame_submissions(role: Role, reused: bool, levels: int) -> nat {
    if role == Role::Last {
        2 * single_submissions(levels) + 1
    } else if reused {
        single_submissions(levels) + 2
    } else {
        both_submissions(levels) + 1
    }
}

/// All that crosses between the host and the device for a frame.
pub open spec fn frame_transfers(role: Role, reused: bool, blurred: Tensor) -> Seq<Transfer> {
    let images = if role == Role::Last {
        seq![
            Transfer::Up(Source::Current),
            Transfer::Up(Source::Current),
            Transfer::Up(Source::Current),
            Transfer::Up(Source::Previous),
        ]
    } else if reused {
        seq![Transfer::Up(Source::Current), Transfer::Up(Source::Next)]
    } else {
        seq![
            Transfer::Up(Source::Current),
            Transfer::Up(Source::Previous),
            Transfer::Up(Source::Next),
        ]
    };
    images + seq![Transfer::Up(Source::Frame), Transfer::Down(blurred)]
}

/// The buffers without those of a kept motion field.
pub open spec fn without_kept(m: Map<int, Buffer>, kept: Option<GpuFlowPair>) -> Map<int, Buffer> {
    match kept {
        Some(p) => m.remove(p.u as int).remove(p.v as int),
        None => m,
    }
}

/// The buffers with those of a motion field that is kept.
pub open spec fn with_kept(
    m: Map<int, Buffer>,
    kept: Option<GpuFlowPair>,
    f: Field,
    words: int,
) -> Map<int, Buffer> {
    match kept {
        Some(p) => with_pair(m, p, f, words),
        None => m,
    }
}

/// The device before and after the work of a frame: the blurred frame came back,
/// the old motion was given up, the one to keep is there, and nothing else stays.
pub open spec fn is_frame_done(
    before: Device,
    after: Device,
    s: Settings<u32>,
    role: Role,
    w: int,
    h: int,
    cache: Option<GpuFlowPair>,
    kept: Option<GpuFlowPair>,
) -> bool {
    let forward = forward_field(s, role, w, h);
    let backward = backward_field(s, role, before, cache, w, h);
    let blurred = motion_blurred(
        Tensor::Image(Source::Frame),
        forward,
        backward,
        w,
        h,
        s.shutter,
        s.samples,
    );
    let reused = is_reused(s, role, cache);
    let rest = without_kept(before.buffers, cache);
    &&& !after.pending
    &&& kept is Some <==> s.flow_cache && role != Role::Last
    &&& kept is Some ==> is_new_pair(rest, kept->0) && is_pair(after, kept->0, w * h)
    &&& after.buffers == with_kept(rest, kept, forward, w * h)
    &&& after.submissions == before.submissions + frame_submissions(
        role,
        reused,
        level_count(w, h, s.levels as int),
    )
    &&& after.transfers == before.transfers + frame_transfers(role, reused, blurred)
}

/// Commands that start the kernels as often as a frame asks for, and fetch one
/// buffer.
pub open spec fn is_frame_sent(
    cs: Seq<Command>,
    s: Settings<u32>,
    role: Role,
    w: int,
    h: int,
    cache: Option<GpuFlowPair>,
) -> bool {
    &&& submits(cs) == frame_submissions(
        role,
        is_reused(s, role, cache),
        level_count(w, h, s.levels as int),
    )
    &&& fetches(cs) == 1
}

/// Blurs the frame at hand on the device. `cache` is the forward motion kept
/// from the frame before; the one to keep for the next frame comes back. No
/// other buffer stays on the device.
pub fn gpu_frame(
    ctx: &mut GpuContext,
    s: &Settings<u32>,
    role: Role,
    w: usize,
    h: usize,
    cache: Option<GpuFlowPair>,
) -> (kept: Option<GpuFlowPair>)
    requires
        old(ctx).wf(),
        !old(ctx)@.pending,
        is_grid(w as int, h as int),
        4 * (w * h) <= usize::MAX,
        cache is Some ==> is_pair(old(ctx)@, cache->0, w * h),
    ensures
        final(ctx).wf(),
        goes_on(old(ctx).recorded(), final(ctx).recorded()),
        is_frame_done(old(ctx)@, final(ctx)@, *s, role, w as int, h as int, cache, kept),
        is_frame_sent(
            added(old(ctx).recorded(), final(ctx).recorded()),
            *s,
            role,
            w as int,
            h as int,
            cache,
        ),
{
    let ghost before = *ctx;
    let ghost d0 = ctx@;
    let ghost (gw, gh) = (w as int, h as int);
    let last: bool = match role {
        Role::Last => true,
        _ => false,
    };
    let flows: GpuFrameFlows = if last {
        let fwd = gpu_flow_single_device(
            ctx,
            Source::Current,
            Source::Current,
            w,
            h,
            s.window,
            s.iters,
            s.levels,
        );
        let bwd = gpu_flow_single_device(
            ctx,
            Source::Current,
            Source::Previous,
            w,
            h,
            s.window,
            s.iters,
            s.levels,
        );
        GpuFrameFlows { fwd, bwd }
    } else {
        match &cache {
            Some(ahead) if s.flow_cache => {
                let bwd = gpu_negate_flow(ctx, ahead, w, h);
                let fwd = gpu_flow_single_device(
                    ctx,
                    Source::Current,
                    Source::Next,
                    w,
                    h,
                    s.window,
                    s.iters,
                    s.levels,
                );
                GpuFrameFlows { fwd, bwd }
            },
            _ => gpu_flows_device(
                ctx,
                Source::Current,
                Source::Previous,
                Source::Next,
                w,
                h,
                s.window,
                s.iters,
                s.levels,
            ),
        }
    };
    let ghost d1 = ctx@;
    proof {
        assert(are_apart(flows.fwd, flows.bwd));
        assert(flow_of(d1, flows.fwd) == forward_field(*s, role, gw, gh));
        assert(flow_of(d1, flows.bwd) == backward_field(*s, role, d0, cache, gw, gh));
    }
    gpu_motion_blur(ctx, &flows, w, h, s.shutter, s.samples);
    ctx.release(flows.bwd.u);
    ctx.release(flows.bwd.v);
    match &cache {
        Some(ahead) => {
            ctx.release(ahead.u);
            ctx.release(ahead.v);
        },
        None => {},
    }
    let kept: Option<GpuFlowPair> = if s.flow_cache && !last {
        Some(flows.fwd)
    } else {
        ctx.release(flows.fwd.u);
        ctx.release(flows.fwd.v);
        None
    };
    proof {
        let f = forward_field(*s, role, gw, gh);
        assert(ctx@.buffers =~= with_kept(without_kept(d0.buffers, cache), kept, f, w * h));
        let b = motion_blurred(
            Tensor::Image(Source::Frame),
            f,
            backward_field(*s, role, d0, cache, gw, gh),
            gw,
            gh,
            s.shutter,
            s.samples,
        );
        assert(ctx@.transfers =~= d0.transfers + frame_transfers(
            role,
            is_reused(*s, role, cache),
            b,
        ));
        GpuContext::law_added_commands_do_the_work(&before, ctx);
        law_commands_of_a_frame(
            d0,
            added(before.recorded(), ctx.recorded()),
            role,
            is_reused(*s, role, cache),
            level_count(gw, gh, s.levels as int),
            b,
        );
    }
    kept
}

/// Blurs the frame at hand, as `gpu_frame` does, and hands over the commands that
/// do the work, together with any that were recorded before.
pub fn frame_commands(
    ctx: &mut GpuContext,
    s: &Settings<u32>,
    role: Role,
    w: usize,
    h: usize,
    cache: Option<GpuFlowPair>,
) -> (r: (Vec<Command>, Option<GpuFlowPair>))
    requires
        old(ctx).wf(),
        !old(ctx)@.pending,
        is_grid(w as int, h as int),
        4 * (w * h) <= usize::MAX,
        cache is Some ==> is_pair(old(ctx)@, cache->0, w * h),
    ensures
        final(ctx).wf(),
        final(ctx).recorded() == (final(ctx)@, Seq::<Command>::empty()),
        is_frame_done(old(ctx)@, final(ctx)@, *s, role, w as int, h as int, cache, r.1),
        goes_on(old(ctx).recorded(), (old(ctx).recorded().0, r.0@)),
        all_allowed(old(ctx).recorded().0, r.0@),
        after_all(old(ctx).recorded().0, r.0@) == final(ctx)@,
        is_frame_sent(
            added(old(ctx).recorded(), (old(ctx).recorded().0, r.0@)),
            *s,
            role,
            w as int,
            h as int,
            cache,
        ),
{
    let kept = gpu_frame(ctx, s, role, w, h, cache);
    (ctx.take_commands(), kept)
}

/// Motion fields never leave the device: all that comes back for a frame is
/// the blurred image, once, at the very end.
pub proof fn law_only_the_image_comes_back(role: Role, reused: bool, blurred: Tensor, i: int)
    requires
        0 <= i < frame_transfers(role, reused, blurred).len(),
    ensures
        frame_transfers(role, reused, blurred)[i] is Down <==> i == frame_transfers(
            role,
            reused,
            blurred,
        ).len() - 1,
        frame_transfers(role, reused, blurred).last() == Transfer::Down(blurred),
{
}

proof fn lemma_transfers_of_sum(a: Seq<Transfer>, b: Seq<Transfer>)
    ensures
        downs(a + b) == downs(a) + downs(b),
        ups(a + b) == ups(a) + ups(b),
    decreases b.len(),
{
    if b.len() == 0 {
        assert(a + b =~= a);
    } else {
        assert((a + b).drop_last() =~= a + b.drop_last());
        lemma_transfers_of_sum(a, b.drop_last());
    }
}

/// Commands that do the work of a frame start the kernels exactly as often as
/// the frame asks for, fetch one buffer, and send every image the frame needs.
pub proof fn law_commands_of_a_frame(
    d: Device,
    cs: Seq<Command>,
    role: Role,
    reused: bool,
    levels: int,
    blurred: Tensor,
)
    requires
        after_all(d, cs).submissions == d.submissions + frame_submissions(role, reused, levels),
        after_all(d, cs).transfers == d.transfers + frame_transfers(role, reused, blurred),
    ensures
        submits(cs) == frame_submissions(role, reused, levels),
        fetches(cs) == 1,
        uploads(cs) == frame_transfers(role, reused, blurred).len() - 1,
{
    law_commands_are_counted(d, cs);
    let ts = frame_transfers(role, reused, blurred);
    lemma_transfers_of_sum(d.transfers, ts);
    assert(downs(ts) == 1 && ups(ts) == ts.len() - 1) by {
        reveal_with_fuel(downs, 7);
        reveal_with_fuel(ups, 7);
    }
}

/// From frame to frame nothing but the kept motion stays on the device: where
/// that was all there was before a frame, it is all there is after it.
pub proof fn law_nothing_is_left_behind(
    before: Map<int, Buffer>,
    cache: Option<GpuFlowPair>,
    after: Map<int, Buffer>,
    kept: Option<GpuFlowPair>,
    f: Field,
    words: int,
)
    requires
        without_kept(before, cache) == Map::<int, Buffer>::empty(),
        after == with_kept(without_kept(before, cache), kept, f, words),
    ensures
        without_kept(after, kept) == Map::<int, Buffer>::empty(),
{
    assert(without_kept(after, kept) =~= Map::<int, Buffer>::empty());
}

} // verus!
