use rsmb::frames::{Role, Settings};
use rsmb::gpu::device::{Command, GpuContext, Source};
use rsmb::gpu::flows::{
    gpu_build_pyramid, gpu_flow_single_device, gpu_flows_device, gpu_motion_blur, gpu_negate_flow,
    GpuFlowPair, GpuFrameFlows,
};
use rsmb::gpu::frame::{frame_commands, gpu_frame};
use rsmb::gpu::kernel::{Access, Kernel, Layout};

/// Follows commands as a device would, and checks each.
struct Replay {
    sizes: Vec<Option<usize>>,
    pending: bool,
    submits: usize,
    ups: Vec<Source>,
    downs: usize,
    kernels: Vec<Kernel>,
}

impl Replay {
    fn new() -> Replay {
        Replay {
            sizes: Vec::new(),
            pending: false,
            submits: 0,
            ups: Vec::new(),
            downs: 0,
            kernels: Vec::new(),
        }
    }

    fn make(&mut self, buffer: usize, floats: usize) {
        while self.sizes.len() <= buffer {
            self.sizes.push(None);
        }
        assert!(self.sizes[buffer].is_none());
        self.sizes[buffer] = Some(floats);
    }

    fn run(&mut self, commands: Vec<Command>) {
        for c in commands {
            match c {
                Command::Create { buffer, floats } => self.make(buffer, floats),
                Command::Upload { buffer, source, floats } => {
                    self.make(buffer, floats);
                    self.ups.push(source);
                }
                Command::Clear { buffer, bytes } => {
                    assert!(!self.pending);
                    assert_eq!(self.sizes[buffer], Some(bytes / 4));
                }
                Command::Dispatch { kernel, buffers, params, groups_x, groups_y } => {
                    let slots = kernel.layout().bindings();
                    assert_eq!(slots.len(), buffers.len() + 1);
                    for (i, b) in buffers.iter().enumerate() {
                        assert!(self.sizes[*b].is_some());
                        if slots[i] == Access::Write {
                            assert_eq!(buffers.iter().filter(|x| *x == b).count(), 1);
                            assert!(self.sizes[*b].unwrap() >= (params[0] * params[1]) as usize);
                        }
                    }
                    assert!(groups_x * 16 >= params[0] && (groups_x - 1) * 16 < params[0]);
                    assert!(groups_y * 16 >= params[1] && (groups_y - 1) * 16 < params[1]);
                    self.pending = true;
                    self.kernels.push(kernel);
                }
                Command::Submit => {
                    self.pending = false;
                    self.submits += 1;
                }
                Command::ReadBack { buffer, bytes } => {
                    assert!(!self.pending);
                    assert_eq!(self.sizes[buffer], Some(bytes / 4));
                    self.downs += 1;
                }
                Command::Release { buffer } => {
                    assert!(!self.pending);
                    assert!(self.sizes[buffer].is_some());
                    self.sizes[buffer] = None;
                }
            }
        }
    }

    fn live(&self) -> usize {
        self.sizes.iter().filter(|s| s.is_some()).count()
    }
}

fn settings(flow_cache: bool) -> Settings<u32> {
    Settings { shutter: (180.0f32).to_bits(), samples: 16, window: 7, iters: 2, levels: 3, flow_cache }
}

#[test]
fn every_kernel_has_a_place() {
    let all = Kernel::all();
    assert_eq!(all.len(), 15);
    for (i, k) in all.iter().enumerate() {
        assert_eq!(k.index(), i);
    }
    let layouts = Layout::all();
    assert_eq!(layouts.len(), 12);
    for (i, l) in layouts.iter().enumerate() {
        assert_eq!(l.index(), i);
    }
}

#[test]
fn kernels_name_their_entry_points() {
    let names: Vec<&str> = Kernel::all().into_iter().map(|k| k.entry_point()).collect();
    assert_eq!(
        names,
        vec![
            "gaussian_h",
            "gaussian_v",
            "downsample_2x",
            "gradients",
            "products",
            "box3_h",
            "box3_v",
            "box2_h",
            "box2_v",
            "warp_diff",
            "solve_update",
            "median_3x3",
            "upscale_flow_2x",
            "negate_flow",
            "motion_blur_px",
        ]
    );
    assert_eq!(Layout::Upscale.label(), "bgl-upscale");
    assert_eq!(Kernel::Box2V.layout(), Layout::Box2);
    assert_eq!(Kernel::GaussianH.layout(), Kernel::GaussianV.layout());
}

#[test]
fn bindings_list_reads_before_writes() {
    let (r, w, u) = (Access::Read, Access::Write, Access::Uniform);
    assert_eq!(Layout::Simple.bindings(), vec![r, w, u]);
    assert_eq!(Layout::Gradients.bindings(), vec![r, w, w, u]);
    assert_eq!(Layout::Warp.bindings(), vec![r, r, r, r, r, r, w, w, u]);
    assert_eq!(Layout::Blur.bindings(), vec![r, r, r, r, r, w, u]);
}

#[test]
fn a_pyramid_is_built_in_one_submission() {
    let mut ctx = GpuContext::new();
    let p = gpu_build_pyramid(&mut ctx, Source::Current, 100, 60, 3);
    assert_eq!(p.dims, vec![(100, 60), (50, 30), (25, 15)]);
    let mut r = Replay::new();
    r.run(ctx.take_commands());
    assert_eq!(r.submits, 1);
    assert_eq!(r.live(), 3);
    let (across, down, halve) = (Kernel::GaussianH, Kernel::GaussianV, Kernel::Downsample);
    assert_eq!(r.kernels, vec![across, down, halve, across, down, halve, across, down]);
    for (b, (w, h)) in p.bufs.iter().zip(&p.dims) {
        assert_eq!(r.sizes[*b], Some(w * h));
    }
    assert!(ctx.take_commands().is_empty());
}

#[test]
fn resizing_parameters_name_both_grids() {
    let mut ctx = GpuContext::new();
    gpu_build_pyramid(&mut ctx, Source::Current, 101, 60, 2);
    let found = ctx.take_commands().into_iter().find_map(|c| match c {
        Command::Dispatch { kernel: Kernel::Downsample, params, groups_x, groups_y, .. } => {
            Some((params, groups_x, groups_y))
        }
        _ => None,
    });
    assert_eq!(found, Some((vec![50, 30, 101, 60], 4, 2)));
}

#[test]
fn the_current_pyramid_is_shared() {
    let mut ctx = GpuContext::new();
    let flows = gpu_flows_device(
        &mut ctx,
        Source::Current,
        Source::Previous,
        Source::Next,
        64,
        64,
        7,
        5,
        0,
    );
    let mut r = Replay::new();
    r.run(ctx.take_commands());
    assert_eq!(r.ups, vec![Source::Current, Source::Previous, Source::Next]);
    assert_eq!(r.downs, 0);
    assert_eq!(r.live(), 4);
    for b in [flows.fwd.u, flows.fwd.v, flows.bwd.u, flows.bwd.v] {
        assert_eq!(r.sizes[b], Some(64 * 64));
    }
    // Two levels, five iterations each, two directions.
    assert_eq!(r.kernels.iter().filter(|k| **k == Kernel::SolveUpdate).count(), 20);
    assert_eq!(r.kernels.iter().filter(|k| **k == Kernel::UpscaleFlow).count(), 2);
    assert_eq!(r.kernels.iter().filter(|k| **k == Kernel::Median).count(), 4);
    // Three pyramids, three submissions for each solution, two medians.
    assert_eq!(r.submits, 11);
}

#[test]
fn one_direction_leaves_one_field() {
    let mut ctx = GpuContext::new();
    let f = gpu_flow_single_device(&mut ctx, Source::Current, Source::Next, 30, 20, 3, 1, 1);
    let n = gpu_negate_flow(&mut ctx, &f, 30, 20);
    let mut r = Replay::new();
    r.run(ctx.take_commands());
    assert_eq!(r.live(), 4);
    // Two pyramids, one level, the median, and the negation.
    assert_eq!(r.submits, 5);
    assert_eq!(r.sizes[n.u], Some(600));
    assert_eq!(r.kernels.last(), Some(&Kernel::Negate));
}

#[test]
fn the_blur_gets_its_parameters() {
    let mut ctx = GpuContext::new();
    let (a, b, c, d) =
        (ctx.storage_buf(600), ctx.storage_buf(600), ctx.storage_buf(600), ctx.storage_buf(600));
    let flows = GpuFrameFlows {
        fwd: GpuFlowPair { u: a, v: b },
        bwd: GpuFlowPair { u: c, v: d },
    };
    gpu_motion_blur(&mut ctx, &flows, 30, 20, (90.0f32).to_bits(), 8);
    let commands = ctx.take_commands();
    let found = commands.iter().find_map(|c| match c {
        Command::Dispatch { kernel: Kernel::Blur, buffers, params, groups_x, groups_y } => {
            Some((buffers.clone(), params.clone(), *groups_x, *groups_y))
        }
        _ => None,
    });
    let (buffers, params, gx, gy) = found.unwrap();
    assert_eq!(&buffers[1..5], &[a, b, c, d]);
    assert_eq!(params, vec![30, 20, 8, (90.0f32).to_bits()]);
    assert_eq!((gx, gy), (2, 2));
    let mut r = Replay::new();
    r.run(commands);
    assert_eq!(r.ups, vec![Source::Frame]);
    assert_eq!(r.downs, 1);
    assert_eq!(r.live(), 4);
}

#[test]
fn a_video_leaves_nothing_on_the_device() {
    for flow_cache in [false, true] {
        let s = settings(flow_cache);
        let mut ctx = GpuContext::new();
        let mut r = Replay::new();
        let mut cache = None;
        for i in 0..6 {
            let role = if i == 5 { Role::Last } else { Role::Middle };
            let ups = r.ups.len();
            let submits = r.submits;
            cache = gpu_frame(&mut ctx, &s, role, 80, 64, cache);
            r.run(ctx.take_commands());
            assert_eq!(r.downs, i + 1);
            assert_eq!(cache.is_some(), flow_cache && i < 5);
            assert_eq!(r.live(), if cache.is_some() { 2 } else { 0 });
            // Three levels take five submissions to solve.
            let expected = if i == 5 {
                2 * (5 + 3) + 1
            } else if flow_cache && i > 0 {
                5 + 3 + 2
            } else {
                2 * 5 + 5 + 1
            };
            assert_eq!(r.submits - submits, expected);
            let sent: Vec<Source> = r.ups[ups..].to_vec();
            let (cur, prev, next) = (Source::Current, Source::Previous, Source::Next);
            if i == 5 {
                assert_eq!(sent, vec![cur, cur, cur, prev, Source::Frame]);
            } else if flow_cache && i > 0 {
                assert_eq!(sent, vec![cur, next, Source::Frame]);
            } else {
                assert_eq!(sent, vec![cur, prev, next, Source::Frame]);
            }
        }
        // Numbers are used again.
        assert!(r.sizes.len() < 100);
    }
}

#[test]
fn an_only_frame_has_both_motions_estimated() {
    let mut ctx = GpuContext::new();
    let kept = gpu_frame(&mut ctx, &settings(false), Role::Only, 16, 16, None);
    assert!(kept.is_none());
    let mut r = Replay::new();
    r.run(ctx.take_commands());
    assert_eq!(r.live(), 0);
    assert_eq!(r.ups.len(), 4);
}

#[test]
fn new_motion_starts_from_zeros() {
    let mut ctx = GpuContext::new();
    gpu_flow_single_device(&mut ctx, Source::Current, Source::Next, 48, 48, 3, 1, 2);
    let cleared: Vec<usize> = ctx
        .take_commands()
        .into_iter()
        .filter_map(|c| match c {
            Command::Clear { bytes, .. } => Some(bytes),
            _ => None,
        })
        .collect();
    assert_eq!(cleared, vec![24 * 24 * 4, 24 * 24 * 4]);
}

#[test]
fn a_storage_buffer_is_never_empty() {
    let mut ctx = GpuContext::new();
    let b = ctx.storage_buf(0);
    let mut r = Replay::new();
    r.run(ctx.take_commands());
    assert_eq!(r.sizes[b], Some(1));
}

#[test]
fn every_call_adds_its_command() {
    let mut ctx = GpuContext::new();
    let a = ctx.storage_buf(12);
    let b = ctx.upload_buf(Source::Next, 12);
    ctx.clear(a);
    ctx.dispatch(Kernel::Median, vec![b, a], vec![4, 3]);
    ctx.submit();
    ctx.read_back(a);
    ctx.release(b);
    let cs = ctx.take_commands();
    assert_eq!(cs.len(), 7);
    assert!(matches!(cs[0], Command::Create { buffer, floats: 12 } if buffer == a));
    assert!(matches!(
        cs[1],
        Command::Upload { buffer, source: Source::Next, floats: 12 } if buffer == b
    ));
    assert!(matches!(cs[2], Command::Clear { buffer, bytes: 48 } if buffer == a));
    match &cs[3] {
        Command::Dispatch { kernel, buffers, params, groups_x, groups_y } => {
            assert_eq!(*kernel, Kernel::Median);
            assert_eq!((buffers, params), (&vec![b, a], &vec![4, 3]));
            assert_eq!((*groups_x, *groups_y), (1, 1));
        }
        other => panic!("{:?}", other),
    }
    assert!(matches!(cs[4], Command::Submit));
    assert!(matches!(cs[5], Command::ReadBack { buffer, bytes: 48 } if buffer == a));
    assert!(matches!(cs[6], Command::Release { buffer } if buffer == b));
    assert!(ctx.take_commands().is_empty());
}

#[test]
fn the_commands_of_a_frame_are_handed_over() {
    let mut ctx = GpuContext::new();
    let (cs, kept) = frame_commands(&mut ctx, &settings(true), Role::Middle, 80, 64, None);
    let submits = cs.iter().filter(|c| matches!(c, Command::Submit)).count();
    let fetches = cs.iter().filter(|c| matches!(c, Command::ReadBack { .. })).count();
    let uploads = cs.iter().filter(|c| matches!(c, Command::Upload { .. })).count();
    assert_eq!((submits, fetches, uploads), (2 * 5 + 5 + 1, 1, 4));
    let kept = kept.unwrap();
    let mut r = Replay::new();
    r.run(cs);
    assert_eq!(r.live(), 2);
    assert_eq!((r.sizes[kept.u], r.sizes[kept.v]), (Some(80 * 64), Some(80 * 64)));
    assert!(ctx.take_commands().is_empty());
}

#[test]
fn earlier_commands_come_first() {
    let mut ctx = GpuContext::new();
    let b = ctx.storage_buf(5);
    let (cs, _) = frame_commands(&mut ctx, &settings(false), Role::Middle, 16, 16, None);
    assert!(matches!(cs[0], Command::Create { buffer, floats: 5 } if buffer == b));
    let mut r = Replay::new();
    r.run(cs);
    assert_eq!(r.live(), 1);
}
