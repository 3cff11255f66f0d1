//! What single commands do to the device, and how kernels are told apart.
use crate::frames::{Role, Settings};
use crate::gpu::device::{
    after, fetches, is_allowed, is_live, submits, written, Buffer, Command, Device,
    GpuContext, Tensor, Transfer,
};
use crate::gpu::flows::{used_levels, GpuFlowPair};
use crate::gpu::frame::is_frame_sent;
use crate::gpu::kernel::{Access, Kernel, Layout};
use crate::levels::level_count;
use vstd::prelude::*;

verus! {

/// The workgroups of a kernel, sixteen cells wide and high, cover the grid, and
/// none lies outside it.
pub proof fn law_workgroups_cover_the_grid(
    d: Device,
    kernel: Kernel,
    buffers: Vec<usize>,
    params: Vec<u32>,
    groups_x: u32,
    groups_y: u32,
)
    requires
        is_allowed(d, (Command::Dispatch { kernel, buffers, params, groups_x, groups_y })),
    ensures
        16 * groups_x >= params@[0],
        16 * groups_y >= params@[1],
        params@[0] > 0 ==> 16 * (groups_x - 1) < params@[0],
        params@[1] > 0 ==> 16 * (groups_y - 1) < params@[1],
        groups_x >= 1,
        groups_y >= 1,
{
}

proof fn lemma_written(
    m: Map<int, Buffer>,
    kernel: Kernel,
    buffers: Seq<usize>,
    params: Seq<u32>,
    upto: int,
    b: int,
)
    requires
        kernel.reads() >= 0,
        upto <= buffers.len(),
        forall|i: int| 0 <= i < buffers.len() ==> m.contains_key(#[trigger] buffers[i] as int),
        forall|i: int, j: int|
            kernel.reads() <= i < buffers.len() && 0 <= j < i ==> #[trigger] buffers[i]
                != #[trigger] buffers[j],
    ensures
        ({
            let now = written(m, kernel, buffers, params, upto);
            &&& now.contains_key(b) <==> m.contains_key(b)
            &&& (forall|i: int| kernel.reads() <= i < upto ==> #[trigger] buffers[i] != b)
                ==> now[b] == m[b]
            &&& forall|i: int|
                kernel.reads() <= i < upto && #[trigger] buffers[i] == b ==> {
                    &&& now[b].words == m[b].words
                    &&& now[b].holds == (Tensor::Output {
                        kernel,
                        slot: i,
                        inputs: Seq::new(
                            kernel.inputs() as nat,
                            |j: int| m[buffers[j] as int].holds,
                        ),
                        params,
                    })
                }
        }),
    decreases upto,
{
    if upto > kernel.reads() && upto > 0 {
        lemma_written(m, kernel, buffers, params, upto - 1, b);
        let last = buffers[upto - 1];
    }
}

/// A kernel changes the buffers that are bound to be written and no others: each
/// then holds what the kernel makes of what its inputs held before, by the
/// parameters that it was given.
pub proof fn law_kernels_write_their_outputs(
    d: Device,
    kernel: Kernel,
    buffers: Vec<usize>,
    params: Vec<u32>,
    groups_x: u32,
    groups_y: u32,
    b: int,
    i: int,
    j: int,
)
    requires
        is_allowed(d, (Command::Dispatch { kernel, buffers, params, groups_x, groups_y })),
        is_live(d, b),
        0 <= i < buffers@.len(),
    ensures
        ({
            let now = after(d, (Command::Dispatch { kernel, buffers, params, groups_x, groups_y }));
            let given = kernel.bind_layout().reads();
            &&& is_live(now, b)
            &&& now.transfers == d.transfers
            &&& now.submissions == d.submissions
            &&& now.pending
            &&& now.buffers[b].words == d.buffers[b].words
            &&& (forall|n: int| given <= n < buffers@.len() ==> #[trigger] buffers@[n] != b)
                ==> now.buffers[b] == d.buffers[b]
            &&& given <= i && buffers@[i] == b ==> {
                let made = now.buffers[b].holds;
                &&& made is Output
                &&& made->kernel == kernel
                &&& made->slot == i
                &&& made->params == params@
                &&& 0 <= j < given ==> j < made->inputs.len() && made->inputs[j]
                    == d.buffers[buffers@[j] as int].holds
            }
        }),
{
    lemma_written(d.buffers, kernel, buffers@, params@, kernel.buffers(), b);
    if exists|n: int|
        kernel.reads() <= n < buffers@.len() && #[trigger] buffers@[n] as int == b {
        let n = choose|n: int|
            kernel.reads() <= n < buffers@.len() && #[trigger] buffers@[n] as int == b;
        assert(buffers@[n] as int == b);
    }
}

/// Nothing but the buffer that a command names changes: a new one is empty, an
/// image that was sent is there, a cleared one holds zeros throughout, one that was
/// fetched comes back whole and stays, and one that was given back is gone. What
/// the host does directly never overtakes recorded kernels.
pub proof fn law_commands_touch_what_they_name(d: Device, c: Command, b: int)
    requires
        is_allowed(d, c),
    ensures
        c matches Command::Create { buffer, floats } ==> {
            &&& !is_live(d, buffer as int) && is_live(after(d, c), buffer as int)
            &&& after(d, c).buffers[buffer as int].holds is Raw
            &&& after(d, c).buffers[buffer as int].words == floats
            &&& after(d, c).transfers == d.transfers
            &&& after(d, c).submissions == d.submissions
            &&& after(d, c).pending == d.pending
            &&& b != buffer ==> after(d, c).buffers[b] == d.buffers[b] && is_live(after(d, c), b)
                == is_live(d, b)
        },
        c matches Command::Upload { buffer, source, floats } ==> {
            &&& !is_live(d, buffer as int) && is_live(after(d, c), buffer as int)
            &&& after(d, c).buffers[buffer as int].holds == Tensor::Image(source)
            &&& after(d, c).buffers[buffer as int].words == floats
            &&& after(d, c).transfers == d.transfers + seq![Transfer::Up(source)]
            &&& after(d, c).submissions == d.submissions
            &&& after(d, c).pending == d.pending
            &&& b != buffer ==> after(d, c).buffers[b] == d.buffers[b] && is_live(after(d, c), b)
                == is_live(d, b)
        },
        c matches Command::Clear { buffer, bytes } ==> {
            &&& is_live(d, buffer as int) && is_live(after(d, c), buffer as int)
            &&& after(d, c).buffers[buffer as int].holds is Zero
            &&& bytes == 4 * after(d, c).buffers[buffer as int].words
            &&& !d.pending && !after(d, c).pending
            &&& after(d, c).transfers == d.transfers
            &&& after(d, c).submissions == d.submissions
            &&& b != buffer ==> after(d, c).buffers[b] == d.buffers[b] && is_live(after(d, c), b)
                == is_live(d, b)
        },
        c matches Command::ReadBack { buffer, bytes } ==> {
            &&& is_live(d, buffer as int)
            &&& after(d, c).buffers == d.buffers
            &&& bytes == 4 * d.buffers[buffer as int].words
            &&& !d.pending && !after(d, c).pending
            &&& after(d, c).submissions == d.submissions
            &&& after(d, c).transfers == d.transfers + seq![
                Transfer::Down(d.buffers[buffer as int].holds),
            ]
        },
        c matches Command::Release { buffer } ==> {
            &&& is_live(d, buffer as int) && !is_live(after(d, c), buffer as int)
            &&& !d.pending && !after(d, c).pending
            &&& after(d, c).transfers == d.transfers
            &&& after(d, c).submissions == d.submissions
            &&& b != buffer ==> after(d, c).buffers[b] == d.buffers[b] && is_live(after(d, c), b)
                == is_live(d, b)
        },
        c is Submit ==> {
            &&& after(d, c).buffers == d.buffers
            &&& after(d, c).transfers == d.transfers
            &&& after(d, c).submissions == d.submissions + 1
            &&& !after(d, c).pending
        },
{
    match c {
        Command::Upload { buffer, source, floats } => {
            assert(after(d, c).transfers =~= d.transfers + seq![Transfer::Up(source)]);
        },
        Command::ReadBack { buffer, bytes } => {
            let t = Transfer::Down(d.buffers[buffer as int].holds);
            assert(after(d, c).transfers =~= d.transfers + seq![t]);
        },
        _ => {},
    }
}

/// How often the kernels are started for a frame with `n` pyramid levels: for both
/// motions together `4 n + 4` times, for the motion ahead alone and the kept one
/// turned round `2 n + 4` times, for the last frame `4 n + 5` times. One buffer is
/// fetched.
pub proof fn law_frames_are_sent_in_few_submissions(
    cs: Seq<Command>,
    s: Settings<u32>,
    role: Role,
    w: int,
    h: int,
    cache: Option<GpuFlowPair>,
)
    requires
        level_count(w, h, s.levels as int) >= 1,
        is_frame_sent(cs, s, role, w, h, cache),
    ensures
        ({
            let n = level_count(w, h, s.levels as int);
            &&& fetches(cs) == 1
            &&& role == Role::Last ==> submits(cs) == 4 * n + 5
            &&& role != Role::Last && s.flow_cache && cache is Some ==> submits(cs) == 2 * n + 4
            &&& role != Role::Last && !(s.flow_cache && cache is Some) ==> submits(cs) == 4 * n + 4
        }),
{
}

/// A layout binds what is read first, then what is written, at least one buffer of
/// each, and the parameters last.
pub proof fn law_bindings_end_with_the_parameters(l: Layout, b: Vec<Access>, i: int, j: int)
    requires
        call_ensures(Layout::bindings, (l,), b),
        0 <= i < j < b@.len(),
    ensures
        b@.len() >= 3,
        b@.first() == Access::Read,
        b@[b@.len() - 2] == Access::Write,
        b@.last() == Access::Uniform,
        b@[i] != Access::Uniform,
        b@[j] == Access::Read ==> b@[i] == Access::Read,
        b@[i] == Access::Write && b@[j] != Access::Uniform ==> b@[j] == Access::Write,
{
}

/// Kernels share a layout only where they are the two passes of one filter.
pub proof fn law_layouts_are_shared_by_passes(a: Kernel, b: Kernel, l: Layout, m: Layout)
    requires
        call_ensures(Kernel::layout, (a,), l),
        call_ensures(Kernel::layout, (b,), m),
        l == m,
        a != b,
    ensures
        ({
            ||| {
                &&& a == Kernel::GaussianH || a == Kernel::GaussianV
                &&& b == Kernel::GaussianH || b == Kernel::GaussianV
            }
            ||| {
                &&& a == Kernel::Box3H || a == Kernel::Box3V
                &&& b == Kernel::Box3H || b == Kernel::Box3V
            }
            ||| {
                &&& a == Kernel::Box2H || a == Kernel::Box2V
                &&& b == Kernel::Box2H || b == Kernel::Box2V
            }
        }),
{
}

/// What tells the names of the layouts apart.
spec fn mark(s: Seq<char>) -> (int, char, char, char) {
    (s.len() as int, s[4], s[5], s[7])
}

proof fn lemma_marks(l: Layout)
    ensures
        mark(l.name()) == (match l {
            Layout::Simple => (10int, 's', 'i', 'p'),
            Layout::Downsample => (14, 'd', 'o', 'n'),
            Layout::Gradients => (13, 'g', 'r', 'd'),
            Layout::Products => (12, 'p', 'r', 'd'),
            Layout::Box3 => (8, 'b', 'o', '3'),
            Layout::Box2 => (8, 'b', 'o', '2'),
            Layout::Warp => (8, 'w', 'a', 'p'),
            Layout::Solve => (9, 's', 'o', 'v'),
            Layout::Median => (10, 'm', 'e', 'i'),
            Layout::Upscale => (11, 'u', 'p', 'c'),
            Layout::Negate => (10, 'n', 'e', 'a'),
            Layout::Blur => (8, 'b', 'l', 'r'),
        }),
{
    reveal_strlit("bgl-simple");
    reveal_strlit("bgl-downsample");
    reveal_strlit("bgl-gradients");
    reveal_strlit("bgl-products");
    reveal_strlit("bgl-box3");
    reveal_strlit("bgl-box2");
    reveal_strlit("bgl-warp");
    reveal_strlit("bgl-solve");
    reveal_strlit("bgl-median");
    reveal_strlit("bgl-upscale");
    reveal_strlit("bgl-negate");
    reveal_strlit("bgl-blur");
}

/// No two layouts have the same name.
pub proof fn law_layouts_are_told_apart(l: Layout, m: Layout, a: &'static str, b: &'static str)
    requires
        call_ensures(Layout::label, (l,), a),
        call_ensures(Layout::label, (m,), b),
        a@ == b@,
    ensures
        l == m,
{
    lemma_marks(l);
    lemma_marks(m);
}

/// A kernel that is started finds its parameters complete and its buffers large
/// enough: one word for every cell that it writes, and for every cell that it
/// reads, of the grid that it reads from. It writes nothing that it also uses
/// otherwise.
pub proof fn law_kernels_find_what_they_need(
    d: Device,
    kernel: Kernel,
    buffers: Vec<usize>,
    params: Vec<u32>,
    groups_x: u32,
    groups_y: u32,
    i: int,
    j: int,
)
    requires
        is_allowed(d, (Command::Dispatch { kernel, buffers, params, groups_x, groups_y })),
        0 <= i < buffers@.len(),
        0 <= j < buffers@.len(),
    ensures
        ({
            let layout = kernel.bind_layout();
            let words = d.buffers[buffers@[i] as int].words;
            let resizes = kernel == Kernel::Downsample || kernel == Kernel::UpscaleFlow;
            let sums = kernel == Kernel::Box3H || kernel == Kernel::Box3V || kernel
                == Kernel::Box2H || kernel == Kernel::Box2V;
            &&& buffers@.len() + 1 == layout.slots().len()
            &&& params@.len() == (if resizes || sums || kernel == Kernel::Blur {
                4int
            } else {
                2
            })
            &&& is_live(d, buffers@[i] as int)
            &&& layout.slots()[i] == Access::Write ==> words >= params@[0] * params@[1]
            &&& !resizes ==> words >= params@[0] * params@[1]
            &&& resizes && layout.slots()[i] == Access::Read ==> words >= params@[2] * params@[3]
            &&& layout.slots()[i] == Access::Write && j != i ==> buffers@[i] != buffers@[j]
        }),
{
    let b = buffers@[i];
    if i < j {
        let c = buffers@[j];
    }
}

/// A new record is empty, and so is the device.
pub proof fn law_devices_start_empty(ctx: GpuContext)
    requires
        call_ensures(GpuContext::new, (), ctx),
    ensures
        ctx.wf(),
        ctx@.buffers == Map::<int, Buffer>::empty(),
        ctx@.submissions == 0,
        ctx@.transfers.len() == 0,
        !ctx@.pending,
        ctx.recorded().1.len() == 0,
{
}

/// Of a pyramid as many levels are used as were asked for, and all of them where
/// none or too many were.
pub proof fn law_levels_asked_for_are_used(requested: int, built: int)
    ensures
        0 < requested <= built ==> used_levels(requested, built) == requested,
        requested == 0 ==> used_levels(requested, built) == built,
        requested > built ==> used_levels(requested, built) == built,
{
}

} // verus!
