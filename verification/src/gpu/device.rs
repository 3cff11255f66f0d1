//! Recording work for the device, and what that work amounts to.
//!
//! Commands name buffers by number. A model of the device says which commands
//! are allowed at each point and what every buffer holds afterwards, as an
//! expression over the kernels and the images that went in.
use crate::gpu::kernel::Kernel;
use vstd::prelude::*;

verus! {

/// An image that is sent to the device.
#[derive(Debug, Clone, Copy, PartialEq, Eq, Structural)]
pub enum Source {
    /// The colours of the current frame, packed.
    Frame,
    /// The brightness of the current frame.
    Current,
    /// The brightness of the previous frame.
    Previous,
    /// The brightness of the next frame.
    Next,
}

/// One piece of work for the device.
#[derive(Debug)]
pub enum Command {
    /// Make a storage buffer of `floats` words.
    Create { buffer: usize, floats: usize },
    /// Make a storage buffer that holds an image of `floats` words.
    Upload { buffer: usize, source: Source, floats: usize },
    /// Fill the first `bytes` bytes of a buffer with zeros, ahead of whatever
    /// is submitted next.
    Clear { buffer: usize, bytes: usize },
    /// Run a kernel on the given buffers and parameters.
    Dispatch {
        kernel: Kernel,
        buffers: Vec<usize>,
        params: Vec<u32>,
        groups_x: u32,
        groups_y: u32,
    },
    /// Start all the kernels recorded since the last submission.
    Submit,
    /// Wait for the device, and fetch the first `bytes` bytes of a buffer.
    ReadBack { buffer: usize, bytes: usize },
    /// Give a buffer back.
    Release { buffer: usize },
}

/// What a buffer holds.
pub enum Tensor {
    /// Nothing was put there yet.
    Raw,
    /// Zeros.
    Zero,
    /// An image.
    Image(Source),
    /// What a kernel wrote to one of its slots.
    Output { kernel: Kernel, slot: int, inputs: Seq<Tensor>, params: Seq<u32> },
}

/// A buffer on the device.
pub struct Buffer {
    pub holds: Tensor,
    pub words: int,
}

/// Data that crosses between the host and the device.
pub enum Transfer {
    Up(Source),
    Down(Tensor),
}

/// State of the device.
pub struct Device {
    /// The buffers that are in use.
    pub buffers: Map<int, Buffer>,
    /// Whether kernels are recorded that were not submitted yet.
    pub pending: bool,
    /// How many times recorded kernels were submitted.
    pub submissions: nat,
    /// All transfers so far.
    pub transfers: Seq<Transfer>,
}

/// Whether a buffer is in use.
pub open spec fn is_live(d: Device, b: int) -> bool {
    d.buffers.contains_key(b)
}

/// A live buffer of at least `words` words.
pub open spec fn has_room(d: Device, b: int, words: int) -> bool {
    is_live(d, b) && d.buffers[b].words >= words
}

/// How many workgroups of sixteen cells cover `n` cells (at least one).
pub open spec fn groups(n: int) -> int {
    if n <= 0 {
        1
    } else {
        (n + 15) / 16
    }
}

/// The buffers with new contents in buffer `b`.
pub open spec fn refilled(m: Map<int, Buffer>, b: int, holds: Tensor) -> Map<int, Buffer> {
    m.insert(b, Buffer { holds, words: m[b].words })
}

/// What a kernel writes to slot `slot`.
pub open spec fn output(
    m: Map<int, Buffer>,
    kernel: Kernel,
    buffers: Seq<usize>,
    params: Seq<u32>,
    slot: int,
) -> Tensor {
    Tensor::Output {
        kernel,
        slot,
        inputs: Seq::new(kernel.inputs() as nat, |i: int| m[buffers[i] as int].holds),
        params,
    }
}

/// The buffers after a kernel wrote to its slots below `upto`.
pub open spec fn written(
    m: Map<int, Buffer>,
    kernel: Kernel,
    buffers: Seq<usize>,
    params: Seq<u32>,
    upto: int,
) -> Map<int, Buffer>
    decreases upto,
{
    if upto <= kernel.reads() || upto <= 0 {
        m
    } else {
        refilled(
            written(m, kernel, buffers, params, upto - 1),
            buffers[upto - 1] as int,
            output(m, kernel, buffers, params, upto - 1),
        )
    }
}

/// Whether buffers and parameters fit a kernel: the buffers are live and large
/// enough, and no buffer that is written is bound to another slot too.
pub open spec fn is_bound(
    d: Device,
    kernel: Kernel,
    buffers: Seq<usize>,
    params: Seq<u32>,
) -> bool {
    &&& buffers.len() == kernel.buffers()
    &&& params.len() == kernel.params()
    &&& forall|i: int|
        0 <= i < buffers.len() ==> has_room(
            d,
            #[trigger] buffers[i] as int,
            kernel.cells(params, i),
        )
    &&& forall|i: int, j: int|
        kernel.reads() <= i < buffers.len() && 0 <= j < i ==> #[trigger] buffers[i]
            != #[trigger] buffers[j]
}

/// Whether a command is in order: it uses live buffers that are large enough,
/// no kernel writes where another of its slots reads or writes, the workgroups
/// cover the grid, and what bypasses the recorded kernels finds none pending.
pub open spec fn is_allowed(d: Device, c: Command) -> bool {
    match c {
        Command::Create { buffer, floats } => !is_live(d, buffer as int) && floats >= 1,
        Command::Upload { buffer, source, floats } => !is_live(d, buffer as int) && floats >= 1,
        Command::Clear { buffer, bytes } => {
            &&& is_live(d, buffer as int)
            &&& bytes == 4 * d.buffers[buffer as int].words
            &&& !d.pending
        },
        Command::Dispatch { kernel, buffers, params, groups_x, groups_y } => {
            &&& is_bound(d, kernel, buffers@, params@)
            &&& groups_x == groups(params@[0] as int)
            &&& groups_y == groups(params@[1] as int)
        },
        Command::Submit => true,
        Command::ReadBack { buffer, bytes } => {
            &&& is_live(d, buffer as int)
            &&& bytes == 4 * d.buffers[buffer as int].words
            &&& !d.pending
        },
        Command::Release { buffer } => is_live(d, buffer as int) && !d.pending,
    }
}

/// The device after a command.
pub open spec fn after(d: Device, c: Command) -> Device {
    match c {
        Command::Create { buffer, floats } => created(d, buffer as int, floats as int),
        Command::Upload { buffer, source, floats } => Device {
            buffers: d.buffers.insert(
                buffer as int,
                Buffer { holds: Tensor::Image(source), words: floats as int },
            ),
            transfers: d.transfers.push(Transfer::Up(source)),
            ..d
        },
        Command::Clear { buffer, bytes } => Device {
            buffers: refilled(d.buffers, buffer as int, Tensor::Zero),
            ..d
        },
        Command::Dispatch { kernel, buffers, params, groups_x, groups_y } => Device {
            buffers: written(d.buffers, kernel, buffers@, params@, kernel.buffers()),
            pending: true,
            ..d
        },
        Command::Submit => submitted(d),
        Command::ReadBack { buffer, bytes } => Device {
            transfers: d.transfers.push(Transfer::Down(d.buffers[buffer as int].holds)),
            ..d
        },
        Command::Release { buffer } => Device { buffers: d.buffers.remove(buffer as int), ..d },
    }
}

/// The device after the recorded kernels were submitted.
pub open spec fn submitted(d: Device) -> Device {
    Device { pending: false, submissions: d.submissions + 1, ..d }
}

/// The device with a new buffer of `floats` words.
pub open spec fn created(d: Device, buffer: int, floats: int) -> Device {
    Device {
        buffers: d.buffers.insert(buffer, Buffer { holds: Tensor::Raw, words: floats }),
        ..d
    }
}

/// The device after a list of commands.
pub open spec fn after_all(d: Device, cs: Seq<Command>) -> Device
    decreases cs.len(),
{
    if cs.len() == 0 {
        d
    } else {
        after(after_all(d, cs.drop_last()), cs.last())
    }
}

/// Whether each command of a list is in order when its turn comes.
pub open spec fn all_allowed(d: Device, cs: Seq<Command>) -> bool
    decreases cs.len(),
{
    cs.len() > 0 ==> all_allowed(d, cs.drop_last()) && is_allowed(
        after_all(d, cs.drop_last()),
        cs.last(),
    )
}

/// How many commands of a list start the recorded kernels.
pub open spec fn submits(cs: Seq<Command>) -> nat
    decreases cs.len(),
{
    if cs.len() == 0 {
        0
    } else if cs.last() is Submit {
        submits(cs.drop_last()) + 1
    } else {
        submits(cs.drop_last())
    }
}

/// How many commands of a list send an image to the device.
pub open spec fn uploads(cs: Seq<Command>) -> nat
    decreases cs.len(),
{
    if cs.len() == 0 {
        0
    } else if cs.last() is Upload {
        uploads(cs.drop_last()) + 1
    } else {
        uploads(cs.drop_last())
    }
}

/// How many commands of a list fetch a buffer from the device.
pub open spec fn fetches(cs: Seq<Command>) -> nat
    decreases cs.len(),
{
    if cs.len() == 0 {
        0
    } else if cs.last() is ReadBack {
        fetches(cs.drop_last()) + 1
    } else {
        fetches(cs.drop_last())
    }
}

/// How many transfers of a list go to the device.
pub open spec fn ups(ts: Seq<Transfer>) -> nat
    decreases ts.len(),
{
    if ts.len() == 0 {
        0
    } else if ts.last() is Up {
        ups(ts.drop_last()) + 1
    } else {
        ups(ts.drop_last())
    }
}

/// How many transfers of a list come from the device.
pub open spec fn downs(ts: Seq<Transfer>) -> nat
    decreases ts.len(),
{
    if ts.len() == 0 {
        0
    } else if ts.last() is Down {
        downs(ts.drop_last()) + 1
    } else {
        downs(ts.drop_last())
    }
}

/// The device counts what the commands do: one submission for each command
/// that starts the kernels, one transfer for each that sends or fetches.
pub proof fn law_commands_are_counted(d: Device, cs: Seq<Command>)
    ensures
        after_all(d, cs).submissions == d.submissions + submits(cs),
        ups(after_all(d, cs).transfers) == ups(d.transfers) + uploads(cs),
        downs(after_all(d, cs).transfers) == downs(d.transfers) + fetches(cs),
    decreases cs.len(),
{
    if cs.len() > 0 {
        let before = after_all(d, cs.drop_last());
        law_commands_are_counted(d, cs.drop_last());
        match cs.last() {
            Command::Upload { buffer, source, floats } => {
                let ts = before.transfers.push(Transfer::Up(source));
                assert(ts.drop_last() =~= before.transfers);
            },
            Command::ReadBack { buffer, bytes } => {
                let ts = before.transfers.push(
                    Transfer::Down(before.buffers[buffer as int].holds),
                );
                assert(ts.drop_last() =~= before.transfers);
            },
            _ => {},
        }
    }
}

/// A record with one more command.
pub open spec fn with_command(
    record: (Device, Seq<Command>),
    c: Command,
) -> (Device, Seq<Command>) {
    (record.0, record.1.push(c))
}

/// Whether a record goes on from another: it starts from the same device, and
/// the commands of the other come first in it.
pub open spec fn goes_on(
    before: (Device, Seq<Command>),
    now: (Device, Seq<Command>),
) -> bool {
    &&& now.0 == before.0
    &&& now.1.len() >= before.1.len()
    &&& forall|i: int| 0 <= i < before.1.len() ==> #[trigger] now.1[i] == before.1[i]
}

/// The commands by which a record goes on from another.
pub open spec fn added(
    before: (Device, Seq<Command>),
    now: (Device, Seq<Command>),
) -> Seq<Command> {
    now.1.skip(before.1.len() as int)
}

proof fn lemma_one_after_the_other(d: Device, a: Seq<Command>, b: Seq<Command>)
    ensures
        after_all(d, a + b) == after_all(after_all(d, a), b),
        all_allowed(d, a + b) <==> all_allowed(d, a) && all_allowed(after_all(d, a), b),
    decreases b.len(),
{
    if b.len() == 0 {
        assert(a + b =~= a);
    } else {
        assert((a + b).drop_last() =~= a + b.drop_last());
        lemma_one_after_the_other(d, a, b.drop_last());
    }
}

/// The device as it is at first.
pub open spec fn blank() -> Device {
    Device { buffers: Map::empty(), pending: false, submissions: 0, transfers: Seq::empty() }
}

/// Records work for the device.
pub struct GpuContext {
    start: Ghost<Device>,
    log: Vec<Command>,
    sizes: Vec<usize>,
    free: Vec<usize>,
}

impl View for GpuContext {
    type V = Device;

    closed spec fn view(&self) -> Device {
        after_all(self.start@, self.log@)
    }
}

impl GpuContext {
    /// Every recorded command is in order, the sizes are those of the device's
    /// buffers, and the numbers set aside for new buffers are not in use.
    pub closed spec fn wf(&self) -> bool {
        &&& all_allowed(self.start@, self.log@)
        &&& forall|b: int| #[trigger]
            self@.buffers.contains_key(b) ==> 0 <= b < self.sizes@.len() && self.sizes@[b]
                == self@.buffers[b].words
        &&& forall|i: int|
            0 <= i < self.free@.len() ==> (#[trigger] self.free@[i]) < self.sizes@.len()
                && !is_live(self@, self.free@[i] as int)
        &&& forall|i: int, j: int|
            0 <= i < j < self.free@.len() ==> #[trigger] self.free@[i] != #[trigger] self.free@[j]
    }

    /// The device before the commands that were recorded since the last
    /// hand-over, and those commands.
    pub closed spec fn recorded(&self) -> (Device, Seq<Command>) {
        (self.start@, self.log@)
    }

    /// What is recorded is all there is to the device: the commands are in
    /// order, and they lead from where the device was to where it is.
    pub proof fn law_commands_lead_here(&self)
        requires
            self.wf(),
        ensures
            all_allowed(self.recorded().0, self.recorded().1),
            after_all(self.recorded().0, self.recorded().1) == self@,
    {
    }

    /// Whatever was added to a record is what took the device from where it was
    /// then to where it is now, submission by submission and transfer by
    /// transfer.
    pub proof fn law_added_commands_do_the_work(before: &GpuContext, now: &GpuContext)
        requires
            before.wf(),
            now.wf(),
            goes_on(before.recorded(), now.recorded()),
        ensures
            all_allowed(before@, added(before.recorded(), now.recorded())),
            after_all(before@, added(before.recorded(), now.recorded())) == now@,
            now@.submissions == before@.submissions + submits(
                added(before.recorded(), now.recorded()),
            ),
            ups(now@.transfers) == ups(before@.transfers) + uploads(
                added(before.recorded(), now.recorded()),
            ),
            downs(now@.transfers) == downs(before@.transfers) + fetches(
                added(before.recorded(), now.recorded()),
            ),
    {
        let (a, b) = (before.recorded().1, added(before.recorded(), now.recorded()));
        assert(a + b =~= now.recorded().1);
        lemma_one_after_the_other(before.recorded().0, a, b);
        law_commands_are_counted(before@, b);
    }

    /// A recorder for a device without buffers.
    pub fn new() -> (ctx: GpuContext)
        ensures
            ctx.wf(),
            ctx@ == blank(),
            ctx.recorded() == (blank(), Seq::<Command>::empty()),
    {
        GpuContext { start: Ghost(blank()), log: Vec::new(), sizes: Vec::new(), free: Vec::new() }
    }

    /// Hands over the commands recorded since the last time. All of them are
    /// in order, and they take the device from where it was to where it is.
    pub fn take_commands(&mut self) -> (cs: Vec<Command>)
        requires
            old(self).wf(),
        ensures
            final(self).wf(),
            final(self)@ == old(self)@,
            cs@ == old(self).recorded().1,
            all_allowed(old(self).recorded().0, cs@),
            after_all(old(self).recorded().0, cs@) == old(self)@,
            final(self).recorded() == (final(self)@, Seq::<Command>::empty()),
    {
        let ghost now = self@;
        let mut cs: Vec<Command> = Vec::new();
        std::mem::swap(&mut cs, &mut self.log);
        self.start = Ghost(now);
        cs
    }

    /// A number for a new buffer, with room for `floats` words noted.
    fn number(&mut self, floats: usize) -> (buffer: usize)
        requires
            old(self).wf(),
        ensures
            final(self)@ == old(self)@,
            final(self).start == old(self).start,
            final(self).log == old(self).log,
            !is_live(old(self)@, buffer as int),
            buffer < final(self).sizes@.len(),
            final(self).sizes@[buffer as int] == floats,
            forall|i: int|
                0 <= i < final(self).free@.len() ==> final(self).free@[i] != buffer,
            final(self).wf(),
    {
        match self.free.pop() {
            Some(buffer) => {
                self.sizes.set(buffer, floats);
                buffer
            },
            None => {
                let buffer: usize = self.sizes.len();
                self.sizes.push(floats);
                buffer
            },
        }
    }

    fn record(&mut self, c: Command)
        requires
            old(self).wf(),
            is_allowed(old(self)@, c),
            forall|b: int| #[trigger]
                after(old(self)@, c).buffers.contains_key(b) ==> {
                    &&& 0 <= b < old(self).sizes@.len()
                    &&& old(self).sizes@[b] == after(old(self)@, c).buffers[b].words
                },
            forall|i: int|
                0 <= i < old(self).free@.len() ==> !is_live(
                    after(old(self)@, c),
                    #[trigger] old(self).free@[i] as int,
                ),
        ensures
            final(self).wf(),
            final(self).recorded() == with_command(old(self).recorded(), c),
            final(self)@ == after(old(self)@, c),
            final(self).free == old(self).free,
            final(self).sizes == old(self).sizes,
    {
        let ghost before = self.log@;
        self.log.push(c);
        assert(self.log@.drop_last() =~= before);
    }

    /// Makes a storage buffer for `n_floats` words (at least one).
    pub fn storage_buf(&mut self, n_floats: usize) -> (buffer: usize)
        requires
            old(self).wf(),
        ensures
            final(self).wf(),
            final(self).recorded() == with_command(
                old(self).recorded(),
                (Command::Create {
                    buffer,
                    floats: if n_floats >= 1 {
                        n_floats
                    } else {
                        1
                    },
                }),
            ),
            !is_live(old(self)@, buffer as int),
            final(self)@ == created(
                old(self)@,
                buffer as int,
                if n_floats >= 1 {
                    n_floats as int
                } else {
                    1
                },
            ),
    {
        let floats: usize = if n_floats >= 1 {
            n_floats
        } else {
            1
        };
        let buffer: usize = self.number(floats);
        self.record(Command::Create { buffer, floats });
        buffer
    }

    /// Makes a storage buffer that holds an image of `n_floats` words.
    pub fn upload_buf(&mut self, source: Source, n_floats: usize) -> (buffer: usize)
        requires
            old(self).wf(),
            n_floats >= 1,
        ensures
            final(self).wf(),
            final(self).recorded() == with_command(
                old(self).recorded(),
                (Command::Upload { buffer, source, floats: n_floats }),
            ),
            !is_live(old(self)@, buffer as int),
            final(self)@ == (Device {
                buffers: old(self)@.buffers.insert(
                    buffer as int,
                    Buffer { holds: Tensor::Image(source), words: n_floats as int },
                ),
                transfers: old(self)@.transfers.push(Transfer::Up(source)),
                ..old(self)@
            }),
    {
        let buffer: usize = self.number(n_floats);
        self.record(Command::Upload { buffer, source, floats: n_floats });
        buffer
    }

    /// Fills a buffer with zeros.
    pub fn clear(&mut self, buffer: usize)
        requires
            old(self).wf(),
            is_live(old(self)@, buffer as int),
            4 * old(self)@.buffers[buffer as int].words <= usize::MAX,
            !old(self)@.pending,
        ensures
            final(self).wf(),
            final(self).recorded() == with_command(
                old(self).recorded(),
                (Command::Clear {
                    buffer,
                    bytes: (4 * old(self)@.buffers[buffer as int].words) as usize,
                }),
            ),
            final(self)@ == (Device {
                buffers: refilled(old(self)@.buffers, buffer as int, Tensor::Zero),
                ..old(self)@
            }),
    {
        let bytes: usize = self.sizes[buffer] * 4;
        self.record(Command::Clear { buffer, bytes });
    }

    /// Runs a kernel on the given buffers and parameters, with enough
    /// workgroups for the grid.
    pub fn dispatch(&mut self, kernel: Kernel, buffers: Vec<usize>, params: Vec<u32>)
        requires
            old(self).wf(),
            is_bound(old(self)@, kernel, buffers@, params@),
            params@[0] <= u32::MAX - 15,
            params@[1] <= u32::MAX - 15,
        ensures
            final(self).wf(),
            final(self).recorded() == with_command(
                old(self).recorded(),
                (Command::Dispatch {
                    kernel,
                    buffers,
                    params,
                    groups_x: groups(params@[0] as int) as u32,
                    groups_y: groups(params@[1] as int) as u32,
                }),
            ),
            final(self)@ == (Device {
                buffers: written(
                    old(self)@.buffers,
                    kernel,
                    buffers@,
                    params@,
                    kernel.buffers(),
                ),
                pending: true,
                ..old(self)@
            }),
    {
        let groups_x: u32 = group_count(params[0]);
        let groups_y: u32 = group_count(params[1]);
        proof {
            lemma_written_keeps(self@.buffers, kernel, buffers@, params@, kernel.buffers());
        }
        self.record(Command::Dispatch { kernel, buffers, params, groups_x, groups_y });
    }

    /// Starts the recorded kernels.
    pub fn submit(&mut self)
        requires
            old(self).wf(),
        ensures
            final(self).wf(),
            final(self).recorded() == with_command(old(self).recorded(), Command::Submit),
            final(self)@ == submitted(old(self)@),
    {
        self.record(Command::Submit);
    }

    /// Fetches a buffer.
    pub fn read_back(&mut self, buffer: usize)
        requires
            old(self).wf(),
            is_live(old(self)@, buffer as int),
            4 * old(self)@.buffers[buffer as int].words <= usize::MAX,
            !old(self)@.pending,
        ensures
            final(self).wf(),
            final(self).recorded() == with_command(
                old(self).recorded(),
                (Command::ReadBack {
                    buffer,
                    bytes: (4 * old(self)@.buffers[buffer as int].words) as usize,
                }),
            ),
            final(self)@ == (Device {
                transfers: old(self)@.transfers.push(
                    Transfer::Down(old(self)@.buffers[buffer as int].holds),
                ),
                ..old(self)@
            }),
    {
        let bytes: usize = self.sizes[buffer] * 4;
        self.record(Command::ReadBack { buffer, bytes });
    }

    /// Gives a buffer back.
    pub fn release(&mut self, buffer: usize)
        requires
            old(self).wf(),
            is_live(old(self)@, buffer as int),
            !old(self)@.pending,
        ensures
            final(self).wf(),
            final(self).recorded() == with_command(
                old(self).recorded(),
                (Command::Release { buffer }),
            ),
            final(self)@ == (Device {
                buffers: old(self)@.buffers.remove(buffer as int),
                ..old(self)@
            }),
    {
        self.record(Command::Release { buffer });
        self.free.push(buffer);
    }

    /// Makes `count` storage buffers of `n_floats` words each (at least one).
    pub fn storage_bufs(&mut self, count: usize, n_floats: usize) -> (all: Vec<usize>)
        requires
            old(self).wf(),
            n_floats >= 1,
        ensures
            final(self).wf(),
            goes_on(old(self).recorded(), final(self).recorded()),
            all.len() == count,
            is_lot(old(self)@.buffers, all@),
            final(self)@ == (Device {
                buffers: with_lot(old(self)@.buffers, all@, n_floats as int),
                ..old(self)@
            }),
    {
        let mut all: Vec<usize> = Vec::new();
        assert(with_lot(self@.buffers, all@, n_floats as int) =~= self@.buffers);
        while all.len() < count
            invariant
                self.wf(),
                goes_on(old(self).recorded(), self.recorded()),
                n_floats >= 1,
                all.len() <= count,
                is_lot(old(self)@.buffers, all@),
                self@ == (Device {
                    buffers: with_lot(old(self)@.buffers, all@, n_floats as int),
                    ..old(self)@
                }),
            decreases count - all.len(),
        {
            let ghost had = all@;
            let b: usize = self.storage_buf(n_floats);
            all.push(b);
            proof {
                assert(all@.drop_last() =~= had);
                assert(forall|x: usize| #[trigger]
                    all@.contains(x) <==> had.contains(x) || x == b) by {
                    assert(all@[had.len() as int] == b);
                    assert forall|x: usize| had.contains(x) implies #[trigger] all@.contains(x) by {
                        let i = choose|i: int| 0 <= i < had.len() && had[i] == x;
                        assert(all@[i] == x);
                    }
                }
                assert forall|i: int| 0 <= i < had.len() implies #[trigger] had[i] != b by {
                    assert(had.contains(had[i]));
                }
                assert(self@.buffers =~= with_lot(old(self)@.buffers, all@, n_floats as int));
            }
        }
        all
    }

    /// Gives a list of buffers back.
    pub fn release_all(&mut self, all: &Vec<usize>)
        requires
            old(self).wf(),
            !old(self)@.pending,
            forall|i: int| 0 <= i < all@.len() ==> is_live(old(self)@, #[trigger] all@[i] as int),
            forall|i: int, j: int|
                0 <= i < j < all@.len() ==> #[trigger] all@[i] != #[trigger] all@[j],
        ensures
            final(self).wf(),
            goes_on(old(self).recorded(), final(self).recorded()),
            final(self)@ == (Device {
                buffers: without_lot(old(self)@.buffers, all@),
                ..old(self)@
            }),
    {
        let mut i: usize = 0;
        assert(without_lot(self@.buffers, all@.take(0)) =~= self@.buffers);
        while i < all.len()
            invariant
                self.wf(),
                goes_on(old(self).recorded(), self.recorded()),
                i <= all.len(),
                !self@.pending,
                forall|j: int|
                    0 <= j < all@.len() ==> is_live(old(self)@, #[trigger] all@[j] as int),
                forall|j: int, k: int|
                    0 <= j < k < all@.len() ==> #[trigger] all@[j] != #[trigger] all@[k],
                self@ == (Device {
                    buffers: without_lot(old(self)@.buffers, all@.take(i as int)),
                    ..old(self)@
                }),
            decreases all.len() - i,
        {
            let ghost had = all@.take(i as int);
            let ghost has = all@.take(i + 1);
            let b: usize = all[i];
            proof {
                assert(has[i as int] == b);
                assert(forall|x: usize| #[trigger]
                    has.contains(x) <==> had.contains(x) || x == b) by {
                    assert forall|x: usize| had.contains(x) implies #[trigger] has.contains(x) by {
                        let k = choose|k: int| 0 <= k < had.len() && had[k] == x;
                        assert(has[k] == x);
                    }
                }
            }
            self.release(b);
            i += 1;
            assert(self@.buffers =~= without_lot(old(self)@.buffers, has));
        }
        assert(all@.take(i as int) =~= all@);
    }
}

/// Distinct numbers that no buffer has.
pub open spec fn is_lot(m: Map<int, Buffer>, all: Seq<usize>) -> bool {
    &&& forall|i: int| 0 <= i < all.len() ==> !m.contains_key(#[trigger] all[i] as int)
    &&& forall|i: int, j: int| 0 <= i < j < all.len() ==> #[trigger] all[i] != #[trigger] all[j]
}

/// The buffers with some new ones of `words` words each.
pub open spec fn with_lot(m: Map<int, Buffer>, all: Seq<usize>, words: int) -> Map<int, Buffer> {
    Map::new(
        |b: int| m.contains_key(b) || (0 <= b <= usize::MAX && all.contains(b as usize)),
        |b: int|
            if m.contains_key(b) {
                m[b]
            } else {
                Buffer { holds: Tensor::Raw, words }
            },
    )
}

/// The buffers without some of them.
pub open spec fn without_lot(m: Map<int, Buffer>, all: Seq<usize>) -> Map<int, Buffer> {
    Map::new(
        |b: int| m.contains_key(b) && !(0 <= b <= usize::MAX && all.contains(b as usize)),
        |b: int| m[b],
    )
}

/// How many workgroups of sixteen cells cover `n` cells (at least one).
fn group_count(n: u32) -> (g: u32)
    requires
        n <= u32::MAX - 15,
    ensures
        g == groups(n as int),
{
    if n == 0 {
        1
    } else {
        (n + 15) / 16
    }
}

proof fn lemma_written_keeps(
    m: Map<int, Buffer>,
    kernel: Kernel,
    buffers: Seq<usize>,
    params: Seq<u32>,
    upto: int,
)
    requires
        upto <= buffers.len(),
        forall|i: int| 0 <= i < buffers.len() ==> m.contains_key(#[trigger] buffers[i] as int),
    ensures
        written(m, kernel, buffers, params, upto).dom() =~= m.dom(),
        forall|b: int| #[trigger]
            m.contains_key(b) ==> written(m, kernel, buffers, params, upto)[b].words == m[b].words,
    decreases upto,
{
    if upto > kernel.reads() && upto > 0 {
        lemma_written_keeps(m, kernel, buffers, params, upto - 1);
    }
}

} // verus!
