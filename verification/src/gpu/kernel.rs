//! The compute kernels and how buffers are bound to them.
use vstd::prelude::*;

verus! {

/// A compute kernel: one entry point of the shader module.
#[derive(Debug, Clone, Copy, PartialEq, Eq, Structural)]
pub enum Kernel {
    GaussianH,
    GaussianV,
    Downsample,
    Gradients,
    Products,
    Box3H,
    Box3V,
    Box2H,
    Box2V,
    WarpDiff,
    SolveUpdate,
    Median,
    UpscaleFlow,
    Negate,
    Blur,
}

/// How a kernel uses what is bound to one of its slots.
#[derive(Debug, Clone, Copy, PartialEq, Eq, Structural)]
pub enum Access {
    /// Storage that the kernel only reads.
    Read,
    /// Storage that the kernel writes.
    Write,
    /// The parameters of the kernel.
    Uniform,
}

/// A bind group layout. Kernels that come in a horizontal and a vertical form
/// share one.
#[derive(Debug, Clone, Copy, PartialEq, Eq, Structural)]
pub enum Layout {
    Simple,
    Downsample,
    Gradients,
    Products,
    Box3,
    Box2,
    Warp,
    Solve,
    Median,
    Upscale,
    Negate,
    Blur,
}

/// All kernels.
pub open spec fn every_kernel() -> Seq<Kernel> {
    seq![
        Kernel::GaussianH,
        Kernel::GaussianV,
        Kernel::Downsample,
        Kernel::Gradients,
        Kernel::Products,
        Kernel::Box3H,
        Kernel::Box3V,
        Kernel::Box2H,
        Kernel::Box2V,
        Kernel::WarpDiff,
        Kernel::SolveUpdate,
        Kernel::Median,
        Kernel::UpscaleFlow,
        Kernel::Negate,
        Kernel::Blur,
    ]
}

/// All layouts.
pub open spec fn every_layout() -> Seq<Layout> {
    seq![
        Layout::Simple,
        Layout::Downsample,
        Layout::Gradients,
        Layout::Products,
        Layout::Box3,
        Layout::Box2,
        Layout::Warp,
        Layout::Solve,
        Layout::Median,
        Layout::Upscale,
        Layout::Negate,
        Layout::Blur,
    ]
}

impl Layout {
    /// How many buffers a layout binds for reading only; they come first.
    pub open spec fn reads(self) -> int {
        match self {
            Layout::Simple => 1,
            Layout::Downsample => 1,
            Layout::Gradients => 1,
            Layout::Products => 2,
            Layout::Box3 => 3,
            Layout::Box2 => 2,
            Layout::Warp => 6,
            Layout::Solve => 5,
            Layout::Median => 1,
            Layout::Upscale => 2,
            Layout::Negate => 2,
            Layout::Blur => 5,
        }
    }

    /// How many buffers a layout binds for writing; they follow those for
    /// reading.
    pub open spec fn writes(self) -> int {
        match self {
            Layout::Simple => 1,
            Layout::Downsample => 1,
            Layout::Gradients => 2,
            Layout::Products => 3,
            Layout::Box3 => 3,
            Layout::Box2 => 2,
            Layout::Warp => 2,
            Layout::Solve => 2,
            Layout::Median => 1,
            Layout::Upscale => 2,
            Layout::Negate => 2,
            Layout::Blur => 1,
        }
    }

    /// The use of every slot in order: buffers that are read, buffers that are
    /// written, and last the parameters.
    pub open spec fn slots(self) -> Seq<Access> {
        Seq::new(
            (self.reads() + self.writes() + 1) as nat,
            |i: int|
                if i < self.reads() {
                    Access::Read
                } else if i < self.reads() + self.writes() {
                    Access::Write
                } else {
                    Access::Uniform
                },
        )
    }

    /// Name of the layout.
    pub open spec fn name(self) -> Seq<char> {
        match self {
            Layout::Simple => "bgl-simple"@,
            Layout::Downsample => "bgl-downsample"@,
            Layout::Gradients => "bgl-gradients"@,
            Layout::Products => "bgl-products"@,
            Layout::Box3 => "bgl-box3"@,
            Layout::Box2 => "bgl-box2"@,
            Layout::Warp => "bgl-warp"@,
            Layout::Solve => "bgl-solve"@,
            Layout::Median => "bgl-median"@,
            Layout::Upscale => "bgl-upscale"@,
            Layout::Negate => "bgl-negate"@,
            Layout::Blur => "bgl-blur"@,
        }
    }

    /// The use of every slot.
    pub fn bindings(self) -> (b: Vec<Access>)
        ensures
            b@ == self.slots(),
    {
        let (reads, writes): (usize, usize) = match self {
            Layout::Simple => (1, 1),
            Layout::Downsample => (1, 1),
            Layout::Gradients => (1, 2),
            Layout::Products => (2, 3),
            Layout::Box3 => (3, 3),
            Layout::Box2 => (2, 2),
            Layout::Warp => (6, 2),
            Layout::Solve => (5, 2),
            Layout::Median => (1, 1),
            Layout::Upscale => (2, 2),
            Layout::Negate => (2, 2),
            Layout::Blur => (5, 1),
        };
        let mut b: Vec<Access> = Vec::new();
        let mut i: usize = 0;
        while i < reads
            invariant
                i <= reads,
                b.len() == i,
                forall|j: int| 0 <= j < i ==> #[trigger] b@[j] == Access::Read,
            decreases reads - i,
        {
            b.push(Access::Read);
            i += 1;
        }
        let mut j: usize = 0;
        while j < writes
            invariant
                j <= writes,
                b.len() == reads + j,
                forall|n: int| 0 <= n < reads ==> #[trigger] b@[n] == Access::Read,
                forall|n: int| reads <= n < reads + j ==> #[trigger] b@[n] == Access::Write,
            decreases writes - j,
        {
            b.push(Access::Write);
            j += 1;
        }
        b.push(Access::Uniform);
        assert(b@ =~= self.slots());
        b
    }

    /// Name of the layout.
    pub fn label(self) -> (s: &'static str)
        ensures
            s@ == self.name(),
    {
        match self {
            Layout::Simple => "bgl-simple",
            Layout::Downsample => "bgl-downsample",
            Layout::Gradients => "bgl-gradients",
            Layout::Products => "bgl-products",
            Layout::Box3 => "bgl-box3",
            Layout::Box2 => "bgl-box2",
            Layout::Warp => "bgl-warp",
            Layout::Solve => "bgl-solve",
            Layout::Median => "bgl-median",
            Layout::Upscale => "bgl-upscale",
            Layout::Negate => "bgl-negate",
            Layout::Blur => "bgl-blur",
        }
    }

    /// All layouts.
    pub fn all() -> (v: Vec<Layout>)
        ensures
            v@ == every_layout(),
    {
        vec![
            Layout::Simple,
            Layout::Downsample,
            Layout::Gradients,
            Layout::Products,
            Layout::Box3,
            Layout::Box2,
            Layout::Warp,
            Layout::Solve,
            Layout::Median,
            Layout::Upscale,
            Layout::Negate,
            Layout::Blur,
        ]
    }

    /// Where the layout stands among all of them.
    pub fn index(self) -> (i: usize)
        ensures
            i < every_layout().len(),
            every_layout()[i as int] == self,
    {
        match self {
            Layout::Simple => 0,
            Layout::Downsample => 1,
            Layout::Gradients => 2,
            Layout::Products => 3,
            Layout::Box3 => 4,
            Layout::Box2 => 5,
            Layout::Warp => 6,
            Layout::Solve => 7,
            Layout::Median => 8,
            Layout::Upscale => 9,
            Layout::Negate => 10,
            Layout::Blur => 11,
        }
    }
}

impl Kernel {
    /// The layout of the kernel.
    pub open spec fn bind_layout(self) -> Layout {
        match self {
            Kernel::GaussianH => Layout::Simple,
            Kernel::GaussianV => Layout::Simple,
            Kernel::Downsample => Layout::Downsample,
            Kernel::Gradients => Layout::Gradients,
            Kernel::Products => Layout::Products,
            Kernel::Box3H => Layout::Box3,
            Kernel::Box3V => Layout::Box3,
            Kernel::Box2H => Layout::Box2,
            Kernel::Box2V => Layout::Box2,
            Kernel::WarpDiff => Layout::Warp,
            Kernel::SolveUpdate => Layout::Solve,
            Kernel::Median => Layout::Median,
            Kernel::UpscaleFlow => Layout::Upscale,
            Kernel::Negate => Layout::Negate,
            Kernel::Blur => Layout::Blur,
        }
    }

    /// How many buffers the kernel only reads.
    pub open spec fn reads(self) -> int {
        self.bind_layout().reads()
    }

    /// How many buffers are bound to the kernel.
    pub open spec fn buffers(self) -> int {
        self.bind_layout().reads() + self.bind_layout().writes()
    }

    /// How many of the bound buffers the outcome depends on: those that are
    /// only read, and for the solver also the motion that it updates in place.
    pub open spec fn inputs(self) -> int {
        if self == Kernel::SolveUpdate {
            7
        } else {
            self.reads()
        }
    }

    /// How many parameter words the kernel takes.
    pub open spec fn params(self) -> int {
        match self {
            Kernel::Downsample => 4,
            Kernel::Box3H => 4,
            Kernel::Box3V => 4,
            Kernel::Box2H => 4,
            Kernel::Box2V => 4,
            Kernel::UpscaleFlow => 4,
            Kernel::Blur => 4,
            _ => 2,
        }
    }

    /// How many cells the buffer in slot `slot` must have: the kernels that
    /// resize read a grid of another size than they write.
    pub open spec fn cells(self, params: Seq<u32>, slot: int) -> int {
        if (self == Kernel::Downsample || self == Kernel::UpscaleFlow) && slot < self.reads() {
            params[2] * params[3]
        } else {
            params[0] * params[1]
        }
    }

    /// Entry point of the kernel in the shader module.
    pub open spec fn entry_name(self) -> Seq<char> {
        match self {
            Kernel::GaussianH => "gaussian_h"@,
            Kernel::GaussianV => "gaussian_v"@,
            Kernel::Downsample => "downsample_2x"@,
            Kernel::Gradients => "gradients"@,
            Kernel::Products => "products"@,
            Kernel::Box3H => "box3_h"@,
            Kernel::Box3V => "box3_v"@,
            Kernel::Box2H => "box2_h"@,
            Kernel::Box2V => "box2_v"@,
            Kernel::WarpDiff => "warp_diff"@,
            Kernel::SolveUpdate => "solve_update"@,
            Kernel::Median => "median_3x3"@,
            Kernel::UpscaleFlow => "upscale_flow_2x"@,
            Kernel::Negate => "negate_flow"@,
            Kernel::Blur => "motion_blur_px"@,
        }
    }

    /// The layout of the kernel.
    pub fn layout(self) -> (l: Layout)
        ensures
            l == self.bind_layout(),
    {
        match self {
            Kernel::GaussianH => Layout::Simple,
            Kernel::GaussianV => Layout::Simple,
            Kernel::Downsample => Layout::Downsample,
            Kernel::Gradients => Layout::Gradients,
            Kernel::Products => Layout::Products,
            Kernel::Box3H => Layout::Box3,
            Kernel::Box3V => Layout::Box3,
            Kernel::Box2H => Layout::Box2,
            Kernel::Box2V => Layout::Box2,
            Kernel::WarpDiff => Layout::Warp,
            Kernel::SolveUpdate => Layout::Solve,
            Kernel::Median => Layout::Median,
            Kernel::UpscaleFlow => Layout::Upscale,
            Kernel::Negate => Layout::Negate,
            Kernel::Blur => Layout::Blur,
        }
    }

    /// Entry point of the kernel in the shader module.
    pub fn entry_point(self) -> (s: &'static str)
        ensures
            s@ == self.entry_name(),
    {
        match self {
            Kernel::GaussianH => "gaussian_h",
            Kernel::GaussianV => "gaussian_v",
            Kernel::Downsample => "downsample_2x",
            Kernel::Gradients => "gradients",
            Kernel::Products => "products",
            Kernel::Box3H => "box3_h",
            Kernel::Box3V => "box3_v",
            Kernel::Box2H => "box2_h",
            Kernel::Box2V => "box2_v",
            Kernel::WarpDiff => "warp_diff",
            Kernel::SolveUpdate => "solve_update",
            Kernel::Median => "median_3x3",
            Kernel::UpscaleFlow => "upscale_flow_2x",
            Kernel::Negate => "negate_flow",
            Kernel::Blur => "motion_blur_px",
        }
    }

    /// All kernels.
    pub fn all() -> (v: Vec<Kernel>)
        ensures
            v@ == every_kernel(),
    {
        vec![
            Kernel::GaussianH,
            Kernel::GaussianV,
            Kernel::Downsample,
            Kernel::Gradients,
            Kernel::Products,
            Kernel::Box3H,
            Kernel::Box3V,
            Kernel::Box2H,
            Kernel::Box2V,
            Kernel::WarpDiff,
            Kernel::SolveUpdate,
            Kernel::Median,
            Kernel::UpscaleFlow,
            Kernel::Negate,
            Kernel::Blur,
        ]
    }

    /// Where the kernel stands among all of them.
    pub fn index(self) -> (i: usize)
        ensures
            i < every_kernel().len(),
            every_kernel()[i as int] == self,
    {
        match self {
            Kernel::GaussianH => 0,
            Kernel::GaussianV => 1,
            Kernel::Downsample => 2,
            Kernel::Gradients => 3,
            Kernel::Products => 4,
            Kernel::Box3H => 5,
            Kernel::Box3V => 6,
            Kernel::Box2H => 7,
            Kernel::Box2V => 8,
            Kernel::WarpDiff => 9,
            Kernel::SolveUpdate => 10,
            Kernel::Median => 11,
            Kernel::UpscaleFlow => 12,
            Kernel::Negate => 13,
            Kernel::Blur => 14,
        }
    }
}

} // verus!
