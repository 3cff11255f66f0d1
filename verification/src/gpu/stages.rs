//! The stages of the device's work, one kernel or a pair of passes each.
use crate::gpu::device::{
    goes_on, has_room, is_bound, output, refilled, written, Device, GpuContext, Tensor,
};
use crate::gpu::kernel::Kernel;
use vstd::prelude::*;

verus! {

/// A motion field: the horizontal and the vertical component.
pub struct Field {
    pub u: Tensor,
    pub v: Tensor,
}

/// A grid that the kernels can cover.
pub open spec fn is_grid(w: int, h: int) -> bool {
    0 < w <= u32::MAX - 15 && 0 < h <= u32::MAX - 15 && w * h <= usize::MAX
}

/// What a kernel writes to slot `slot`, given what it reads.
pub open spec fn ran(kernel: Kernel, slot: int, inputs: Seq<Tensor>, params: Seq<u32>) -> Tensor {
    Tensor::Output { kernel, slot, inputs, params }
}

/// Parameters of a kernel that works on one grid.
pub open spec fn dims(w: int, h: int) -> Seq<u32> {
    seq![w as u32, h as u32]
}

/// Parameters of a box filter.
pub open spec fn box_params(w: int, h: int, r: usize) -> Seq<u32> {
    seq![w as u32, h as u32, r as u32, 0u32]
}

/// Parameters of a kernel that resizes a grid.
pub open spec fn resize_params(w: int, h: int, from_w: int, from_h: int) -> Seq<u32> {
    seq![w as u32, h as u32, from_w as u32, from_h as u32]
}

/// An image after the horizontal pass of the Gaussian blur.
pub open spec fn half_blurred(t: Tensor, w: int, h: int) -> Tensor {
    ran(Kernel::GaussianH, 1, seq![t], dims(w, h))
}

/// An image after the Gaussian blur.
pub open spec fn blurred(t: Tensor, w: int, h: int) -> Tensor {
    ran(Kernel::GaussianV, 1, seq![half_blurred(t, w, h)], dims(w, h))
}

/// An image of half the size.
pub open spec fn downsampled(t: Tensor, w: int, h: int, from_w: int, from_h: int) -> Tensor {
    ran(Kernel::Downsample, 1, seq![t], resize_params(w, h, from_w, from_h))
}

/// The horizontal gradient.
pub open spec fn gradient_x(t: Tensor, w: int, h: int) -> Tensor {
    ran(Kernel::Gradients, 1, seq![t], dims(w, h))
}

/// The vertical gradient.
pub open spec fn gradient_y(t: Tensor, w: int, h: int) -> Tensor {
    ran(Kernel::Gradients, 2, seq![t], dims(w, h))
}

/// The products of the gradients: number 0 is that of the horizontal one with
/// itself, 1 that of the vertical one with itself, 2 the mixed one.
pub open spec fn product(ix: Tensor, iy: Tensor, which: int, w: int, h: int) -> Tensor {
    ran(Kernel::Products, 2 + which, seq![ix, iy], dims(w, h))
}

/// One of three images after the horizontal pass of the box filter.
pub open spec fn half_summed3(
    a: Tensor,
    b: Tensor,
    c: Tensor,
    which: int,
    w: int,
    h: int,
    r: usize,
) -> Tensor {
    ran(Kernel::Box3H, 3 + which, seq![a, b, c], box_params(w, h, r))
}

/// One of three images after the box filter.
pub open spec fn summed3(
    a: Tensor,
    b: Tensor,
    c: Tensor,
    which: int,
    w: int,
    h: int,
    r: usize,
) -> Tensor {
    ran(
        Kernel::Box3V,
        3 + which,
        seq![
            half_summed3(a, b, c, 0, w, h, r),
            half_summed3(a, b, c, 1, w, h, r),
            half_summed3(a, b, c, 2, w, h, r),
        ],
        box_params(w, h, r),
    )
}

/// One of two images after the horizontal pass of the box filter.
pub open spec fn half_summed2(
    a: Tensor,
    b: Tensor,
    which: int,
    w: int,
    h: int,
    r: usize,
) -> Tensor {
    ran(Kernel::Box2H, 2 + which, seq![a, b], box_params(w, h, r))
}

/// One of two images after the box filter.
pub open spec fn summed2(a: Tensor, b: Tensor, which: int, w: int, h: int, r: usize) -> Tensor {
    ran(
        Kernel::Box2V,
        2 + which,
        seq![half_summed2(a, b, 0, w, h, r), half_summed2(a, b, 1, w, h, r)],
        box_params(w, h, r),
    )
}

/// The gradients times the difference between two images, the second one
/// taken where the motion leads: number 0 with the horizontal gradient, 1 with
/// the vertical one.
pub open spec fn mismatch(
    a: Tensor,
    b: Tensor,
    m: Field,
    ix: Tensor,
    iy: Tensor,
    which: int,
    w: int,
    h: int,
) -> Tensor {
    ran(Kernel::WarpDiff, 6 + which, seq![a, b, m.u, m.v, ix, iy], dims(w, h))
}

/// A component of the motion after an update.
pub open spec fn updated(
    xx: Tensor,
    yy: Tensor,
    xy: Tensor,
    xt: Tensor,
    yt: Tensor,
    m: Field,
    which: int,
    w: int,
    h: int,
) -> Tensor {
    ran(Kernel::SolveUpdate, 5 + which, seq![xx, yy, xy, xt, yt, m.u, m.v], dims(w, h))
}

/// An image after the median filter.
pub open spec fn median(t: Tensor, w: int, h: int) -> Tensor {
    ran(Kernel::Median, 1, seq![t], dims(w, h))
}

/// A motion field on a finer grid.
pub open spec fn upscaled(m: Field, w: int, h: int, from_w: int, from_h: int) -> Field {
    Field {
        u: ran(Kernel::UpscaleFlow, 2, seq![m.u, m.v], resize_params(w, h, from_w, from_h)),
        v: ran(Kernel::UpscaleFlow, 3, seq![m.u, m.v], resize_params(w, h, from_w, from_h)),
    }
}

/// A motion field turned round.
pub open spec fn negated(m: Field, w: int, h: int) -> Field {
    Field {
        u: ran(Kernel::Negate, 2, seq![m.u, m.v], dims(w, h)),
        v: ran(Kernel::Negate, 3, seq![m.u, m.v], dims(w, h)),
    }
}

/// A frame blurred along two motion fields.
pub open spec fn motion_blurred(
    frame: Tensor,
    fwd: Field,
    bwd: Field,
    w: int,
    h: int,
    shutter: u32,
    samples: usize,
) -> Tensor {
    ran(
        Kernel::Blur,
        5,
        seq![frame, fwd.u, fwd.v, bwd.u, bwd.v],
        seq![w as u32, h as u32, samples as u32, shutter],
    )
}

/// What a buffer holds.
pub open spec fn held(d: Device, b: usize) -> Tensor {
    d.buffers[b as int].holds
}

/// What two buffers hold.
pub open spec fn field(d: Device, u: usize, v: usize) -> Field {
    Field { u: held(d, u), v: held(d, v) }
}

/// The device with kernels recorded that leave new contents in a buffer.
pub open spec fn put(d: Device, b: usize, t: Tensor) -> Device {
    Device { buffers: refilled(d.buffers, b as int, t), pending: true, ..d }
}

impl GpuContext {
    /// Runs a kernel that writes one buffer.
    fn run1(
        &mut self,
        kernel: Kernel,
        buffers: Vec<usize>,
        params: Vec<u32>,
        Ghost(inputs): Ghost<Seq<Tensor>>,
    )
        requires
            old(self).wf(),
            is_bound(old(self)@, kernel, buffers@, params@),
            params@[0] <= u32::MAX - 15,
            params@[1] <= u32::MAX - 15,
            kernel.buffers() == kernel.reads() + 1,
            inputs.len() == kernel.inputs(),
            forall|i: int|
                0 <= i < inputs.len() ==> #[trigger] inputs[i] == held(old(self)@, buffers@[i]),
        ensures
            final(self).wf(),
            goes_on(old(self).recorded(), final(self).recorded()),
            final(self)@ == put(
                old(self)@,
                buffers@[kernel.reads()],
                ran(kernel, kernel.reads(), inputs, params@),
            ),
    {
        proof {
            reveal_with_fuel(written, 2);
            let o = output(self@.buffers, kernel, buffers@, params@, kernel.reads());
            assert(o->inputs =~= inputs);
        }
        self.dispatch(kernel, buffers, params);
    }

    /// Runs a kernel that writes two buffers.
    fn run2(
        &mut self,
        kernel: Kernel,
        buffers: Vec<usize>,
        params: Vec<u32>,
        Ghost(inputs): Ghost<Seq<Tensor>>,
    )
        requires
            old(self).wf(),
            is_bound(old(self)@, kernel, buffers@, params@),
            params@[0] <= u32::MAX - 15,
            params@[1] <= u32::MAX - 15,
            kernel.buffers() == kernel.reads() + 2,
            inputs.len() == kernel.inputs(),
            forall|i: int|
                0 <= i < inputs.len() ==> #[trigger] inputs[i] == held(old(self)@, buffers@[i]),
        ensures
            final(self).wf(),
            goes_on(old(self).recorded(), final(self).recorded()),
            final(self)@ == put(
                put(
                    old(self)@,
                    buffers@[kernel.reads()],
                    ran(kernel, kernel.reads(), inputs, params@),
                ),
                buffers@[kernel.reads() + 1],
                ran(kernel, kernel.reads() + 1, inputs, params@),
            ),
    {
        proof {
            reveal_with_fuel(written, 3);
            let o = output(self@.buffers, kernel, buffers@, params@, kernel.reads());
            assert(o->inputs =~= inputs);
        }
        self.dispatch(kernel, buffers, params);
    }

    /// Runs a kernel that writes three buffers.
    fn run3(
        &mut self,
        kernel: Kernel,
        buffers: Vec<usize>,
        params: Vec<u32>,
        Ghost(inputs): Ghost<Seq<Tensor>>,
    )
        requires
            old(self).wf(),
            is_bound(old(self)@, kernel, buffers@, params@),
            params@[0] <= u32::MAX - 15,
            params@[1] <= u32::MAX - 15,
            kernel.buffers() == kernel.reads() + 3,
            inputs.len() == kernel.inputs(),
            forall|i: int|
                0 <= i < inputs.len() ==> #[trigger] inputs[i] == held(old(self)@, buffers@[i]),
        ensures
            final(self).wf(),
            goes_on(old(self).recorded(), final(self).recorded()),
            final(self)@ == put(
                put(
                    put(
                        old(self)@,
                        buffers@[kernel.reads()],
                        ran(kernel, kernel.reads(), inputs, params@),
                    ),
                    buffers@[kernel.reads() + 1],
                    ran(kernel, kernel.reads() + 1, inputs, params@),
                ),
                buffers@[kernel.reads() + 2],
                ran(kernel, kernel.reads() + 2, inputs, params@),
            ),
    {
        proof {
            reveal_with_fuel(written, 4);
            let o = output(self@.buffers, kernel, buffers@, params@, kernel.reads());
            assert(o->inputs =~= inputs);
        }
        self.dispatch(kernel, buffers, params);
    }

    /// Gaussian blur, by way of `tmp`.
    pub fn enc_gaussian(&mut self, src: usize, tmp: usize, dst: usize, w: usize, h: usize)
        requires
            old(self).wf(),
            is_grid(w as int, h as int),
            has_room(old(self)@, src as int, w * h),
            has_room(old(self)@, tmp as int, w * h),
            has_room(old(self)@, dst as int, w * h),
            src != tmp,
            tmp != dst,
        ensures
            final(self).wf(),
            goes_on(old(self).recorded(), final(self).recorded()),
            final(self)@ == put(
                put(old(self)@, tmp, half_blurred(held(old(self)@, src), w as int, h as int)),
                dst,
                blurred(held(old(self)@, src), w as int, h as int),
            ),
    {
        let ghost a = held(self@, src);
        let ghost inputs = seq![a];
        self.run1(Kernel::GaussianH, vec![src, tmp], vec![w as u32, h as u32], Ghost(inputs));
        let ghost inputs_v = seq![half_blurred(a, w as int, h as int)];
        self.run1(Kernel::GaussianV, vec![tmp, dst], vec![w as u32, h as u32], Ghost(inputs_v));
    }

    /// Halves an image.
    pub fn enc_downsample(
        &mut self,
        src: usize,
        dst: usize,
        sw: usize,
        sh: usize,
        nw: usize,
        nh: usize,
    )
        requires
            old(self).wf(),
            is_grid(nw as int, nh as int),
            is_grid(sw as int, sh as int),
            has_room(old(self)@, src as int, sw * sh),
            has_room(old(self)@, dst as int, nw * nh),
            dst != src,
        ensures
            final(self).wf(),
            goes_on(old(self).recorded(), final(self).recorded()),
            final(self)@ == put(
                old(self)@,
                dst,
                downsampled(held(old(self)@, src), nw as int, nh as int, sw as int, sh as int),
            ),
    {
        let ghost inputs = seq![held(self@, src)];
        self.run1(
            Kernel::Downsample,
            vec![src, dst],
            vec![nw as u32, nh as u32, sw as u32, sh as u32],
            Ghost(inputs),
        );
    }

    /// Gradients of an image.
    pub fn enc_gradients(&mut self, a: usize, ix: usize, iy: usize, w: usize, h: usize)
        requires
            old(self).wf(),
            is_grid(w as int, h as int),
            has_room(old(self)@, a as int, w * h),
            has_room(old(self)@, ix as int, w * h),
            has_room(old(self)@, iy as int, w * h),
            ix != a,
            iy != a,
            iy != ix,
        ensures
            final(self).wf(),
            goes_on(old(self).recorded(), final(self).recorded()),
            final(self)@ == put(
                put(old(self)@, ix, gradient_x(held(old(self)@, a), w as int, h as int)),
                iy,
                gradient_y(held(old(self)@, a), w as int, h as int),
            ),
    {
        let ghost inputs = seq![held(self@, a)];
        self.run2(Kernel::Gradients, vec![a, ix, iy], vec![w as u32, h as u32], Ghost(inputs));
    }

    /// Products of the gradients.
    pub fn enc_products(
        &mut self,
        ix: usize,
        iy: usize,
        xx: usize,
        yy: usize,
        xy: usize,
        w: usize,
        h: usize,
    )
        requires
            old(self).wf(),
            is_grid(w as int, h as int),
            has_room(old(self)@, ix as int, w * h),
            has_room(old(self)@, iy as int, w * h),
            has_room(old(self)@, xx as int, w * h),
            has_room(old(self)@, yy as int, w * h),
            has_room(old(self)@, xy as int, w * h),
            xx != ix,
            xx != iy,
            yy != ix,
            yy != iy,
            yy != xx,
            xy != ix,
            xy != iy,
            xy != xx,
            xy != yy,
        ensures
            final(self).wf(),
            goes_on(old(self).recorded(), final(self).recorded()),
            final(self)@ == put(
                put(
                    put(
                        old(self)@,
                        xx,
                        product(held(old(self)@, ix), held(old(self)@, iy), 0, w as int, h as int),
                    ),
                    yy,
                    product(held(old(self)@, ix), held(old(self)@, iy), 1, w as int, h as int),
                ),
                xy,
                product(held(old(self)@, ix), held(old(self)@, iy), 2, w as int, h as int),
            ),
    {
        let ghost inputs = seq![held(self@, ix), held(self@, iy)];
        self.run3(
            Kernel::Products,
            vec![ix, iy, xx, yy, xy],
            vec![w as u32, h as u32],
            Ghost(inputs),
        );
    }

    /// Box filter of three images, by way of three others.
    pub fn enc_box3(
        &mut self,
        a: usize,
        b: usize,
        c: usize,
        x: usize,
        y: usize,
        z: usize,
        t0: usize,
        t1: usize,
        t2: usize,
        w: usize,
        h: usize,
        r: usize,
    )
        requires
            old(self).wf(),
            is_grid(w as int, h as int),
            has_room(old(self)@, a as int, w * h),
            has_room(old(self)@, b as int, w * h),
            has_room(old(self)@, c as int, w * h),
            has_room(old(self)@, x as int, w * h),
            has_room(old(self)@, y as int, w * h),
            has_room(old(self)@, z as int, w * h),
            has_room(old(self)@, t0 as int, w * h),
            has_room(old(self)@, t1 as int, w * h),
            has_room(old(self)@, t2 as int, w * h),
            t0 != a,
            t0 != b,
            t0 != c,
            t1 != a,
            t1 != b,
            t1 != c,
            t1 != t0,
            t2 != a,
            t2 != b,
            t2 != c,
            t2 != t0,
            t2 != t1,
            x != t0,
            x != t1,
            x != t2,
            y != t0,
            y != t1,
            y != t2,
            y != x,
            z != t0,
            z != t1,
            z != t2,
            z != x,
            z != y,
        ensures
            final(self).wf(),
            goes_on(old(self).recorded(), final(self).recorded()),
            final(self)@ == put(
                put(
                    put(
                        put(
                            put(
                                put(
                                    old(self)@,
                                    t0,
                                    half_summed3(
                                        held(old(self)@, a),
                                        held(old(self)@, b),
                                        held(old(self)@, c),
                                        0,
                                        w as int,
                                        h as int,
                                        r,
                                    ),
                                ),
                                t1,
                                half_summed3(
                                    held(old(self)@, a),
                                    held(old(self)@, b),
                                    held(old(self)@, c),
                                    1,
                                    w as int,
                                    h as int,
                                    r,
                                ),
                            ),
                            t2,
                            half_summed3(
                                held(old(self)@, a),
                                held(old(self)@, b),
                                held(old(self)@, c),
                                2,
                                w as int,
                                h as int,
                                r,
                            ),
                        ),
                        x,
                        summed3(
                            held(old(self)@, a),
                            held(old(self)@, b),
                            held(old(self)@, c),
                            0,
                            w as int,
                            h as int,
                            r,
                        ),
                    ),
                    y,
                    summed3(
                        held(old(self)@, a),
                        held(old(self)@, b),
                        held(old(self)@, c),
                        1,
                        w as int,
                        h as int,
                        r,
                    ),
                ),
                z,
                summed3(
                    held(old(self)@, a),
                    held(old(self)@, b),
                    held(old(self)@, c),
                    2,
                    w as int,
                    h as int,
                    r,
                ),
            ),
    {
        let ghost (i0, i1, i2) = (held(self@, a), held(self@, b), held(self@, c));
        let ghost inputs = seq![i0, i1, i2];
        self.run3(
            Kernel::Box3H,
            vec![a, b, c, t0, t1, t2],
            vec![w as u32, h as u32, r as u32, 0],
            Ghost(inputs),
        );
        let ghost inputs_v = seq![
            half_summed3(i0, i1, i2, 0, w as int, h as int, r),
            half_summed3(i0, i1, i2, 1, w as int, h as int, r),
            half_summed3(i0, i1, i2, 2, w as int, h as int, r),
        ];
        self.run3(
            Kernel::Box3V,
            vec![t0, t1, t2, x, y, z],
            vec![w as u32, h as u32, r as u32, 0],
            Ghost(inputs_v),
        );
    }

    /// Box filter of two images, by way of two others.
    pub fn enc_box2(
        &mut self,
        a: usize,
        b: usize,
        x: usize,
        y: usize,
        t0: usize,
        t1: usize,
        w: usize,
        h: usize,
        r: usize,
    )
        requires
            old(self).wf(),
            is_grid(w as int, h as int),
            has_room(old(self)@, a as int, w * h),
            has_room(old(self)@, b as int, w * h),
            has_room(old(self)@, x as int, w * h),
            has_room(old(self)@, y as int, w * h),
            has_room(old(self)@, t0 as int, w * h),
            has_room(old(self)@, t1 as int, w * h),
            t0 != a,
            t0 != b,
            t1 != a,
            t1 != b,
            t1 != t0,
            x != t0,
            x != t1,
            y != t0,
            y != t1,
            y != x,
        ensures
            final(self).wf(),
            goes_on(old(self).recorded(), final(self).recorded()),
            final(self)@ == put(
                put(
                    put(
                        put(
                            old(self)@,
                            t0,
                            half_summed2(
                                held(old(self)@, a),
                                held(old(self)@, b),
                                0,
                                w as int,
                                h as int,
                                r,
                            ),
                        ),
                        t1,
                        half_summed2(
                            held(old(self)@, a),
                            held(old(self)@, b),
                            1,
                            w as int,
                            h as int,
                            r,
                        ),
                    ),
                    x,
                    summed2(held(old(self)@, a), held(old(self)@, b), 0, w as int, h as int, r),
                ),
                y,
                summed2(held(old(self)@, a), held(old(self)@, b), 1, w as int, h as int, r),
            ),
    {
        let ghost (i0, i1) = (held(self@, a), held(self@, b));
        let ghost inputs = seq![i0, i1];
        self.run2(
            Kernel::Box2H,
            vec![a, b, t0, t1],
            vec![w as u32, h as u32, r as u32, 0],
            Ghost(inputs),
        );
        let ghost inputs_v = seq![
            half_summed2(i0, i1, 0, w as int, h as int, r),
            half_summed2(i0, i1, 1, w as int, h as int, r),
        ];
        self.run2(
            Kernel::Box2V,
            vec![t0, t1, x, y],
            vec![w as u32, h as u32, r as u32, 0],
            Ghost(inputs_v),
        );
    }

    /// Mismatch between two images under a motion field.
    pub fn enc_warp(
        &mut self,
        a: usize,
        b: usize,
        u: usize,
        v: usize,
        ix: usize,
        iy: usize,
        xt: usize,
        yt: usize,
        w: usize,
        h: usize,
    )
        requires
            old(self).wf(),
            is_grid(w as int, h as int),
            has_room(old(self)@, a as int, w * h),
            has_room(old(self)@, b as int, w * h),
            has_room(old(self)@, u as int, w * h),
            has_room(old(self)@, v as int, w * h),
            has_room(old(self)@, ix as int, w * h),
            has_room(old(self)@, iy as int, w * h),
            has_room(old(self)@, xt as int, w * h),
            has_room(old(self)@, yt as int, w * h),
            xt != a,
            xt != b,
            xt != u,
            xt != v,
            xt != ix,
            xt != iy,
            yt != a,
            yt != b,
            yt != u,
            yt != v,
            yt != ix,
            yt != iy,
            yt != xt,
        ensures
            final(self).wf(),
            goes_on(old(self).recorded(), final(self).recorded()),
            final(self)@ == put(
                put(
                    old(self)@,
                    xt,
                    mismatch(
                        held(old(self)@, a),
                        held(old(self)@, b),
                        field(old(self)@, u, v),
                        held(old(self)@, ix),
                        held(old(self)@, iy),
                        0,
                        w as int,
                        h as int,
                    ),
                ),
                yt,
                mismatch(
                    held(old(self)@, a),
                    held(old(self)@, b),
                    field(old(self)@, u, v),
                    held(old(self)@, ix),
                    held(old(self)@, iy),
                    1,
                    w as int,
                    h as int,
                ),
            ),
    {
        let ghost inputs = seq![
            held(self@, a),
            held(self@, b),
            held(self@, u),
            held(self@, v),
            held(self@, ix),
            held(self@, iy),
        ];
        self.run2(
            Kernel::WarpDiff,
            vec![a, b, u, v, ix, iy, xt, yt],
            vec![w as u32, h as u32],
            Ghost(inputs),
        );
    }

    /// Updates a motion field in place.
    pub fn enc_solve(
        &mut self,
        xx: usize,
        yy: usize,
        xy: usize,
        xt: usize,
        yt: usize,
        u: usize,
        v: usize,
        w: usize,
        h: usize,
    )
        requires
            old(self).wf(),
            is_grid(w as int, h as int),
            has_room(old(self)@, xx as int, w * h),
            has_room(old(self)@, yy as int, w * h),
            has_room(old(self)@, xy as int, w * h),
            has_room(old(self)@, xt as int, w * h),
            has_room(old(self)@, yt as int, w * h),
            has_room(old(self)@, u as int, w * h),
            has_room(old(self)@, v as int, w * h),
            u != xx,
            u != yy,
            u != xy,
            u != xt,
            u != yt,
            v != xx,
            v != yy,
            v != xy,
            v != xt,
            v != yt,
            v != u,
        ensures
            final(self).wf(),
            goes_on(old(self).recorded(), final(self).recorded()),
            final(self)@ == put(
                put(
                    old(self)@,
                    u,
                    updated(
                        held(old(self)@, xx),
                        held(old(self)@, yy),
                        held(old(self)@, xy),
                        held(old(self)@, xt),
                        held(old(self)@, yt),
                        field(old(self)@, u, v),
                        0,
                        w as int,
                        h as int,
                    ),
                ),
                v,
                updated(
                    held(old(self)@, xx),
                    held(old(self)@, yy),
                    held(old(self)@, xy),
                    held(old(self)@, xt),
                    held(old(self)@, yt),
                    field(old(self)@, u, v),
                    1,
                    w as int,
                    h as int,
                ),
            ),
    {
        let ghost inputs = seq![
            held(self@, xx),
            held(self@, yy),
            held(self@, xy),
            held(self@, xt),
            held(self@, yt),
            held(self@, u),
            held(self@, v),
        ];
        self.run2(
            Kernel::SolveUpdate,
            vec![xx, yy, xy, xt, yt, u, v],
            vec![w as u32, h as u32],
            Ghost(inputs),
        );
    }

    /// Median filter.
    pub fn enc_median(&mut self, src: usize, dst: usize, w: usize, h: usize)
        requires
            old(self).wf(),
            is_grid(w as int, h as int),
            has_room(old(self)@, src as int, w * h),
            has_room(old(self)@, dst as int, w * h),
            dst != src,
        ensures
            final(self).wf(),
            goes_on(old(self).recorded(), final(self).recorded()),
            final(self)@ == put(old(self)@, dst, median(held(old(self)@, src), w as int, h as int)),
    {
        let ghost inputs = seq![held(self@, src)];
        self.run1(Kernel::Median, vec![src, dst], vec![w as u32, h as u32], Ghost(inputs));
    }

    /// Carries a motion field over to a finer grid.
    pub fn enc_upscale_flow(
        &mut self,
        su: usize,
        sv: usize,
        du: usize,
        dv: usize,
        tw: usize,
        th: usize,
        sw: usize,
        sh: usize,
    )
        requires
            old(self).wf(),
            is_grid(tw as int, th as int),
            is_grid(sw as int, sh as int),
            has_room(old(self)@, su as int, sw * sh),
            has_room(old(self)@, sv as int, sw * sh),
            has_room(old(self)@, du as int, tw * th),
            has_room(old(self)@, dv as int, tw * th),
            du != su,
            du != sv,
            dv != su,
            dv != sv,
            dv != du,
        ensures
            final(self).wf(),
            goes_on(old(self).recorded(), final(self).recorded()),
            final(self)@ == put(
                put(
                    old(self)@,
                    du,
                    upscaled(
                        field(old(self)@, su, sv),
                        tw as int,
                        th as int,
                        sw as int,
                        sh as int,
                    ).u,
                ),
                dv,
                upscaled(field(old(self)@, su, sv), tw as int, th as int, sw as int, sh as int).v,
            ),
    {
        let ghost inputs = seq![held(self@, su), held(self@, sv)];
        self.run2(
            Kernel::UpscaleFlow,
            vec![su, sv, du, dv],
            vec![tw as u32, th as u32, sw as u32, sh as u32],
            Ghost(inputs),
        );
    }

    /// Turns a motion field round.
    pub fn enc_negate(&mut self, su: usize, sv: usize, du: usize, dv: usize, w: usize, h: usize)
        requires
            old(self).wf(),
            is_grid(w as int, h as int),
            has_room(old(self)@, su as int, w * h),
            has_room(old(self)@, sv as int, w * h),
            has_room(old(self)@, du as int, w * h),
            has_room(old(self)@, dv as int, w * h),
            du != su,
            du != sv,
            dv != su,
            dv != sv,
            dv != du,
        ensures
            final(self).wf(),
            goes_on(old(self).recorded(), final(self).recorded()),
            final(self)@ == put(
                put(old(self)@, du, negated(field(old(self)@, su, sv), w as int, h as int).u),
                dv,
                negated(field(old(self)@, su, sv), w as int, h as int).v,
            ),
    {
        let ghost inputs = seq![held(self@, su), held(self@, sv)];
        self.run2(Kernel::Negate, vec![su, sv, du, dv], vec![w as u32, h as u32], Ghost(inputs));
    }

    /// Blurs a frame along its motion.
    pub fn enc_blur(
        &mut self,
        frame: usize,
        fu: usize,
        fv: usize,
        bu: usize,
        bv: usize,
        out: usize,
        w: usize,
        h: usize,
        shutter: u32,
        samples: usize,
    )
        requires
            old(self).wf(),
            is_grid(w as int, h as int),
            has_room(old(self)@, frame as int, w * h),
            has_room(old(self)@, fu as int, w * h),
            has_room(old(self)@, fv as int, w * h),
            has_room(old(self)@, bu as int, w * h),
            has_room(old(self)@, bv as int, w * h),
            has_room(old(self)@, out as int, w * h),
            out != frame,
            out != fu,
            out != fv,
            out != bu,
            out != bv,
        ensures
            final(self).wf(),
            goes_on(old(self).recorded(), final(self).recorded()),
            final(self)@ == put(
                old(self)@,
                out,
                motion_blurred(
                    held(old(self)@, frame),
                    field(old(self)@, fu, fv),
                    field(old(self)@, bu, bv),
                    w as int,
                    h as int,
                    shutter,
                    samples,
                ),
            ),
    {
        let ghost inputs = seq![
            held(self@, frame),
            held(self@, fu),
            held(self@, fv),
            held(self@, bu),
            held(self@, bv),
        ];
        self.run1(
            Kernel::Blur,
            vec![frame, fu, fv, bu, bv, out],
            vec![w as u32, h as u32, samples as u32, shutter],
            Ghost(inputs),
        );
    }
}

} // verus!
