//! Single-channel images, motion fields, and the passes that smooth and
//! resize them.
use crate::grid::{ahead, back, index, lemma_split_index, lesser};
use crate::levels::half_side;
use crate::numerics::Numerics;
use crate::parallel::par_map;
use vstd::prelude::*;

verus! {

/// Single-channel image, row by row.
pub struct Gray<T> {
    pub w: usize,
    pub h: usize,
    pub data: Vec<T>,
}

/// Per-pixel motion vector field, row by row.
pub struct FlowField<T> {
    pub w: usize,
    pub h: usize,
    /// Horizontal component.
    pub u: Vec<T>,
    /// Vertical component.
    pub v: Vec<T>,
}

impl<T> Gray<T> {
    /// There is one sample for every cell.
    pub open spec fn wf(&self) -> bool {
        self.data.len() == self.w * self.h
    }
}

impl<T> FlowField<T> {
    /// There is one vector for every cell.
    pub open spec fn wf(&self) -> bool {
        &&& self.u.len() == self.w * self.h
        &&& self.v.len() == self.w * self.h
    }
}

/// `data` holds the brightness of every pixel of `rgb`.
pub open spec fn is_gray_of<K: Numerics>(k: &K, rgb: Seq<u8>, data: Seq<K::T>) -> bool {
    forall|i: int|
        0 <= i < data.len() ==> call_ensures(
            K::luma,
            (k, rgb[3 * i], rgb[3 * i + 1], rgb[3 * i + 2]),
            #[trigger] data[i],
        )
}

/// `out` mixes the four cells about column `cx` and row `cy`; a cell beyond
/// the last column or row stands for the last one.
pub open spec fn is_bilinear<K: Numerics>(
    k: &K,
    data: Seq<K::T>,
    w: usize,
    h: usize,
    cx: usize,
    cy: usize,
    fx: K::T,
    fy: K::T,
    out: K::T,
) -> bool {
    let x0 = lesser(cx as int, w - 1);
    let x1 = lesser(cx + 1, w - 1);
    let y0 = lesser(cy as int, h - 1);
    let y1 = lesser(cy + 1, h - 1);
    call_ensures(
        K::bilinear,
        (
            k,
            data[y0 * w + x0],
            data[y0 * w + x1],
            data[y1 * w + x0],
            data[y1 * w + x1],
            fx,
            fy,
        ),
        out,
    )
}

/// `out` is the image at the fractional position `(px, py)`.
pub open spec fn is_sample<K: Numerics>(
    k: &K,
    data: Seq<K::T>,
    w: usize,
    h: usize,
    px: K::T,
    py: K::T,
    out: K::T,
) -> bool {
    exists|cx: usize, fx: K::T, cy: usize, fy: K::T|
        call_ensures(K::cell, (k, px, w), (cx, fx)) && call_ensures(K::cell, (k, py, h), (cy, fy))
            && #[trigger] is_bilinear(k, data, w, h, cx, cy, fx, fy, out)
}

/// Bilinear mix of the four cells about column `cx` and row `cy`.
pub(crate) fn mix_cells<K: Numerics>(
    k: &K,
    data: &Vec<K::T>,
    w: usize,
    h: usize,
    cx: usize,
    cy: usize,
    fx: K::T,
    fy: K::T,
) -> (out: K::T)
    requires
        w > 0,
        h > 0,
        data.len() == w * h,
    ensures
        is_bilinear(k, data@, w, h, cx, cy, fx, fy, out),
{
    let x0: usize = if cx < w {
        cx
    } else {
        w - 1
    };
    let y0: usize = if cy < h {
        cy
    } else {
        h - 1
    };
    let x1: usize = ahead(x0, 1, w);
    let y1: usize = ahead(y0, 1, h);
    k.bilinear(
        data[index(x0, y0, w, h)],
        data[index(x1, y0, w, h)],
        data[index(x0, y1, w, h)],
        data[index(x1, y1, w, h)],
        fx,
        fy,
    )
}

impl<T: Copy + Send + Sync> Gray<T> {
    /// Brightness of a packed RGB frame.
    pub fn from_rgb<K: Numerics<T = T>>(k: &K, rgb: &[u8], w: usize, h: usize) -> (gray: Self)
        requires
            3 * (w * h) <= rgb@.len(),
        ensures
            gray.wf(),
            gray.w == w,
            gray.h == h,
            is_gray_of(k, rgb@, gray.data@),
    {
        let len: usize = rgb.len();
        proof {
            assert(w * h >= 0) by (nonlinear_arith);
        }
        let data = par_map(
            w * h,
            |i: usize| -> (g: T)
                requires
                    w * h > i,
                    3 * (w * h) <= rgb@.len(),
                    rgb@.len() == len,
                ensures
                    call_ensures(
                        K::luma,
                        (k, rgb@[3 * i], rgb@[3 * i + 1], rgb@[3 * i + 2]),
                        g,
                    )
                { k.luma(rgb[i * 3], rgb[i * 3 + 1], rgb[i * 3 + 2]) },
        );
        Gray { w, h, data }
    }

    /// The sample at column `x` of row `y`.
    pub fn at(&self, x: usize, y: usize) -> (s: T)
        requires
            y * self.w + x < self.data@.len(),
        ensures
            s == self.data@[y * self.w + x],
    {
        let len: usize = self.data.len();
        proof {
            assert(y * self.w >= 0) by (nonlinear_arith);
        }
        self.data[y * self.w + x]
    }

    /// Bilinear sample at fractional coordinates, clamped to the border.
    pub fn sample<K: Numerics<T = T>>(&self, k: &K, x: T, y: T) -> (out: T)
        requires
            self.wf(),
            self.w >= 2,
            self.h >= 2,
        ensures
            is_sample(k, self.data@, self.w, self.h, x, y, out),
    {
        let (cx, fx) = k.cell(x, self.w);
        let (cy, fy) = k.cell(y, self.h);
        mix_cells(k, &self.data, self.w, self.h, cx, cy, fx, fy)
    }

    /// A copy of the image.
    pub fn duplicate(&self) -> (copy: Self)
        ensures
            copy.w == self.w,
            copy.h == self.h,
            copy.data@ == self.data@,
    {
        Gray { w: self.w, h: self.h, data: copy_of(&self.data) }
    }
}

/// A copy of a vector of plain values.
pub(crate) fn copy_of<T: Copy>(items: &Vec<T>) -> (copy: Vec<T>)
    ensures
        copy@ == items@,
{
    let mut copy: Vec<T> = Vec::new();
    let mut i: usize = 0;
    while i < items.len()
        invariant
            i <= items@.len(),
            copy@ == items@.take(i as int),
        decreases items@.len() - i,
    {
        copy.push(items[i]);
        assert(items@.take(i + 1) =~= items@.take(i as int).push(items@[i as int]));
        i += 1;
    }
    assert(items@.take(i as int) =~= items@);
    copy
}

impl<T: Copy + Send + Sync> FlowField<T> {
    /// A field without motion.
    pub fn zeros<K: Numerics<T = T>>(k: &K, w: usize, h: usize) -> (flow: Self)
        requires
            w * h <= usize::MAX,
        ensures
            flow.wf(),
            flow.w == w,
            flow.h == h,
            is_zero_field(k, flow.u@),
            is_zero_field(k, flow.v@),
    {
        FlowField { w, h, u: zero_field(k, w * h), v: zero_field(k, w * h) }
    }
}

/// Every entry is an empty sum.
pub open spec fn is_zero_field<K: Numerics>(k: &K, field: Seq<K::T>) -> bool {
    forall|i: int| 0 <= i < field.len() ==> call_ensures(K::zero, (k,), #[trigger] field[i])
}

fn zero_field<K: Numerics>(k: &K, n: usize) -> (field: Vec<K::T>)
    ensures
        field.len() == n,
        is_zero_field(k, field@),
{
    let mut field: Vec<K::T> = Vec::new();
    let mut i: usize = 0;
    while i < n
        invariant
            i <= n,
            field.len() == i,
            is_zero_field(k, field@),
        decreases n - i,
    {
        field.push(k.zero());
        i += 1;
    }
    field
}

/// `dst` blurs every row of `src` with the five-tap kernel; taps beyond an end
/// of the row fall on its end.
pub open spec fn is_blurred_rows<K: Numerics>(
    k: &K,
    src: Seq<K::T>,
    w: int,
    h: int,
    dst: Seq<K::T>,
) -> bool {
    &&& dst.len() == w * h
    &&& forall|i: int|
        0 <= i < w * h ==> is_row_tap(k, src, w, i % w, i / w, #[trigger] dst[i])
}

/// The horizontal five-tap sum about column `x` of row `y`.
pub open spec fn is_row_tap<K: Numerics>(
    k: &K,
    src: Seq<K::T>,
    w: int,
    x: int,
    y: int,
    out: K::T,
) -> bool {
    call_ensures(
        K::gauss5,
        (
            k,
            src[y * w + (if x >= 2 { x - 2 } else { 0 })],
            src[y * w + (if x >= 1 { x - 1 } else { 0 })],
            src[y * w + x],
            src[y * w + lesser(x + 1, w - 1)],
            src[y * w + lesser(x + 2, w - 1)],
        ),
        out,
    )
}

/// `dst` blurs every column of `src` with the five-tap kernel; taps beyond an
/// end of the column fall on its end.
pub open spec fn is_blurred_columns<K: Numerics>(
    k: &K,
    src: Seq<K::T>,
    w: int,
    h: int,
    dst: Seq<K::T>,
) -> bool {
    &&& dst.len() == w * h
    &&& forall|i: int|
        0 <= i < w * h ==> is_column_tap(k, src, w, h, i % w, i / w, #[trigger] dst[i])
}

/// The vertical five-tap sum about row `y` of column `x`.
pub open spec fn is_column_tap<K: Numerics>(
    k: &K,
    src: Seq<K::T>,
    w: int,
    h: int,
    x: int,
    y: int,
    out: K::T,
) -> bool {
    call_ensures(
        K::gauss5,
        (
            k,
            src[(if y >= 2 { y - 2 } else { 0 }) * w + x],
            src[(if y >= 1 { y - 1 } else { 0 }) * w + x],
            src[y * w + x],
            src[lesser(y + 1, h - 1) * w + x],
            src[lesser(y + 2, h - 1) * w + x],
        ),
        out,
    )
}

/// `dst` is `src` blurred along its rows, then along its columns.
pub open spec fn is_gaussian_blurred<K: Numerics>(
    k: &K,
    src: Seq<K::T>,
    w: int,
    h: int,
    dst: Seq<K::T>,
) -> bool {
    exists|mid: Seq<K::T>| #[trigger]
        is_blurred_rows(k, src, w, h, mid) && is_blurred_columns(k, mid, w, h, dst)
}

/// Blurs every row.
pub fn blur_horiz<K: Numerics>(k: &K, src: &[K::T], w: usize, h: usize) -> (dst: Vec<K::T>)
    requires
        w * h <= src@.len(),
        w * h <= usize::MAX,
    ensures
        is_blurred_rows(k, src@, w as int, h as int, dst@),
{
    par_map(
        w * h,
        |i: usize| -> (out: K::T)
            requires
                w * h > i,
                w * h <= src@.len(),
                w * h <= usize::MAX,
            ensures
                is_row_tap(k, src@, w as int, i as int % w as int, i as int / w as int, out)
            {
                proof {
                    lemma_split_index(i as int, w as int, h as int);
                }
                let x: usize = i % w;
                let y: usize = i / w;
                k.gauss5(
                    src[index(back(x, 2), y, w, h)],
                    src[index(back(x, 1), y, w, h)],
                    src[index(x, y, w, h)],
                    src[index(ahead(x, 1, w), y, w, h)],
                    src[index(ahead(x, 2, w), y, w, h)],
                )
            },
    )
}

/// Blurs every column.
pub fn blur_vert<K: Numerics>(k: &K, src: &[K::T], w: usize, h: usize) -> (dst: Vec<K::T>)
    requires
        w * h <= src@.len(),
        w * h <= usize::MAX,
    ensures
        is_blurred_columns(k, src@, w as int, h as int, dst@),
{
    par_map(
        w * h,
        |i: usize| -> (out: K::T)
            requires
                w * h > i,
                w * h <= src@.len(),
                w * h <= usize::MAX,
            ensures
                is_column_tap(
                    k,
                    src@,
                    w as int,
                    h as int,
                    i as int % w as int,
                    i as int / w as int,
                    out,
                )
            {
                proof {
                    lemma_split_index(i as int, w as int, h as int);
                }
                let x: usize = i % w;
                let y: usize = i / w;
                k.gauss5(
                    src[index(x, back(y, 2), w, h)],
                    src[index(x, back(y, 1), w, h)],
                    src[index(x, y, w, h)],
                    src[index(x, ahead(y, 1, h), w, h)],
                    src[index(x, ahead(y, 2, h), w, h)],
                )
            },
    )
}

/// Blurs an image along both axes.
pub fn gaussian_blur<K: Numerics>(k: &K, img: &Gray<K::T>) -> (out: Gray<K::T>)
    requires
        img.wf(),
    ensures
        out.wf(),
        out.w == img.w,
        out.h == img.h,
        is_gaussian_blurred(k, img.data@, img.w as int, img.h as int, out.data@),
{
    let mid = blur_horiz(k, img.data.as_slice(), img.w, img.h);
    let data = blur_vert(k, mid.as_slice(), img.w, img.h);
    Gray { w: img.w, h: img.h, data }
}

/// `out` is the image at twice the column `x` and twice the row `y`.
pub open spec fn is_sample_at_double<K: Numerics>(
    k: &K,
    data: Seq<K::T>,
    w: usize,
    h: usize,
    x: usize,
    y: usize,
    out: K::T,
) -> bool {
    exists|px: K::T, py: K::T|
        call_ensures(K::twice, (k, x), px) && call_ensures(K::twice, (k, y), py)
            && #[trigger] is_sample(k, data, w, h, px, py, out)
}

/// `dst`, `nw` by `nh` cells, blurs `src` and keeps every other sample of every
/// other row.
pub open spec fn is_downsampled<K: Numerics>(
    k: &K,
    src: Seq<K::T>,
    w: usize,
    h: usize,
    nw: usize,
    nh: usize,
    dst: Seq<K::T>,
) -> bool {
    exists|blurred: Seq<K::T>| #[trigger]
        is_gaussian_blurred(k, src, w as int, h as int, blurred) && is_thinned(
            k,
            blurred,
            w,
            h,
            nw,
            nh,
            dst,
        )
}

/// `dst`, `nw` by `nh` cells, holds the samples of `src` at doubled positions.
pub open spec fn is_thinned<K: Numerics>(
    k: &K,
    src: Seq<K::T>,
    w: usize,
    h: usize,
    nw: usize,
    nh: usize,
    dst: Seq<K::T>,
) -> bool {
    &&& dst.len() == nw * nh
    &&& forall|i: int|
        0 <= i < nw * nh ==> is_sample_at_double(
            k,
            src,
            w,
            h,
            (i % nw as int) as usize,
            (i / nw as int) as usize,
            #[trigger] dst[i],
        )
}

/// Downsample by 2 after Gaussian blur (anti-aliased pyramid level).
pub fn downsample<K: Numerics>(k: &K, img: &Gray<K::T>) -> (out: Gray<K::T>)
    requires
        img.wf(),
        img.w >= 2,
        img.h >= 2,
    ensures
        out.wf(),
        out.w == img.w / 2,
        out.h == img.h / 2,
        is_downsampled(k, img.data@, img.w, img.h, out.w, out.h, out.data@),
{
    let blurred = gaussian_blur(k, img);
    let nw: usize = half_side(img.w);
    let nh: usize = half_side(img.h);
    proof {
        assert(nw * nh <= img.w * img.h) by (nonlinear_arith)
            requires
                nw <= img.w,
                nh <= img.h,
        ;
    }
    let data = par_map(
        nw * nh,
        |i: usize| -> (out: K::T)
            requires
                nw * nh > i,
                blurred.wf(),
                blurred.w >= 2,
                blurred.h >= 2,
            ensures
                is_sample_at_double(
                    k,
                    blurred.data@,
                    blurred.w,
                    blurred.h,
                    (i as int % nw as int) as usize,
                    (i as int / nw as int) as usize,
                    out,
                )
            {
                proof {
                    lemma_split_index(i as int, nw as int, nh as int);
                }
                let px = k.twice(i % nw);
                let py = k.twice(i / nw);
                blurred.sample(k, px, py)
            },
    );
    Gray { w: nw, h: nh, data }
}

} // verus!
