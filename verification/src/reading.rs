//! What the passes of the host amount to where arithmetic is exact, told over
//! pictures.
use crate::exact::{is_exact, law_formulas_are_exact, lemma_fraction, lemma_scale};
use crate::formulas::{gauss_expr, luma_expr, product, Expr, Formulas, Scalar};
use crate::grid::lemma_join_index;
use crate::image::{
    blur_horiz, blur_vert, downsample, gaussian_blur, is_blurred_columns, is_blurred_rows,
    is_column_tap, is_downsampled, is_gaussian_blurred, is_gray_of, is_row_tap, is_sample,
    is_sample_at_double, is_thinned, is_zero_field, FlowField, Gray,
};
use crate::model::{
    across, edge, five, four, is_cell_of, is_value_at, kept_on, on_grid, soft, Img,
};
use crate::moving::lemma_value_at_cell;
use crate::numerics::Numerics;
use crate::sampling::lemma_spot;
use vstd::prelude::*;

verus! {

/// An image as a picture.
pub open spec fn picture<T>(val: spec_fn(T) -> real, data: Seq<T>, w: int) -> Img {
    |x: int, y: int| val(data[y * w + x])
}

/// The brightness of a pixel weighs its channels: green counts most, blue least.
pub proof fn law_brightness_weighs_the_channels<S: Scalar>(
    k: &Formulas<S>,
    val: spec_fn(S::T) -> real,
    rgb: &[u8],
    w: usize,
    h: usize,
    gray: Gray<S::T>,
    i: int,
)
    requires
        is_exact(&k.0, val),
        call_ensures(Gray::<S::T>::from_rgb::<Formulas<S>>, (k, rgb, w, h), gray),
        0 <= i < w * h,
    ensures
        gray.w == w,
        gray.h == h,
        gray.data@.len() == w * h,
        val(gray.data@[i]) * (1000 as real) == (299 * rgb@[3 * i] + 587 * rgb@[3 * i + 1] + 114
            * rgb@[3 * i + 2]) as real,
{
    let (r, g, b) = (rgb@[3 * i], rgb@[3 * i + 1], rgb@[3 * i + 2]);
    let e = luma_expr(r, g, b);
    gray_contract(k, rgb, w, h, gray);
    assert(e.gives(&k.0, gray.data@[i]));
    law_formulas_are_exact(&k.0, val, e, gray.data@[i]);
    reveal_with_fuel(Expr::exact, 4);
    lemma_scale(r as real, 299, 1000);
    lemma_scale(g as real, 587, 1000);
    lemma_scale(b as real, 114, 1000);
}

proof fn gray_contract<K: Numerics>(
    k: &K,
    rgb: &[u8],
    w: usize,
    h: usize,
    gray: Gray<K::T>,
)
    requires
        call_ensures(Gray::<K::T>::from_rgb::<K>, (k, rgb, w, h), gray),
    ensures
        gray.w == w,
        gray.h == h,
        gray.wf(),
        is_gray_of(k, rgb@, gray.data@),
{
}

proof fn lemma_five<S: Scalar>(
    k: &Formulas<S>,
    val: spec_fn(S::T) -> real,
    a: S::T,
    b: S::T,
    c: S::T,
    d: S::T,
    e: S::T,
    out: S::T,
)
    requires
        is_exact(&k.0, val),
        call_ensures(Formulas::<S>::gauss5, (k, a, b, c, d, e), out),
    ensures
        val(out) == five(val(a), val(b), val(c), val(d), val(e)),
{
    law_formulas_are_exact(&k.0, val, gauss_expr(a, b, c, d, e), out);
    lemma_fraction(0, 1);
    lemma_scale(val(a), 1, 16);
    lemma_scale(val(b), 1, 4);
    lemma_scale(val(c), 3, 8);
    lemma_scale(val(d), 1, 4);
    lemma_scale(val(e), 1, 16);
    reveal_with_fuel(Expr::exact, 8);
}

proof fn lemma_soft<S: Scalar>(
    k: &Formulas<S>,
    val: spec_fn(S::T) -> real,
    src: Seq<S::T>,
    w: int,
    h: int,
    dst: Seq<S::T>,
    x: int,
    y: int,
)
    requires
        is_exact(&k.0, val),
        is_gaussian_blurred(k, src, w, h, dst),
        on_grid(x, y, w, h),
    ensures
        val(dst[y * w + x]) == soft(picture(val, src, w), w, h, x, y),
{
    let p = picture(val, src, w);
    let mid = choose|mid: Seq<S::T>| #[trigger]
        is_blurred_rows(k, src, w, h, mid) && is_blurred_columns(k, mid, w, h, dst);
    assert forall|j: int| 0 <= j < h implies val(#[trigger] mid[j * w + x]) == across(
        p,
        w,
        x,
        j,
    ) by {
        lemma_join_index(x, j, w, h);
        assert(is_row_tap(k, src, w, x, j, mid[j * w + x]));
        lemma_five(
            k,
            val,
            src[j * w + edge(x - 2, w)],
            src[j * w + edge(x - 1, w)],
            src[j * w + x],
            src[j * w + edge(x + 1, w)],
            src[j * w + edge(x + 2, w)],
            mid[j * w + x],
        );
    }
    lemma_join_index(x, y, w, h);
    assert(is_column_tap(k, mid, w, h, x, y, dst[y * w + x]));
    lemma_five(
        k,
        val,
        mid[edge(y - 2, h) * w + x],
        mid[edge(y - 1, h) * w + x],
        mid[y * w + x],
        mid[edge(y + 1, h) * w + x],
        mid[edge(y + 2, h) * w + x],
        dst[y * w + x],
    );
}

proof fn blur_contract<K: Numerics>(k: &K, img: &Gray<K::T>, out: Gray<K::T>)
    requires
        call_ensures(gaussian_blur::<K>, (k, img), out),
    ensures
        out.w == img.w,
        out.h == img.h,
        is_gaussian_blurred(k, img.data@, img.w as int, img.h as int, out.data@),
{
}

/// A blurred image holds at every cell the Gaussian mean about that cell, along
/// rows and columns.
pub proof fn law_blur_is_gaussian<S: Scalar>(
    k: &Formulas<S>,
    val: spec_fn(S::T) -> real,
    img: &Gray<S::T>,
    out: Gray<S::T>,
    x: int,
    y: int,
)
    requires
        is_exact(&k.0, val),
        call_ensures(gaussian_blur::<Formulas<S>>, (k, img), out),
        on_grid(x, y, img.w as int, img.h as int),
    ensures
        out.w == img.w,
        out.h == img.h,
        val(out.data@[y * img.w + x]) == soft(
            picture(val, img.data@, img.w as int),
            img.w as int,
            img.h as int,
            x,
            y,
        ),
{
    blur_contract(k, img, out);
    lemma_soft(k, val, img.data@, img.w as int, img.h as int, out.data@, x, y);
}

/// A sample is the value of the image at the position.
pub(crate) proof fn lemma_sample<S: Scalar>(
    k: &Formulas<S>,
    val: spec_fn(S::T) -> real,
    data: Seq<S::T>,
    w: usize,
    h: usize,
    px: S::T,
    py: S::T,
    out: S::T,
)
    requires
        is_exact(&k.0, val),
        w > 0,
        h > 0,
        is_sample(k, data, w, h, px, py, out),
    ensures
        is_value_at(
            picture(val, data, w as int),
            w as int,
            h as int,
            val(px),
            val(py),
            val(out),
        ),
{
    let t = lemma_spot(k, val, data, w, h, px, py, out);
    let (i, j) = (t.cx as int, t.cy as int);
    assert(is_cell_of(i, val(px), w as int));
    assert(is_cell_of(j, val(py), h as int));
    assert(val(out) == four(
        picture(val, data, w as int),
        w as int,
        h as int,
        i,
        j,
        kept_on(val(px), w as int) - (i as real),
        kept_on(val(py), h as int) - (j as real),
    ));
}

/// A sample of an image is its value there: between cells as between neighbours,
/// beyond the border as at the border.
pub proof fn law_sample_is_the_value<S: Scalar>(
    k: &Formulas<S>,
    val: spec_fn(S::T) -> real,
    img: &Gray<S::T>,
    px: S::T,
    py: S::T,
    out: S::T,
)
    requires
        is_exact(&k.0, val),
        img.w > 0,
        img.h > 0,
        call_ensures(Gray::<S::T>::sample::<Formulas<S>>, (img, k, px, py), out),
    ensures
        is_value_at(
            picture(val, img.data@, img.w as int),
            img.w as int,
            img.h as int,
            val(px),
            val(py),
            val(out),
        ),
{
    lemma_sample(k, val, img.data@, img.w, img.h, px, py, out);
}

/// `b` is `a` with half the resolution: the Gaussian mean about every other cell
/// of every other row.
pub open spec fn is_half(a: Img, w: int, h: int, b: Img, nw: int, nh: int) -> bool {
    forall|x: int, y: int|
        on_grid(x, y, nw, nh) ==> #[trigger] b(x, y) == soft(
            a,
            w,
            h,
            edge(2 * x, w),
            edge(2 * y, h),
        )
}

pub(crate) proof fn lemma_half<S: Scalar>(
    k: &Formulas<S>,
    val: spec_fn(S::T) -> real,
    src: Seq<S::T>,
    w: usize,
    h: usize,
    nw: usize,
    nh: usize,
    dst: Seq<S::T>,
)
    requires
        is_exact(&k.0, val),
        w > 0,
        h > 0,
        is_downsampled(k, src, w, h, nw, nh, dst),
    ensures
        is_half(
            picture(val, src, w as int),
            w as int,
            h as int,
            picture(val, dst, nw as int),
            nw as int,
            nh as int,
        ),
{
    let mid = choose|mid: Seq<S::T>| #[trigger]
        is_gaussian_blurred(k, src, w as int, h as int, mid) && is_thinned(
            k,
            mid,
            w,
            h,
            nw,
            nh,
            dst,
        );
    let (p, q) = (picture(val, src, w as int), picture(val, dst, nw as int));
    assert forall|x: int, y: int| on_grid(x, y, nw as int, nh as int) implies #[trigger] q(x, y)
        == soft(p, w as int, h as int, edge(2 * x, w as int), edge(2 * y, h as int)) by {
        lemma_join_index(x, y, nw as int, nh as int);
        let out = dst[y * nw + x];
        assert(is_sample_at_double(k, mid, w, h, x as usize, y as usize, out));
        let (px, py) = choose|px: S::T, py: S::T|
            call_ensures(Formulas::<S>::twice, (k, x as usize), px) && call_ensures(
                Formulas::<S>::twice,
                (k, y as usize),
                py,
            ) && #[trigger] is_sample(k, mid, w, h, px, py, out);
        let e = product(Expr::Index(x as usize), Expr::Const(2, 1));
        let f = product(Expr::Index(y as usize), Expr::Const(2, 1));
        law_formulas_are_exact(&k.0, val, e, px);
        law_formulas_are_exact(&k.0, val, f, py);
        assert(val(px) == (2 * x) as real && val(py) == (2 * y) as real) by {
            reveal_with_fuel(Expr::exact, 3);
            lemma_scale(x as real, 2, 1);
            lemma_scale(y as real, 2, 1);
        }
        lemma_sample(k, val, mid, w, h, px, py, out);
        let (ex, ey) = (edge(2 * x, w as int), edge(2 * y, h as int));
        let m = picture(val, mid, w as int);
        lemma_kept_value(m, w as int, h as int, val(px), val(py), ex, ey, val(out));
        lemma_soft(k, val, src, w as int, h as int, mid, ex, ey);
    }
}

/// A whole position, or one beyond the border, has the value of a cell.
proof fn lemma_kept_value(
    a: Img,
    w: int,
    h: int,
    px: real,
    py: real,
    x: int,
    y: int,
    out: real,
)
    requires
        on_grid(x, y, w, h),
        kept_on(px, w) == (x as real),
        kept_on(py, h) == (y as real),
        is_value_at(a, w, h, px, py, out),
    ensures
        out == a(x, y),
{
    let (i, j) = choose|i: int, j: int| #[trigger]
        is_cell_of(i, px, w) && #[trigger] is_cell_of(j, py, h) && out == four(
            a,
            w,
            h,
            i,
            j,
            kept_on(px, w) - (i as real),
            kept_on(py, h) - (j as real),
        );
    assert(is_cell_of(i, x as real, w) && is_cell_of(j, y as real, h));
    lemma_value_at_cell(a, w, h, x as real, y as real, x, y, out);
}

/// Halving an image keeps the Gaussian mean about every other cell of every
/// other row.
pub proof fn law_half_is_every_other_mean<S: Scalar>(
    k: &Formulas<S>,
    val: spec_fn(S::T) -> real,
    img: &Gray<S::T>,
    out: Gray<S::T>,
)
    requires
        is_exact(&k.0, val),
        img.w >= 2,
        img.h >= 2,
        call_ensures(downsample::<Formulas<S>>, (k, img), out),
    ensures
        out.w == img.w / 2,
        out.h == img.h / 2,
        is_half(
            picture(val, img.data@, img.w as int),
            img.w as int,
            img.h as int,
            picture(val, out.data@, out.w as int),
            out.w as int,
            out.h as int,
        ),
{
    half_contract(k, img, out);
    lemma_half(k, val, img.data@, img.w, img.h, out.w, out.h, out.data@);
}

proof fn half_contract<K: Numerics>(k: &K, img: &Gray<K::T>, out: Gray<K::T>)
    requires
        call_ensures(downsample::<K>, (k, img), out),
    ensures
        out.w == img.w / 2,
        out.h == img.h / 2,
        is_downsampled(k, img.data@, img.w, img.h, out.w, out.h, out.data@),
{
}

/// A sample is taken from its row and column, and a copy has the same samples.
pub proof fn law_samples_lie_row_by_row<T: Copy + Send + Sync>(
    val: spec_fn(T) -> real,
    img: &Gray<T>,
    x: usize,
    y: usize,
    s: T,
    copy: Gray<T>,
)
    requires
        y * img.w + x < img.data@.len(),
        call_ensures(Gray::<T>::at, (img, x, y), s),
        call_ensures(Gray::<T>::duplicate, (img,), copy),
    ensures
        val(s) == picture(val, img.data@, img.w as int)(x as int, y as int),
        copy.w == img.w,
        copy.h == img.h,
        copy.data@.len() == img.data@.len(),
        picture(val, copy.data@, img.w as int)(x as int, y as int) == val(s),
{
}

pub(crate) proof fn lemma_zero_at<K: Numerics>(k: &K, field: Seq<K::T>, i: int)
    requires
        is_zero_field(k, field),
        0 <= i < field.len(),
    ensures
        call_ensures(K::zero, (k,), field[i]),
{
}

proof fn zeros_contract<K: Numerics>(k: &K, w: usize, h: usize, flow: FlowField<K::T>)
    requires
        call_ensures(FlowField::<K::T>::zeros::<K>, (k, w, h), flow),
    ensures
        flow.w == w,
        flow.h == h,
        flow.u@.len() == w * h,
        flow.v@.len() == w * h,
        is_zero_field(k, flow.u@),
        is_zero_field(k, flow.v@),
{
}

/// A field without motion is zero everywhere.
pub proof fn law_no_motion_is_zero<S: Scalar>(
    k: &Formulas<S>,
    val: spec_fn(S::T) -> real,
    w: usize,
    h: usize,
    flow: FlowField<S::T>,
    i: int,
)
    requires
        is_exact(&k.0, val),
        call_ensures(FlowField::<S::T>::zeros::<Formulas<S>>, (k, w, h), flow),
        0 <= i < w * h,
    ensures
        flow.w == w,
        flow.h == h,
        val(flow.u@[i]) == (0 as real),
        val(flow.v@[i]) == (0 as real),
{
    zeros_contract(k, w, h, flow);
    lemma_zero_at(k, flow.u@, i);
    lemma_zero_at(k, flow.v@, i);
    law_formulas_are_exact(&k.0, val, Expr::Const(0, 1), flow.u@[i]);
    law_formulas_are_exact(&k.0, val, Expr::Const(0, 1), flow.v@[i]);
    lemma_fraction(0, 1);
}

proof fn rows_contract<K: Numerics>(k: &K, src: &[K::T], w: usize, h: usize, dst: Vec<K::T>)
    requires
        call_ensures(blur_horiz::<K>, (k, src, w, h), dst),
    ensures
        is_blurred_rows(k, src@, w as int, h as int, dst@),
{
}

proof fn columns_contract<K: Numerics>(k: &K, src: &[K::T], w: usize, h: usize, dst: Vec<K::T>)
    requires
        call_ensures(blur_vert::<K>, (k, src, w, h), dst),
    ensures
        is_blurred_columns(k, src@, w as int, h as int, dst@),
{
}

/// The two passes of the blur go along the rows and along the columns.
pub proof fn law_passes_go_along_rows_and_columns<S: Scalar>(
    k: &Formulas<S>,
    val: spec_fn(S::T) -> real,
    src: &[S::T],
    w: usize,
    h: usize,
    across_rows: Vec<S::T>,
    down_columns: Vec<S::T>,
    x: int,
    y: int,
)
    requires
        is_exact(&k.0, val),
        call_ensures(blur_horiz::<Formulas<S>>, (k, src, w, h), across_rows),
        call_ensures(blur_vert::<Formulas<S>>, (k, src, w, h), down_columns),
        on_grid(x, y, w as int, h as int),
    ensures
        ({
            let p = picture(val, src@, w as int);
            &&& val(across_rows@[y * w + x]) == five(
                p(edge(x - 2, w as int), y),
                p(edge(x - 1, w as int), y),
                p(x, y),
                p(edge(x + 1, w as int), y),
                p(edge(x + 2, w as int), y),
            )
            &&& val(down_columns@[y * w + x]) == five(
                p(x, edge(y - 2, h as int)),
                p(x, edge(y - 1, h as int)),
                p(x, y),
                p(x, edge(y + 1, h as int)),
                p(x, edge(y + 2, h as int)),
            )
        }),
{
    rows_contract(k, src, w, h, across_rows);
    columns_contract(k, src, w, h, down_columns);
    let (gw, gh, n) = (w as int, h as int, y * w + x);
    lemma_join_index(x, y, gw, gh);
    assert(is_row_tap(k, src@, gw, x, y, across_rows@[n]));
    assert(is_column_tap(k, src@, gw, gh, x, y, down_columns@[n]));
    lemma_five(
        k,
        val,
        src@[y * gw + edge(x - 2, gw)],
        src@[y * gw + edge(x - 1, gw)],
        src@[y * gw + x],
        src@[y * gw + edge(x + 1, gw)],
        src@[y * gw + edge(x + 2, gw)],
        across_rows@[n],
    );
    lemma_five(
        k,
        val,
        src@[edge(y - 2, gh) * gw + x],
        src@[edge(y - 1, gh) * gw + x],
        src@[y * gw + x],
        src@[edge(y + 1, gh) * gw + x],
        src@[edge(y + 2, gh) * gw + x],
        down_columns@[n],
    );
}

} // verus!
