//! Box filter: sums over a clamped square window, by prefix sums.
use crate::grid::{ahead, back, lemma_join_index, lemma_split_index, lesser};
use crate::numerics::Numerics;
use crate::parallel::par_map;
use vstd::prelude::*;

verus! {

/// `sums` are running sums of `items`: the first is an empty sum, and each
/// further one adds the next item to the one before.
pub open spec fn is_scan<K: Numerics>(k: &K, items: Seq<K::T>, sums: Seq<K::T>) -> bool {
    &&& sums.len() == items.len() + 1
    &&& call_ensures(K::zero, (k,), sums[0])
    &&& forall|i: int|
        #![trigger items[i]]
        0 <= i < items.len() ==> call_ensures(K::plus, (k, sums[i], items[i]), sums[i + 1])
}

/// Row `y` of a grid `w` cells wide.
pub open spec fn row<T>(src: Seq<T>, w: int, y: int) -> Seq<T> {
    Seq::new(w as nat, |x: int| src[y * w + x])
}

/// Column `x` of a `w` by `h` grid.
pub open spec fn column<T>(src: Seq<T>, w: int, h: int, x: int) -> Seq<T> {
    Seq::new(h as nat, |y: int| src[y * w + x])
}

/// First position of the window of radius `r` about `x`.
pub open spec fn window_start(x: int, r: int) -> int {
    if x >= r {
        x - r
    } else {
        0
    }
}

/// One past the last position of the window of radius `r` about `x`, among
/// `n` positions.
pub open spec fn window_end(x: int, r: int, n: int) -> int {
    lesser(x + r, n - 1) + 1
}

/// `out` is the difference of two running sums that leaves the items in the
/// window of radius `r` about `x`.
pub open spec fn is_window_difference<K: Numerics>(
    k: &K,
    sums: Seq<K::T>,
    x: int,
    r: int,
    out: K::T,
) -> bool {
    call_ensures(
        K::minus,
        (k, sums[window_end(x, r, sums.len() - 1)], sums[window_start(x, r)]),
        out,
    )
}

/// `dst` holds, for every cell of `src`, the window sum along its row.
pub open spec fn sums_rows<K: Numerics>(
    k: &K,
    src: Seq<K::T>,
    w: int,
    h: int,
    r: int,
    scans: Seq<Seq<K::T>>,
    dst: Seq<K::T>,
) -> bool {
    &&& scans.len() == h
    &&& forall|y: int| 0 <= y < h ==> is_scan(k, row(src, w, y), #[trigger] scans[y])
    &&& dst.len() == w * h
    &&& forall|i: int|
        0 <= i < w * h ==> is_window_difference(k, scans[i / w], i % w, r, #[trigger] dst[i])
}

/// `dst` holds, for every cell of `src`, the window sum along its column.
pub open spec fn sums_columns<K: Numerics>(
    k: &K,
    src: Seq<K::T>,
    w: int,
    h: int,
    r: int,
    scans: Seq<Seq<K::T>>,
    dst: Seq<K::T>,
) -> bool {
    &&& scans.len() == w
    &&& forall|x: int| 0 <= x < w ==> is_scan(k, column(src, w, h, x), #[trigger] scans[x])
    &&& dst.len() == w * h
    &&& forall|i: int|
        0 <= i < w * h ==> is_window_difference(k, scans[i % w], i / w, r, #[trigger] dst[i])
}

/// `dst` is `src` summed over the window of radius `r` about every cell:
/// first along the rows, then along the columns.
pub open spec fn is_box_filtered<K: Numerics>(
    k: &K,
    src: Seq<K::T>,
    w: int,
    h: int,
    r: int,
    dst: Seq<K::T>,
) -> bool {
    exists|rows: Seq<Seq<K::T>>, mid: Seq<K::T>, cols: Seq<Seq<K::T>>|
        #[trigger] sums_rows(k, src, w, h, r, rows, mid) && #[trigger] sums_columns(
            k,
            mid,
            w,
            h,
            r,
            cols,
            dst,
        )
}

/// Running sums of the `n` items of `src` at `start`, `start + stride`, ...
fn scan<K: Numerics>(
    k: &K,
    src: &[K::T],
    start: usize,
    stride: usize,
    n: usize,
) -> (sums: Vec<K::T>)
    requires
        n > 0 ==> start + (n - 1) * stride < src@.len(),
    ensures
        is_scan(k, Seq::new(n as nat, |i: int| src@[start + i * stride]), sums@),
{
    let ghost items = Seq::new(n as nat, |i: int| src@[start + i * stride]);
    let len: usize = src.len();
    let mut sums: Vec<K::T> = Vec::new();
    let mut acc = k.zero();
    sums.push(acc);
    let mut i: usize = 0;
    while i < n
        invariant
            i <= n,
            len == src@.len(),
            n > 0 ==> start + (n - 1) * stride < src@.len(),
            items == Seq::new(n as nat, |i: int| src@[start + i * stride]),
            sums@.len() == i + 1,
            sums@[i as int] == acc,
            call_ensures(K::zero, (k,), sums@[0]),
            forall|j: int|
                #![trigger items[j]]
                0 <= j < i ==> call_ensures(K::plus, (k, sums@[j], items[j]), sums@[j + 1]),
        decreases n - i,
    {
        proof {
            assert(0 <= i * stride <= (n - 1) * stride) by (nonlinear_arith)
                requires
                    0 <= i <= n - 1,
                    0 <= stride,
            ;
        }
        let at: usize = start + i * stride;
        assert(items[i as int] == src@[at as int]);
        acc = k.plus(acc, src[at]);
        sums.push(acc);
        i += 1;
    }
    sums
}

/// Box-filter (sum over a clamped square window) via prefix sums.
pub fn box_filter<K: Numerics>(k: &K, src: &[K::T], w: usize, h: usize, r: usize) -> (dst: Vec<
    K::T,
>)
    requires
        w > 0,
        w * h <= usize::MAX,
        w * h <= src@.len(),
    ensures
        is_box_filtered(k, src@, w as int, h as int, r as int, dst@),
{
    // Row prefix sums, then horizontal window sums.
    let rows: Vec<Vec<K::T>> = par_map(
        h,
        |y: usize| -> (sums: Vec<K::T>)
            requires
                h > y,
                w > 0,
                w * h <= usize::MAX,
                w * h <= src@.len(),
            ensures
                is_scan(k, row(src@, w as int, y as int), sums@)
            {
                proof {
                    lemma_join_index(0, y as int, w as int, h as int);
                    lemma_join_index(w - 1, y as int, w as int, h as int);
                }
                let sums = scan(k, src, y * w, 1, w);
                assert(row(src@, w as int, y as int) =~= Seq::new(
                    w as nat,
                    |i: int| src@[(y * w) as usize + i * 1],
                ));
                sums
            },
    );
    let ghost row_scans = Seq::new(h as nat, |y: int| rows@[y]@);
    let mid: Vec<K::T> = par_map(
        w * h,
        |i: usize| -> (out: K::T)
            requires
                w * h > i,
                w > 0,
                rows@.len() == h,
                forall|y: int| 0 <= y < h ==> (#[trigger] rows@[y])@.len() == w + 1,
            ensures
                is_window_difference(
                    k,
                    rows@[i as int / w as int]@,
                    i as int % w as int,
                    r as int,
                    out,
                )
            {
                proof {
                    lemma_split_index(i as int, w as int, h as int);
                }
                let x: usize = i % w;
                let sums = &rows[i / w];
                k.minus(sums[ahead(x, r, w) + 1], sums[back(x, r)])
            },
    );
    // Column prefix sums, then vertical window sums.
    let cols: Vec<Vec<K::T>> = par_map(
        w,
        |x: usize| -> (sums: Vec<K::T>)
            requires
                w > x,
                w * h <= usize::MAX,
                mid@.len() == w * h,
            ensures
                is_scan(k, column(mid@, w as int, h as int, x as int), sums@)
            {
                proof {
                    if h > 0 {
                        lemma_join_index(x as int, h - 1, w as int, h as int);
                    }
                }
                let sums = scan(k, mid.as_slice(), x, w, h);
                assert(column(mid@, w as int, h as int, x as int) =~= Seq::new(
                    h as nat,
                    |i: int| mid@[x + i * w],
                ));
                sums
            },
    );
    let ghost col_scans = Seq::new(w as nat, |x: int| cols@[x]@);
    let dst: Vec<K::T> = par_map(
        w * h,
        |i: usize| -> (out: K::T)
            requires
                w * h > i,
                w > 0,
                cols@.len() == w,
                forall|x: int| 0 <= x < w ==> (#[trigger] cols@[x])@.len() == h + 1,
            ensures
                is_window_difference(
                    k,
                    cols@[i as int % w as int]@,
                    i as int / w as int,
                    r as int,
                    out,
                )
            {
                proof {
                    lemma_split_index(i as int, w as int, h as int);
                }
                let y: usize = i / w;
                let sums = &cols[i % w];
                k.minus(sums[ahead(y, r, h) + 1], sums[back(y, r)])
            },
    );
    proof {
        assert forall|i: int| 0 <= i < w * h implies is_window_difference(
            k,
            row_scans[i / w as int],
            i % w as int,
            r as int,
            #[trigger] mid@[i],
        ) by {
            lemma_split_index(i, w as int, h as int);
        }
        assert(sums_rows(k, src@, w as int, h as int, r as int, row_scans, mid@));
        assert forall|i: int| 0 <= i < w * h implies is_window_difference(
            k,
            col_scans[i % w as int],
            i / w as int,
            r as int,
            #[trigger] dst@[i],
        ) by {
            lemma_split_index(i, w as int, h as int);
        }
        assert(sums_columns(k, mid@, w as int, h as int, r as int, col_scans, dst@));
    }
    dst
}

/// `f(lo) + f(lo + 1) + ... + f(hi - 1)`.
pub open spec fn total(f: spec_fn(int) -> int, lo: int, hi: int) -> int
    decreases hi - lo,
{
    if lo >= hi {
        0
    } else {
        total(f, lo, hi - 1) + f(hi - 1)
    }
}

/// The values of `src` summed over the rectangle of columns `x0..x1` and rows
/// `y0..y1`.
pub open spec fn rectangle_total<T>(
    val: spec_fn(T) -> int,
    src: Seq<T>,
    w: int,
    x0: int,
    x1: int,
    y0: int,
    y1: int,
) -> int {
    total(|y: int| total(|x: int| val(src[y * w + x]), x0, x1), y0, y1)
}

/// Sums and differences are exact when samples are read through `val`.
pub open spec fn sums_exactly<K: Numerics>(k: &K, val: spec_fn(K::T) -> int) -> bool {
    &&& forall|z: K::T| call_ensures(K::zero, (k,), z) ==> #[trigger] val(z) == 0
    &&& forall|a: K::T, b: K::T, c: K::T| #[trigger]
        call_ensures(K::plus, (k, a, b), c) ==> val(c) == val(a) + val(b)
    &&& forall|a: K::T, b: K::T, c: K::T| #[trigger]
        call_ensures(K::minus, (k, a, b), c) ==> val(c) == val(a) - val(b)
}

proof fn lemma_total_from(f: spec_fn(int) -> int, lo: int, mid: int, hi: int)
    requires
        lo <= mid <= hi,
    ensures
        total(f, lo, hi) == total(f, lo, mid) + total(f, mid, hi),
    decreases hi - mid,
{
    if mid < hi {
        lemma_total_from(f, lo, mid, hi - 1);
    }
}

proof fn lemma_total_same(f: spec_fn(int) -> int, g: spec_fn(int) -> int, lo: int, hi: int)
    requires
        forall|i: int| lo <= i < hi ==> #[trigger] f(i) == g(i),
    ensures
        total(f, lo, hi) == total(g, lo, hi),
    decreases hi - lo,
{
    if lo < hi {
        lemma_total_same(f, g, lo, hi - 1);
        assert(f(hi - 1) == g(hi - 1));
    }
}

proof fn lemma_scan_totals<K: Numerics>(
    k: &K,
    val: spec_fn(K::T) -> int,
    items: Seq<K::T>,
    sums: Seq<K::T>,
    n: int,
)
    requires
        sums_exactly(k, val),
        is_scan(k, items, sums),
        0 <= n <= items.len(),
    ensures
        val(sums[n]) == total(|i: int| val(items[i]), 0, n),
    decreases n,
{
    if n > 0 {
        lemma_scan_totals(k, val, items, sums, n - 1);
        let item = items[n - 1];
        assert(call_ensures(K::plus, (k, sums[n - 1], item), sums[n]));
    }
}

proof fn lemma_window_difference<K: Numerics>(
    k: &K,
    val: spec_fn(K::T) -> int,
    items: Seq<K::T>,
    sums: Seq<K::T>,
    x: int,
    r: int,
    out: K::T,
)
    requires
        sums_exactly(k, val),
        is_scan(k, items, sums),
        0 <= x < items.len(),
        0 <= r,
        is_window_difference(k, sums, x, r, out),
    ensures
        val(out) == total(
            |i: int| val(items[i]),
            window_start(x, r),
            window_end(x, r, items.len() as int),
        ),
{
    let lo = window_start(x, r);
    let hi = window_end(x, r, items.len() as int);
    lemma_scan_totals(k, val, items, sums, lo);
    lemma_scan_totals(k, val, items, sums, hi);
    lemma_total_from(|i: int| val(items[i]), 0, lo, hi);
}

/// Where sums and differences are exact, a box-filtered image holds at every
/// cell the sum of the source over the square window about that cell, cut off
/// at the edges of the image.
pub proof fn law_box_filter_sums_window<K: Numerics>(
    k: &K,
    val: spec_fn(K::T) -> int,
    src: Seq<K::T>,
    w: int,
    h: int,
    r: int,
    dst: Seq<K::T>,
    x: int,
    y: int,
)
    requires
        sums_exactly(k, val),
        is_box_filtered(k, src, w, h, r, dst),
        0 <= r,
        0 <= x < w,
        0 <= y < h,
    ensures
        val(dst[y * w + x]) == rectangle_total(
            val,
            src,
            w,
            window_start(x, r),
            window_end(x, r, w),
            window_start(y, r),
            window_end(y, r, h),
        ),
{
    let (rows, mid, cols) = choose|
        rows: Seq<Seq<K::T>>,
        mid: Seq<K::T>,
        cols: Seq<Seq<K::T>>,
    | #[trigger]
        sums_rows(k, src, w, h, r, rows, mid) && #[trigger] sums_columns(
            k,
            mid,
            w,
            h,
            r,
            cols,
            dst,
        );
    let x0 = window_start(x, r);
    let x1 = window_end(x, r, w);
    let y0 = window_start(y, r);
    let y1 = window_end(y, r, h);
    lemma_join_index(x, y, w, h);
    let here = dst[y * w + x];
    assert(is_window_difference(k, cols[x], y, r, here));
    assert(is_scan(k, column(mid, w, h, x), cols[x]));
    let col = column(mid, w, h, x);
    lemma_window_difference(k, val, col, cols[x], y, r, here);
    let down = |j: int| val(col[j]);
    let across = |j: int| total(|i: int| val(src[j * w + i]), x0, x1);
    assert forall|j: int| y0 <= j < y1 implies #[trigger] down(j) == across(j) by {
        lemma_join_index(x, j, w, h);
        let line = row(src, w, j);
        let there = mid[j * w + x];
        assert(is_window_difference(k, rows[j], x, r, there));
        assert(is_scan(k, line, rows[j]));
        lemma_window_difference(k, val, line, rows[j], x, r, there);
        lemma_total_same(|i: int| val(line[i]), |i: int| val(src[j * w + i]), x0, x1);
    }
    lemma_total_same(down, across, y0, y1);
}

} // verus!
