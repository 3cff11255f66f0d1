//! 3x3 median filter on motion fields.
use crate::grid::{ahead, back, index, lemma_split_index, lesser};
use crate::image::FlowField;
use crate::numerics::Numerics;
use crate::parallel::par_map;
use vstd::prelude::*;
use vstd::relations::injective_on;
use vstd::set_lib::{lemma_int_range, lemma_len_subset, lemma_map_size, set_int_range};

verus! {

/// Entry `a` comes before entry `b` when the entries are sorted by rank, equal
/// ranks staying in place.
pub open spec fn precedes(ranks: Seq<i64>, a: int, b: int) -> bool {
    ranks[a] < ranks[b] || (ranks[a] == ranks[b] && a < b)
}

/// How many of the first `n` entries come before entry `p`.
pub open spec fn count_before(ranks: Seq<i64>, p: int, n: int) -> int
    decreases n,
{
    if n <= 0 {
        0
    } else {
        count_before(ranks, p, n - 1) + (if precedes(ranks, n - 1, p) {
            1int
        } else {
            0
        })
    }
}

/// Entry `p` of nine is in the middle when they are sorted.
pub open spec fn is_middle(ranks: Seq<i64>, p: int) -> bool {
    0 <= p < 9 && count_before(ranks, p, 9) == 4
}

/// `ranks` are the ranks of `win`, entry by entry.
pub open spec fn is_ranking<K: Numerics>(k: &K, win: Seq<K::T>, ranks: Seq<i64>) -> bool {
    &&& ranks.len() == win.len()
    &&& forall|j: int|
        0 <= j < win.len() ==> call_ensures(K::rank, (k, win[j]), #[trigger] ranks[j])
}

/// `out` is the middle one of the nine samples in `win`.
pub open spec fn is_median<K: Numerics>(k: &K, win: Seq<K::T>, out: K::T) -> bool {
    exists|ranks: Seq<i64>, p: int|
        is_ranking(k, win, ranks) && #[trigger] is_middle(ranks, p) && out == win[p]
}

/// Every sample was found to have a place in the order of values.
pub open spec fn all_ordered<K: Numerics>(k: &K, src: Seq<K::T>) -> bool {
    forall|i: int|
        0 <= i < src.len() ==> call_ensures(K::is_ordered, (k, #[trigger] src[i]), true)
}

/// Some sample was found to have no place in the order of values.
pub open spec fn has_unordered<K: Numerics>(k: &K, src: Seq<K::T>) -> bool {
    exists|i: int|
        0 <= i < src.len() && call_ensures(K::is_ordered, (k, #[trigger] src[i]), false)
}

/// The nine cells about column `x` of row `y`, row by row; a cell beyond an
/// edge stands for the edge cell.
pub open spec fn window9<T>(src: Seq<T>, w: int, h: int, x: int, y: int) -> Seq<T> {
    let xl = if x >= 1 {
        x - 1
    } else {
        0
    };
    let xr = lesser(x + 1, w - 1);
    let yt = if y >= 1 {
        y - 1
    } else {
        0
    };
    let yb = lesser(y + 1, h - 1);
    seq![
        src[yt * w + xl],
        src[yt * w + x],
        src[yt * w + xr],
        src[y * w + xl],
        src[y * w + x],
        src[y * w + xr],
        src[yb * w + xl],
        src[yb * w + x],
        src[yb * w + xr],
    ]
}

/// `dst` holds the median of the nine cells about every cell of `src`.
pub open spec fn is_median_filtered<K: Numerics>(
    k: &K,
    src: Seq<K::T>,
    w: int,
    h: int,
    dst: Seq<K::T>,
) -> bool {
    &&& dst.len() == w * h
    &&& forall|i: int|
        0 <= i < w * h ==> is_median(k, window9(src, w, h, i % w, i / w), #[trigger] dst[i])
}

proof fn lemma_count_bounds(ranks: Seq<i64>, p: int, n: int)
    requires
        0 <= n,
        0 <= p,
    ensures
        0 <= count_before(ranks, p, n) <= n,
        n > p ==> count_before(ranks, p, n) < n,
    decreases n,
{
    if n > 0 {
        lemma_count_bounds(ranks, p, n - 1);
    }
}

proof fn lemma_count_grows(ranks: Seq<i64>, p: int, q: int, n: int)
    requires
        0 <= n,
        0 <= p,
        precedes(ranks, p, q),
    ensures
        count_before(ranks, p, n) <= count_before(ranks, q, n),
        n > p ==> count_before(ranks, p, n) < count_before(ranks, q, n),
    decreases n,
{
    if n > 0 {
        lemma_count_grows(ranks, p, q, n - 1);
    }
}

proof fn lemma_middle_exists(ranks: Seq<i64>)
    requires
        ranks.len() == 9,
    ensures
        exists|p: int| is_middle(ranks, p),
{
    let f = |p: int| count_before(ranks, p, 9);
    let all = set_int_range(0, 9);
    lemma_int_range(0, 9);
    assert forall|p: int, q: int|
        all.contains(p) && all.contains(q) && #[trigger] f(p) == #[trigger] f(q) implies p == q by {
        if p != q {
            if precedes(ranks, p, q) {
                lemma_count_grows(ranks, p, q, 9);
            } else {
                lemma_count_grows(ranks, q, p, 9);
            }
        }
    }
    assert(injective_on(f, all));
    let image = all.map(f);
    lemma_map_size(all, image, f);
    if forall|p: int| !is_middle(ranks, p) {
        assert forall|c: int| image.contains(c) implies all.remove(4).contains(c) by {
            let p = choose|p: int| all.contains(p) && f(p) == c;
            lemma_count_bounds(ranks, p, 9);
            assert(!is_middle(ranks, p));
        }
        lemma_len_subset(image, all.remove(4));
    }
}

/// The entry in the middle of nine when they are sorted by rank.
fn middle(ranks: &Vec<i64>) -> (p: usize)
    requires
        ranks.len() == 9,
    ensures
        is_middle(ranks@, p as int),
{
    proof {
        lemma_middle_exists(ranks@);
    }
    let mut p: usize = 0;
    while p < 9
        invariant
            p <= 9,
            ranks.len() == 9,
            exists|q: int| p <= q && is_middle(ranks@, q),
        decreases 9 - p,
    {
        let mut before: usize = 0;
        let mut j: usize = 0;
        while j < 9
            invariant
                p < 9,
                j <= 9,
                before <= j,
                ranks.len() == 9,
                before == count_before(ranks@, p as int, j as int),
            decreases 9 - j,
        {
            if ranks[j] < ranks[p] || (ranks[j] == ranks[p] && j < p) {
                before += 1;
            }
            j += 1;
        }
        if before == 4 {
            return p;
        }
        p += 1;
    }
    p
}

/// The middle one of nine samples.
fn median9<K: Numerics>(k: &K, win: &Vec<K::T>) -> (out: K::T)
    requires
        win.len() == 9,
        all_ordered(k, win@),
    ensures
        is_median(k, win@, out),
{
    let mut ranks: Vec<i64> = Vec::new();
    let mut j: usize = 0;
    while j < 9
        invariant
            j <= 9,
            win.len() == 9,
            all_ordered(k, win@),
            ranks.len() == j,
            forall|i: int|
                0 <= i < j ==> call_ensures(K::rank, (k, win@[i]), #[trigger] ranks@[i]),
        decreases 9 - j,
    {
        ranks.push(k.rank(win[j]));
        j += 1;
    }
    assert(is_ranking(k, win@, ranks@));
    let p: usize = middle(&ranks);
    win[p]
}

/// Whether every sample has a place in the order of values.
pub fn is_ordered<K: Numerics>(k: &K, src: &Vec<K::T>) -> (yes: bool)
    ensures
        yes ==> all_ordered(k, src@),
        !yes ==> has_unordered(k, src@),
{
    let mut i: usize = 0;
    while i < src.len()
        invariant
            i <= src.len(),
            forall|j: int|
                0 <= j < i ==> call_ensures(K::is_ordered, (k, #[trigger] src@[j]), true),
        decreases src.len() - i,
    {
        if !k.is_ordered(src[i]) {
            return false;
        }
        i += 1;
    }
    true
}

/// The median of the nine cells about every cell. Every sample must have a
/// place in the order of values.
pub fn median_filter<K: Numerics>(k: &K, src: &Vec<K::T>, w: usize, h: usize) -> (dst: Vec<K::T>)
    requires
        src.len() == w * h,
        all_ordered(k, src@),
    ensures
        dst.len() == w * h,
        is_median_filtered(k, src@, w as int, h as int, dst@),
{
    par_map(
        w * h,
        |i: usize| -> (out: K::T)
            requires
                w * h > i,
                src.len() == w * h,
                all_ordered(k, src@),
            ensures
                is_median(
                    k,
                    window9(src@, w as int, h as int, i as int % w as int, i as int / w as int),
                    out,
                )
            {
                proof {
                    lemma_split_index(i as int, w as int, h as int);
                }
                let x: usize = i % w;
                let y: usize = i / w;
                let xl: usize = back(x, 1);
                let xr: usize = ahead(x, 1, w);
                let yt: usize = back(y, 1);
                let yb: usize = ahead(y, 1, h);
                let win: Vec<K::T> = vec![
                    src[index(xl, yt, w, h)],
                    src[index(x, yt, w, h)],
                    src[index(xr, yt, w, h)],
                    src[index(xl, y, w, h)],
                    src[index(x, y, w, h)],
                    src[index(xr, y, w, h)],
                    src[index(xl, yb, w, h)],
                    src[index(x, yb, w, h)],
                    src[index(xr, yb, w, h)],
                ];
                assert(win@ =~= window9(src@, w as int, h as int, x as int, y as int));
                median9(k, &win)
            },
    )
}

/// 3x3 median filter on each flow component: removes outliers while keeping
/// motion boundaries reasonably sharp.
pub fn median_flow<K: Numerics>(k: &K, flow: &FlowField<K::T>) -> (out: FlowField<K::T>)
    requires
        flow.wf(),
        all_ordered(k, flow.u@),
        all_ordered(k, flow.v@),
    ensures
        out.wf(),
        out.w == flow.w,
        out.h == flow.h,
        is_median_filtered(k, flow.u@, flow.w as int, flow.h as int, out.u@),
        is_median_filtered(k, flow.v@, flow.w as int, flow.h as int, out.v@),
{
    FlowField {
        w: flow.w,
        h: flow.h,
        u: median_filter(k, &flow.u, flow.w, flow.h),
        v: median_filter(k, &flow.v, flow.w, flow.h),
    }
}

/// The number that a bit pattern stands for when its highest bit is a sign and
/// the others a magnitude.
pub open spec fn rank_of(bits: u32) -> int {
    if bits < 0x8000_0000 {
        bits as int
    } else {
        0x8000_0000 - bits
    }
}

/// An integer that orders the bit patterns of single precision floats as the
/// numbers they stand for: sign and magnitude, with both zeros equal.
pub fn float_rank(bits: u32) -> (rank: i64)
    ensures
        rank == rank_of(bits),
{
    if bits < 0x8000_0000 {
        bits as i64
    } else {
        0x8000_0000i64 - bits as i64
    }
}

/// Bit patterns with the same magnitude and opposite signs.
pub open spec fn is_sign_turned(bits: u32, turned: u32) -> bool {
    if bits < 0x8000_0000 {
        turned == bits + 0x8000_0000
    } else {
        turned == bits - 0x8000_0000
    }
}

/// Turning the sign of a float turns its rank.
pub proof fn law_sign_turns_the_rank(bits: u32, turned: u32)
    requires
        is_sign_turned(bits, turned),
    ensures
        rank_of(turned) == -rank_of(bits),
{
}

/// How many of the first `n` ranks lie between `lo` and `hi`.
pub open spec fn count_within(ranks: Seq<i64>, lo: int, hi: int, n: int) -> int
    decreases n,
{
    if n <= 0 {
        0
    } else {
        count_within(ranks, lo, hi, n - 1) + (if lo <= ranks[n - 1] <= hi {
            1int
        } else {
            0
        })
    }
}

proof fn lemma_within_before(ranks: Seq<i64>, lo: int, hi: int, p: int, n: int)
    requires
        0 <= p,
        0 <= n,
    ensures
        ranks[p] > hi ==> count_within(ranks, lo, hi, n) <= count_before(ranks, p, n),
        ranks[p] < lo ==> count_within(ranks, lo, hi, n) + count_before(ranks, p, n) <= n - (if n
            > p {
            1int
        } else {
            0
        }),
    decreases n,
{
    if n > 0 {
        lemma_within_before(ranks, lo, hi, p, n - 1);
    }
}

/// Outliers do not survive: where five of the nine samples have their rank
/// between two bounds, so has the median, whatever the other four are.
pub proof fn law_median_ignores_outliers(ranks: Seq<i64>, p: int, lo: int, hi: int)
    requires
        ranks.len() == 9,
        is_middle(ranks, p),
        count_within(ranks, lo, hi, 9) >= 5,
    ensures
        lo <= ranks[p] <= hi,
{
    lemma_within_before(ranks, lo, hi, p, 9);
}

proof fn lemma_opposite_counts(ranks: Seq<i64>, turned: Seq<i64>, p: int, q: int, n: int)
    requires
        forall|j: int| 0 <= j < 9 ==> #[trigger] turned[j] == -ranks[j],
        0 <= p < 9,
        0 <= q < 9,
        0 <= n <= 9,
    ensures
        ranks[q] < ranks[p] ==> count_before(ranks, p, n) + count_before(turned, q, n) >= n,
        ranks[q] > ranks[p] ==> count_before(ranks, p, n) + count_before(turned, q, n) <= n - (if n
            > p {
            1int
        } else {
            0
        }) - (if n > q {
            1int
        } else {
            0
        }),
    decreases n,
{
    if n > 0 {
        lemma_opposite_counts(ranks, turned, p, q, n - 1);
        assert(turned[n - 1] == -ranks[n - 1]);
        assert(turned[q] == -ranks[q]);
    }
}

/// Turning all ranks round turns that of the median round.
pub proof fn law_median_of_opposites(ranks: Seq<i64>, turned: Seq<i64>, p: int, q: int)
    requires
        ranks.len() == 9,
        turned.len() == 9,
        forall|j: int| 0 <= j < 9 ==> #[trigger] turned[j] == -ranks[j],
        is_middle(ranks, p),
        is_middle(turned, q),
    ensures
        ranks[q] == ranks[p],
        turned[q] == -ranks[p],
{
    lemma_opposite_counts(ranks, turned, p, q, 9);
    assert(turned[q] == -ranks[q]);
}

/// The median is determined by the ranks of the nine samples.
pub proof fn law_median_unique(ranks: Seq<i64>, p: int, q: int)
    requires
        ranks.len() == 9,
        is_middle(ranks, p),
        is_middle(ranks, q),
    ensures
        p == q,
{
    if p != q {
        if precedes(ranks, p, q) {
            lemma_count_grows(ranks, p, q, 9);
        } else {
            lemma_count_grows(ranks, q, p, 9);
        }
    }
}

/// Ranks order bit patterns as the floats: the positive ones by magnitude, the
/// negative ones against it, and those below these; the two zeros are equal.
pub proof fn law_ranks_order_the_floats(a: u32, b: u32, x: i64, y: i64)
    requires
        call_ensures(float_rank, (a,), x),
        call_ensures(float_rank, (b,), y),
    ensures
        a < 0x8000_0000 && b < 0x8000_0000 ==> (x < y <==> a < b),
        a >= 0x8000_0000 && b >= 0x8000_0000 ==> (x < y <==> a > b),
        a > 0x8000_0000 && b < 0x8000_0000 ==> x < y,
        a == 0x8000_0000 && b == 0 ==> x == y,
{
}

} // verus!
