//! How many levels an image pyramid has, and how large each of them is.
use crate::grid::lesser;
use vstd::arithmetic::power2::{lemma2_to64, lemma_pow2_pos, lemma_pow2_unfold, pow2};
use vstd::prelude::*;

verus! {

/// A pyramid never has more levels than this.
pub const MAX_LEVELS: usize = 6;

/// The coarsest level picked automatically is at least this large on its
/// smallest side.
pub const MIN_SIDE: usize = 24;

/// `n` halved `times` times, rounding down.
pub open spec fn halved(n: int, times: int) -> int
    decreases times,
{
    if times <= 0 {
        n
    } else {
        halved(n, times - 1) / 2
    }
}

/// The side of pyramid level `level` for an image with side `n`: each level
/// has half the side of the one before it, but at least one cell.
pub open spec fn level_side(n: int, level: int) -> int
    decreases level,
{
    if level <= 0 {
        n
    } else if level_side(n, level - 1) / 2 >= 1 {
        level_side(n, level - 1) / 2
    } else {
        1
    }
}

/// The level count for an image whose smaller side is `side`: as many halvings
/// as leave `MIN_SIDE` cells, within `MAX_LEVELS`.
pub open spec fn is_auto_levels(side: int, levels: int) -> bool {
    &&& 1 <= levels <= MAX_LEVELS
    &&& levels > 1 ==> halved(side, levels - 1) >= MIN_SIDE
    &&& levels < MAX_LEVELS ==> halved(side, levels) < MIN_SIDE
}

/// The level count for a requested one: zero asks for the automatic choice.
pub open spec fn is_level_count(w: int, h: int, requested: int, levels: int) -> bool {
    if requested > 0 {
        levels == lesser(requested, MAX_LEVELS as int)
    } else {
        is_auto_levels(lesser(w, h), levels)
    }
}

/// The level count for an image of `w` by `h` cells when `requested` levels
/// were asked for.
pub open spec fn level_count(w: int, h: int, requested: int) -> int {
    choose|levels: int| is_level_count(w, h, requested, levels)
}

/// All levels of a pyramid but the coarsest can be halved again.
pub open spec fn can_build(w: int, h: int, levels: int) -> bool {
    levels >= 2 ==> level_side(w, levels - 2) >= 2 && level_side(h, levels - 2) >= 2
}

/// Pick a pyramid level count so the coarsest level is at least `MIN_SIDE`
/// cells on its smallest side.
pub fn auto_levels(w: usize, h: usize) -> (levels: usize)
    ensures
        is_auto_levels(lesser(w as int, h as int), levels as int),
{
    let mut side: usize = if w <= h {
        w
    } else {
        h
    };
    let ghost whole = side as int;
    let mut levels: usize = 1;
    while side / 2 >= MIN_SIDE && levels < MAX_LEVELS
        invariant
            1 <= levels <= MAX_LEVELS,
            side == halved(whole, levels - 1),
            levels > 1 ==> side >= MIN_SIDE,
        decreases MAX_LEVELS - levels,
    {
        side = side / 2;
        levels += 1;
    }
    levels
}

/// The number of pyramid levels to use when `levels` were asked for (zero:
/// automatic).
pub fn pyramid_level_count(w: usize, h: usize, levels: usize) -> (count: usize)
    ensures
        is_level_count(w as int, h as int, levels as int, count as int),
        count == level_count(w as int, h as int, levels as int),
        1 <= count <= MAX_LEVELS,
{
    proof {
        law_level_count(w as int, h as int, levels as int);
    }
    if levels > 0 {
        return if levels <= MAX_LEVELS {
            levels
        } else {
            MAX_LEVELS
        };
    }
    let count: usize = auto_levels(w, h);
    proof {
        law_auto_levels_unique(
            lesser(w as int, h as int),
            count as int,
            level_count(w as int, h as int, levels as int),
        );
    }
    count
}

/// Half of a side, but at least one cell.
pub fn half_side(n: usize) -> (r: usize)
    ensures
        r == (if n / 2 >= 1 {
            n / 2
        } else {
            1
        }),
{
    if n / 2 >= 1 {
        n / 2
    } else {
        1
    }
}

/// Sides of a pyramid level are never zero, given that the image's are not,
/// and never grow.
pub proof fn lemma_level_side(n: int, level: int)
    requires
        n > 0,
        level >= 0,
    ensures
        1 <= level_side(n, level) <= n,
    decreases level,
{
    if level > 0 {
        lemma_level_side(n, level - 1);
    }
}

proof fn lemma_halved_monotone(a: int, b: int, times: int)
    requires
        a <= b,
    ensures
        halved(a, times) <= halved(b, times),
    decreases times,
{
    if times > 0 {
        lemma_halved_monotone(a, b, times - 1);
    }
}

proof fn lemma_halved_is_level_side(n: int, level: int)
    requires
        level >= 0,
        level > 0 ==> halved(n, level) >= 1,
    ensures
        level_side(n, level) == halved(n, level),
    decreases level,
{
    if level > 0 {
        lemma_halved_is_level_side(n, level - 1);
    }
}

proof fn lemma_halved_earlier(n: int, early: int, late: int)
    requires
        0 <= early <= late,
        n >= 0,
    ensures
        halved(n, early) >= halved(n, late) >= 0,
    decreases late,
{
    if early < late {
        lemma_halved_earlier(n, early, late - 1);
    } else if late > 0 {
        lemma_halved_earlier(n, early - 1, late - 1);
    }
}

/// The automatic level count is determined by the image size.
pub proof fn law_auto_levels_unique(side: int, a: int, b: int)
    requires
        0 <= side,
        is_auto_levels(side, a),
        is_auto_levels(side, b),
    ensures
        a == b,
{
    if a < b {
        lemma_halved_earlier(side, a, b - 1);
    } else if b < a {
        lemma_halved_earlier(side, b, a - 1);
    }
}

/// There is always exactly one level count: a requested one is cut off at
/// `MAX_LEVELS`, and zero gets the automatic one.
pub proof fn law_level_count(w: int, h: int, requested: int)
    requires
        0 <= w,
        0 <= h,
        0 <= requested,
    ensures
        is_level_count(w, h, requested, level_count(w, h, requested)),
        forall|n: int| #[trigger]
            is_level_count(w, h, requested, n) ==> n == level_count(w, h, requested),
{
    let side = lesser(w, h);
    if requested > 0 {
        assert(is_level_count(w, h, requested, lesser(requested, MAX_LEVELS as int)));
    } else {
        lemma_auto_levels_from(side, 1);
        let found = choose|n: int| is_auto_levels(side, n);
        assert(is_level_count(w, h, requested, found));
        assert forall|n: int| #[trigger] is_level_count(w, h, requested, n) implies n
            == level_count(w, h, requested) by {
            law_auto_levels_unique(side, n, level_count(w, h, requested));
        }
    }
}

proof fn lemma_auto_levels_from(side: int, levels: int)
    requires
        1 <= levels <= MAX_LEVELS,
        levels > 1 ==> halved(side, levels - 1) >= MIN_SIDE,
    ensures
        exists|n: int| is_auto_levels(side, n),
    decreases MAX_LEVELS - levels,
{
    if levels < MAX_LEVELS && halved(side, levels) >= MIN_SIDE {
        lemma_auto_levels_from(side, levels + 1);
    } else {
        assert(is_auto_levels(side, levels));
    }
}

/// With the automatic level count every level of the pyramid, down to the
/// coarsest, is at least `MIN_SIDE` cells on its smallest side, unless there
/// is just the one level. Such a pyramid can always be built.
pub proof fn law_auto_levels_keep_min_side(w: int, h: int, levels: int, level: int)
    requires
        0 <= w,
        0 <= h,
        is_auto_levels(lesser(w, h), levels),
        0 <= level < levels,
        levels > 1,
    ensures
        level_side(w, level) >= MIN_SIDE,
        level_side(h, level) >= MIN_SIDE,
        can_build(w, h, levels),
{
    let side = lesser(w, h);
    assert forall|l: int| 0 <= l < levels implies #[trigger] level_side(w, l) >= MIN_SIDE
        && level_side(h, l) >= MIN_SIDE by {
        lemma_halved_earlier(side, l, levels - 1);
        lemma_halved_monotone(side, w, l);
        lemma_halved_monotone(side, h, l);
        lemma_halved_is_level_side(w, l);
        lemma_halved_is_level_side(h, l);
    }
    assert(level_side(w, level) >= MIN_SIDE);
    assert(level_side(w, levels - 2) >= MIN_SIDE);
}

proof fn lemma_halved_at_least(n: int, times: int, least: int)
    requires
        times >= 0,
    ensures
        halved(n, times) >= least <==> n >= least * pow2(times as nat),
    decreases times,
{
    if times == 0 {
        lemma2_to64();
        assert(least * 1 == least);
    } else {
        lemma_halved_at_least(n, times - 1, 2 * least);
        lemma_pow2_unfold(times as nat);
        let (p, q) = (pow2((times - 1) as nat), pow2(times as nat));
        assert((2 * least) * p == least * q) by (nonlinear_arith)
            requires
                q == 2 * p,
        ;
        assert(halved(n, times - 1) / 2 >= least <==> halved(n, times - 1) >= 2 * least);
    }
}

/// As many levels are picked as leave 24 cells on the smaller side after all the
/// halvings, but at least one and at most six.
pub proof fn law_levels_fit_the_smaller_side(w: usize, h: usize, levels: usize)
    requires
        call_ensures(auto_levels, (w, h), levels),
    ensures
        1 <= levels <= 6,
        levels > 1 ==> w >= 24 * pow2((levels - 1) as nat) && h >= 24 * pow2((levels - 1) as nat),
        levels < 6 ==> w < 24 * pow2(levels as nat) || h < 24 * pow2(levels as nat),
{
    let side = lesser(w as int, h as int);
    lemma_halved_at_least(side, levels - 1, 24);
    lemma_halved_at_least(side, levels as int, 24);
}

/// A number of levels that was asked for is used, but no more than six; zero asks
/// for the number that fits.
pub proof fn law_requested_levels_are_used(
    w: usize,
    h: usize,
    requested: usize,
    picked: usize,
    count: usize,
)
    requires
        call_ensures(auto_levels, (w, h), picked),
        call_ensures(pyramid_level_count, (w, h, requested), count),
    ensures
        0 < requested <= 6 ==> count == requested,
        requested > 6 ==> count == 6,
        requested == 0 ==> count == picked,
{
    if requested == 0 {
        law_auto_levels_unique(lesser(w as int, h as int), picked as int, count as int);
    }
}

/// Half of a side is half of it, rounded down, and never nothing.
pub proof fn law_half_sides_double(n: usize, r: usize)
    requires
        call_ensures(half_side, (n,), r),
    ensures
        r >= 1,
        n >= 2 ==> 2 * r <= n <= 2 * r + 1,
{
}

/// The side of a level is the side of the image over a power of two, rounded down,
/// and never nothing.
pub proof fn law_level_sides_are_halved(n: int, level: int)
    requires
        n > 0,
        level >= 0,
    ensures
        level_side(n, level) >= 1,
        n < (level_side(n, level) + 1) * pow2(level as nat),
        level_side(n, level) > 1 ==> level_side(n, level) * pow2(level as nat) <= n,
    decreases level,
{
    lemma_level_side(n, level);
    let s = level_side(n, level);
    if level == 0 {
        lemma2_to64();
    } else {
        law_level_sides_are_halved(n, level - 1);
        lemma_pow2_unfold(level as nat);
        lemma_pow2_pos((level - 1) as nat);
        let (t, p) = (level_side(n, level - 1), pow2((level - 1) as nat));
        assert(n < (s + 1) * (2 * p)) by (nonlinear_arith)
            requires
                n < (t + 1) * p,
                t + 1 <= 2 * (s + 1),
                p > 0,
        ;
        if s > 1 {
            assert(s * (2 * p) <= n) by (nonlinear_arith)
                requires
                    t * p <= n,
                    2 * s <= t,
                    p > 0,
            ;
        }
    }
}

} // verus!
