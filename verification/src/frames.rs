//! One frame on the host: its motion in both directions, then the blur.
use crate::blur::{is_motion_blurred, motion_blur};
use crate::flow::{can_estimate, is_optical_flow, optical_flow};
use crate::formulas::{opposite, Expr, Formulas, Scalar};
use crate::image::{copy_of, FlowField, Gray};
use crate::levels::level_count;
use crate::grid::{lemma_join_index, lemma_split_index, lesser};
use crate::median::{
    all_ordered, has_unordered, is_median, is_median_filtered, is_middle, is_ordered, is_ranking,
    is_sign_turned, law_median_of_opposites, law_sign_turns_the_rank, median_flow, rank_of,
    window9,
};
use crate::numerics::Numerics;
use vstd::prelude::*;

verus! {

/// What the user chose.
pub struct Settings<T> {
    /// Shutter angle.
    pub shutter: T,
    /// Taps along the motion.
    pub samples: usize,
    /// Window radius of the motion estimate.
    pub window: usize,
    /// Iterations per pyramid level.
    pub iters: usize,
    /// Pyramid levels (zero: automatic).
    pub levels: usize,
    /// Whether the backward motion of a frame is taken from the forward motion
    /// of the one before it.
    pub flow_cache: bool,
}

/// Where a frame stands in the video.
#[derive(Debug, Clone, Copy, PartialEq, Eq, Structural)]
pub enum Role {
    /// There is no other frame.
    Only,
    /// Another frame follows.
    Middle,
    /// It is the last of several frames.
    Last,
}

/// The median-filtered motion from one image to another.
pub open spec fn is_frame_flow<K: Numerics>(
    k: &K,
    s: Settings<K::T>,
    a: Gray<K::T>,
    b: Gray<K::T>,
    f: FlowField<K::T>,
) -> bool {
    exists|u: Seq<K::T>, v: Seq<K::T>|
        {
            &&& #[trigger] is_optical_flow(
                k,
                a,
                b,
                s.window as int,
                s.iters as int,
                level_count(a.w as int, a.h as int, s.levels as int),
                u,
                v,
            )
            &&& u.len() == a.w * a.h
            &&& v.len() == a.w * a.h
            &&& all_ordered(k, u)
            &&& all_ordered(k, v)
            &&& f.wf()
            &&& f.w == a.w
            &&& f.h == a.h
            &&& is_median_filtered(k, u, a.w as int, a.h as int, f.u@)
            &&& is_median_filtered(k, v, a.w as int, a.h as int, f.v@)
        }
}

/// The motion from one image to another came out with values that have no
/// place in any order.
pub open spec fn is_unordered_flow<K: Numerics>(
    k: &K,
    s: Settings<K::T>,
    a: Gray<K::T>,
    b: Gray<K::T>,
) -> bool {
    exists|u: Seq<K::T>, v: Seq<K::T>|
        {
            &&& #[trigger] is_optical_flow(
                k,
                a,
                b,
                s.window as int,
                s.iters as int,
                level_count(a.w as int, a.h as int, s.levels as int),
                u,
                v,
            )
            &&& has_unordered(k, u) || has_unordered(k, v)
        }
}

/// Every entry is turned round.
pub open spec fn is_negated<K: Numerics>(k: &K, from: Seq<K::T>, to: Seq<K::T>) -> bool {
    &&& to.len() == from.len()
    &&& forall|i: int|
        0 <= i < from.len() ==> call_ensures(K::negated, (k, from[i]), #[trigger] to[i])
}

/// Every vector of a motion field is turned round.
pub open spec fn is_turned<K: Numerics>(k: &K, from: FlowField<K::T>, to: FlowField<K::T>) -> bool {
    &&& to.w == from.w
    &&& to.h == from.h
    &&& is_negated(k, from.u@, to.u@)
    &&& is_negated(k, from.v@, to.v@)
}

/// The motion of a frame: forward to the next frame (the last frame takes
/// itself for it), backward to the previous one, or the forward motion of that
/// one turned round where it is at hand.
pub open spec fn is_motion<K: Numerics>(
    k: &K,
    s: Settings<K::T>,
    role: Role,
    cur: Gray<K::T>,
    prev: Gray<K::T>,
    next: Gray<K::T>,
    cache: Option<FlowField<K::T>>,
    fwd: FlowField<K::T>,
    bwd: FlowField<K::T>,
) -> bool {
    &&& is_frame_flow(
        k,
        s,
        cur,
        if role == Role::Last {
            cur
        } else {
            next
        },
        fwd,
    )
    &&& match cache {
        Some(ahead) if s.flow_cache && role != Role::Last => is_turned(k, ahead, bwd),
        _ => is_frame_flow(k, s, cur, prev, bwd),
    }
}

/// A motion that is estimated for a frame came out with values that have no
/// place in any order.
pub open spec fn is_unordered_motion<K: Numerics>(
    k: &K,
    s: Settings<K::T>,
    role: Role,
    cur: Gray<K::T>,
    prev: Gray<K::T>,
    next: Gray<K::T>,
    cache: Option<FlowField<K::T>>,
) -> bool {
    ||| is_unordered_flow(
        k,
        s,
        cur,
        if role == Role::Last {
            cur
        } else {
            next
        },
    )
    ||| is_unordered_flow(k, s, cur, prev) && !(s.flow_cache && role != Role::Last
        && cache is Some)
}

/// The motion to keep for the next frame.
pub open spec fn is_kept<T>(
    s: Settings<T>,
    role: Role,
    fwd: FlowField<T>,
    kept: Option<FlowField<T>>,
) -> bool {
    match kept {
        Some(f) => s.flow_cache && role != Role::Last && f.w == fwd.w && f.h == fwd.h && f.u@
            == fwd.u@ && f.v@ == fwd.v@,
        None => !s.flow_cache || role == Role::Last,
    }
}

/// A frame blurred along its motion, and the motion to keep.
pub open spec fn is_blurred_frame<K: Numerics>(
    k: &K,
    s: Settings<K::T>,
    role: Role,
    rgb: Seq<u8>,
    cur: Gray<K::T>,
    prev: Gray<K::T>,
    next: Gray<K::T>,
    cache: Option<FlowField<K::T>>,
    out: Seq<u8>,
    kept: Option<FlowField<K::T>>,
) -> bool {
    exists|fwd: FlowField<K::T>, bwd: FlowField<K::T>|
        {
            &&& #[trigger] is_motion(k, s, role, cur, prev, next, cache, fwd, bwd)
            &&& is_motion_blurred(k, rgb, cur.w, cur.h, fwd, bwd, s.shutter, s.samples, out)
            &&& is_kept(s, role, fwd, kept)
        }
}

/// What becomes of a frame: with the shutter closed it stays as it is.
pub open spec fn is_processed<K: Numerics>(
    k: &K,
    s: Settings<K::T>,
    role: Role,
    rgb: Seq<u8>,
    cur: Gray<K::T>,
    prev: Gray<K::T>,
    next: Gray<K::T>,
    cache: Option<FlowField<K::T>>,
    out: Seq<u8>,
    kept: Option<FlowField<K::T>>,
) -> bool {
    ||| call_ensures(K::shutter_closed, (k, s.shutter), true) && out == rgb && kept == cache
    ||| call_ensures(K::shutter_closed, (k, s.shutter), false) && is_blurred_frame(
        k,
        s,
        role,
        rgb,
        cur,
        prev,
        next,
        cache,
        out,
        kept,
    )
}

/// Motion can be estimated between images of this size.
pub open spec fn is_workable<T>(s: Settings<T>, w: int, h: int) -> bool {
    can_estimate(w, h, w, h, s.iters as int, level_count(w, h, s.levels as int))
}

/// The median-filtered motion from one image to another, or nothing where the
/// estimate holds values that cannot be ordered.
pub fn frame_flow<K: Numerics>(
    k: &K,
    s: &Settings<K::T>,
    a: &Gray<K::T>,
    b: &Gray<K::T>,
) -> (r: Option<FlowField<K::T>>)
    requires
        a.wf(),
        b.wf(),
        a.w == b.w,
        a.h == b.h,
        is_workable(*s, a.w as int, a.h as int),
    ensures
        is_flow_or_none(k, *s, *a, *b, r),
{
    let raw = optical_flow(k, a, b, s.window, s.iters, s.levels);
    if is_ordered(k, &raw.u) && is_ordered(k, &raw.v) {
        Some(median_flow(k, &raw))
    } else {
        None
    }
}

/// The median-filtered motion, or nothing where it cannot be filtered.
pub open spec fn is_flow_or_none<K: Numerics>(
    k: &K,
    s: Settings<K::T>,
    a: Gray<K::T>,
    b: Gray<K::T>,
    r: Option<FlowField<K::T>>,
) -> bool {
    match r {
        Some(f) => is_frame_flow(k, s, a, b, f),
        None => is_unordered_flow(k, s, a, b),
    }
}

fn negate<K: Numerics>(k: &K, from: &Vec<K::T>) -> (to: Vec<K::T>)
    ensures
        is_negated(k, from@, to@),
{
    let mut to: Vec<K::T> = Vec::new();
    let mut i: usize = 0;
    while i < from.len()
        invariant
            i <= from.len(),
            to.len() == i,
            forall|j: int|
                0 <= j < i ==> call_ensures(K::negated, (k, from@[j]), #[trigger] to@[j]),
        decreases from.len() - i,
    {
        to.push(k.negated(from[i]));
        i += 1;
    }
    to
}

/// A motion field turned round.
pub fn negate_flow<K: Numerics>(k: &K, from: &FlowField<K::T>) -> (to: FlowField<K::T>)
    ensures
        is_turned(k, *from, to),
{
    FlowField { w: from.w, h: from.h, u: negate(k, &from.u), v: negate(k, &from.v) }
}

/// Motion in two directions, worked out at the same time.
fn both_flows<K: Numerics>(
    k: &K,
    s: &Settings<K::T>,
    cur: &Gray<K::T>,
    next: &Gray<K::T>,
    prev: &Gray<K::T>,
) -> (r: (Option<FlowField<K::T>>, Option<FlowField<K::T>>))
    requires
        cur.wf(),
        next.wf(),
        prev.wf(),
        cur.w == next.w,
        cur.h == next.h,
        cur.w == prev.w,
        cur.h == prev.h,
        is_workable(*s, cur.w as int, cur.h as int),
    ensures
        is_flow_or_none(k, *s, *cur, *next, r.0),
        is_flow_or_none(k, *s, *cur, *prev, r.1),
{
    rayon::join(
        || -> (f: Option<FlowField<K::T>>)
            requires
                cur.wf(),
                next.wf(),
                cur.w == next.w,
                cur.h == next.h,
                is_workable(*s, cur.w as int, cur.h as int),
            ensures
                is_flow_or_none(k, *s, *cur, *next, f)
            { frame_flow(k, s, cur, next) },
        || -> (f: Option<FlowField<K::T>>)
            requires
                cur.wf(),
                prev.wf(),
                cur.w == prev.w,
                cur.h == prev.h,
                is_workable(*s, cur.w as int, cur.h as int),
            ensures
                is_flow_or_none(k, *s, *cur, *prev, f)
            { frame_flow(k, s, cur, prev) },
    )
}

/// Blurs a frame along its motion and hands out the motion to keep for the
/// next frame. With the shutter closed the frame stays as it is. Nothing comes
/// back where an estimated motion holds values that cannot be ordered.
pub fn process_frame<K: Numerics>(
    k: &K,
    s: &Settings<K::T>,
    role: Role,
    rgb: &Vec<u8>,
    cur: &Gray<K::T>,
    prev: &Gray<K::T>,
    next: &Gray<K::T>,
    cache: Option<FlowField<K::T>>,
) -> (r: Option<(Vec<u8>, Option<FlowField<K::T>>)>)
    requires
        cur.wf(),
        prev.wf(),
        next.wf(),
        cur.w == prev.w,
        cur.h == prev.h,
        cur.w == next.w,
        cur.h == next.h,
        3 * (cur.w * cur.h) <= rgb@.len(),
        is_workable(*s, cur.w as int, cur.h as int),
        cache is Some ==> cache->0.wf() && cache->0.w == cur.w && cache->0.h == cur.h,
    ensures
        r matches Some(x) ==> {
            &&& is_processed(k, *s, role, rgb@, *cur, *prev, *next, cache, x.0@, x.1)
            &&& x.1 is Some ==> x.1->0.wf() && x.1->0.w == cur.w && x.1->0.h == cur.h
        },
        r is None ==> {
            &&& call_ensures(K::shutter_closed, (k, s.shutter), false)
            &&& is_unordered_motion(k, *s, role, *cur, *prev, *next, cache)
        },
{
    if k.shutter_closed(s.shutter) {
        return Some((copy_of(rgb), cache));
    }
    let found = match role {
        Role::Last => both_flows(k, s, cur, cur, prev),
        _ => match &cache {
            Some(ahead) if s.flow_cache => {
                let bwd = negate_flow(k, ahead);
                (frame_flow(k, s, cur, next), Some(bwd))
            },
            _ => both_flows(k, s, cur, next, prev),
        },
    };
    let (fwd, bwd) = match found {
        (Some(fwd), Some(bwd)) => (fwd, bwd),
        _ => {
            return None;
        },
    };
    assert(is_motion(k, *s, role, *cur, *prev, *next, cache, fwd, bwd));
    let out = motion_blur(k, rgb, cur.w, cur.h, &fwd, &bwd, s.shutter, s.samples);
    let keep: bool = match role {
        Role::Last => false,
        _ => s.flow_cache,
    };
    if keep {
        let kept = FlowField { w: fwd.w, h: fwd.h, u: copy_of(&fwd.u), v: copy_of(&fwd.v) };
        Some((out, Some(kept)))
    } else {
        Some((out, None))
    }
}

/// With the flow cache a frame in the middle of the video does not have its
/// backward motion estimated: it is the forward motion of the frame before it,
/// turned round.
pub proof fn law_forward_motion_is_reused<K: Numerics>(
    k: &K,
    s: Settings<K::T>,
    rgb: (Seq<u8>, Seq<u8>),
    cur: (Gray<K::T>, Gray<K::T>),
    prev: (Gray<K::T>, Gray<K::T>),
    next: (Gray<K::T>, Gray<K::T>),
    cache: Option<FlowField<K::T>>,
    out: (Seq<u8>, Seq<u8>),
    kept: (Option<FlowField<K::T>>, Option<FlowField<K::T>>),
)
    requires
        s.flow_cache,
        is_blurred_frame(k, s, Role::Middle, rgb.0, cur.0, prev.0, next.0, cache, out.0, kept.0),
        is_blurred_frame(k, s, Role::Middle, rgb.1, cur.1, prev.1, next.1, kept.0, out.1, kept.1),
    ensures
        exists|ahead: FlowField<K::T>, fwd: FlowField<K::T>, bwd: FlowField<K::T>|
            {
                &&& is_frame_flow(k, s, cur.0, next.0, ahead)
                &&& #[trigger] is_turned(k, ahead, bwd)
                &&& #[trigger] is_motion_blurred(
                    k,
                    rgb.1,
                    cur.1.w,
                    cur.1.h,
                    fwd,
                    bwd,
                    s.shutter,
                    s.samples,
                    out.1,
                )
            },
{
    let (f0, b0) = choose|fwd: FlowField<K::T>, bwd: FlowField<K::T>|
        {
            &&& #[trigger] is_motion(k, s, Role::Middle, cur.0, prev.0, next.0, cache, fwd, bwd)
            &&& is_kept(s, Role::Middle, fwd, kept.0)
        };
    let (f1, b1) = choose|fwd: FlowField<K::T>, bwd: FlowField<K::T>|
        {
            &&& #[trigger] is_motion(k, s, Role::Middle, cur.1, prev.1, next.1, kept.0, fwd, bwd)
            &&& is_motion_blurred(k, rgb.1, cur.1.w, cur.1.h, fwd, bwd, s.shutter, s.samples, out.1)
            &&& is_kept(s, Role::Middle, fwd, kept.1)
        };
    assert(is_turned(k, kept.0->0, b1));
    assert(is_turned(k, f0, b1));
}

/// A closed shutter disables the blur: the frame comes out as it went in.
pub proof fn law_closed_shutter_changes_nothing<K: Numerics>(
    k: &K,
    s: Settings<K::T>,
    role: Role,
    rgb: Seq<u8>,
    cur: Gray<K::T>,
    prev: Gray<K::T>,
    next: Gray<K::T>,
    cache: Option<FlowField<K::T>>,
    out: Seq<u8>,
    kept: Option<FlowField<K::T>>,
)
    requires
        is_processed(k, s, role, rgb, cur, prev, next, cache, out, kept),
        forall|closed: bool| #[trigger]
            call_ensures(K::shutter_closed, (k, s.shutter), closed) ==> closed,
    ensures
        out == rgb,
        kept == cache,
{
}

/// Without the flow cache no motion is kept.
pub proof fn law_nothing_is_kept_without_cache<K: Numerics>(
    k: &K,
    s: Settings<K::T>,
    role: Role,
    rgb: Seq<u8>,
    cur: Gray<K::T>,
    prev: Gray<K::T>,
    next: Gray<K::T>,
    out: Seq<u8>,
    kept: Option<FlowField<K::T>>,
)
    requires
        !s.flow_cache,
        is_processed(k, s, role, rgb, cur, prev, next, None, out, kept),
    ensures
        kept is None,
{
}

/// The opposite of a sample has the opposite rank.
pub open spec fn ranks_turn<K: Numerics>(k: &K) -> bool {
    forall|a: K::T, b: K::T, r: i64, s: i64|
        #![trigger
            call_ensures(K::negated, (k, a), b),
            call_ensures(K::rank, (k, a), r),
            call_ensures(K::rank, (k, b), s)
        ]
        call_ensures(K::negated, (k, a), b) && call_ensures(K::rank, (k, a), r) && call_ensures(
            K::rank,
            (k, b),
            s,
        ) ==> s == -r
}

/// The opposite of a number has the same magnitude and the other sign.
pub open spec fn signs_turn<S: Scalar>(s: &S) -> bool {
    forall|a: S::T, b: S::T, x: u32, y: u32|
        #![trigger
            call_ensures(S::opposite, (s, a), b),
            call_ensures(S::bits, (s, a), x),
            call_ensures(S::bits, (s, b), y)
        ]
        call_ensures(S::opposite, (s, a), b) && call_ensures(S::bits, (s, a), x) && call_ensures(
            S::bits,
            (s, b),
            y,
        ) ==> is_sign_turned(x, y)
}

/// Where taking the opposite turns the sign, it turns the rank.
pub proof fn law_ranks_turn_with_the_sign<S: Scalar>(k: &Formulas<S>)
    requires
        signs_turn(&k.0),
    ensures
        ranks_turn(k),
{
    assert forall|a: S::T, b: S::T, r: i64, s: i64|
        #![trigger
            call_ensures(Formulas::<S>::negated, (k, a), b),
            call_ensures(Formulas::<S>::rank, (k, a), r),
            call_ensures(Formulas::<S>::rank, (k, b), s)
        ]
        call_ensures(Formulas::<S>::negated, (k, a), b) && call_ensures(
            Formulas::<S>::rank,
            (k, a),
            r,
        ) && call_ensures(Formulas::<S>::rank, (k, b), s) implies s == -r by {
        assert(opposite(Expr::Given(a)).gives(&k.0, b));
        let c = choose|c: S::T|
            Expr::Given(a).gives(&k.0, c) && #[trigger] call_ensures(S::opposite, (&k.0, c), b);
        let x = choose|x: u32| #[trigger]
            call_ensures(S::bits, (&k.0, a), x) && r == rank_of(x);
        let y = choose|y: u32| #[trigger]
            call_ensures(S::bits, (&k.0, b), y) && s == rank_of(y);
        law_sign_turns_the_rank(x, y);
    }
}

/// `b` ranks as the opposite of `a`.
pub open spec fn ranks_opposite<K: Numerics>(k: &K, a: K::T, b: K::T) -> bool {
    exists|r: i64, s: i64| #[trigger]
        call_ensures(K::rank, (k, a), r) && #[trigger] call_ensures(K::rank, (k, b), s) && s == -r
}

/// `b` is the opposite of a sample that ranks as `a` does.
pub open spec fn opposes_peer<K: Numerics>(k: &K, a: K::T, b: K::T) -> bool {
    exists|c: K::T, r: i64| #[trigger]
        call_ensures(K::negated, (k, c), b) && #[trigger] call_ensures(K::rank, (k, c), r)
            && call_ensures(K::rank, (k, a), r)
}

proof fn lemma_median_turned<K: Numerics>(
    k: &K,
    win: Seq<K::T>,
    turned: Seq<K::T>,
    out: K::T,
    other: K::T,
)
    requires
        ranks_turn(k),
        win.len() == 9,
        is_negated(k, win, turned),
        is_median(k, win, out),
        is_median(k, turned, other),
    ensures
        ranks_opposite(k, out, other),
        opposes_peer(k, out, other),
{
    let (r, p) = choose|r: Seq<i64>, p: int|
        is_ranking(k, win, r) && #[trigger] is_middle(r, p) && out == win[p];
    let (s, q) = choose|r: Seq<i64>, p: int|
        is_ranking(k, turned, r) && #[trigger] is_middle(r, p) && other == turned[p];
    assert forall|j: int| 0 <= j < 9 implies #[trigger] s[j] == -r[j] by {
        assert(call_ensures(K::negated, (k, win[j]), turned[j]));
        assert(call_ensures(K::rank, (k, win[j]), r[j]));
    }
    law_median_of_opposites(r, s, p, q);
    assert(call_ensures(K::rank, (k, win[p]), r[p]));
    assert(call_ensures(K::rank, (k, win[q]), r[q]));
    assert(call_ensures(K::rank, (k, turned[q]), s[q]));
    assert(call_ensures(K::negated, (k, win[q]), turned[q]));
}

/// Filtering commutes with turning round: each sample of the filtered field of
/// the opposite motion ranks as the opposite of that of the filtered field, so
/// a kept motion needs no second filtering once it is turned.
pub proof fn law_median_commutes_with_negation<K: Numerics>(
    k: &K,
    src: Seq<K::T>,
    turned: Seq<K::T>,
    w: int,
    h: int,
    dst: Seq<K::T>,
    other: Seq<K::T>,
)
    requires
        ranks_turn(k),
        w >= 0,
        h >= 0,
        src.len() == w * h,
        is_negated(k, src, turned),
        is_median_filtered(k, src, w, h, dst),
        is_median_filtered(k, turned, w, h, other),
    ensures
        other.len() == dst.len(),
        forall|i: int|
            0 <= i < dst.len() ==> ranks_opposite(k, dst[i], #[trigger] other[i]) && opposes_peer(
                k,
                dst[i],
                other[i],
            ),
{
    assert forall|i: int| 0 <= i < dst.len() implies ranks_opposite(
        k,
        dst[i],
        #[trigger] other[i],
    ) && opposes_peer(k, dst[i], other[i]) by {
        lemma_split_index(i, w, h);
        let (x, y) = (i % w, i / w);
        let a = window9(src, w, h, x, y);
        let b = window9(turned, w, h, x, y);
        let (xl, xr) = (
            if x >= 1 {
                x - 1
            } else {
                0
            },
            lesser(x + 1, w - 1),
        );
        let (yt, yb) = (
            if y >= 1 {
                y - 1
            } else {
                0
            },
            lesser(y + 1, h - 1),
        );
        lemma_join_index(xl, yt, w, h);
        lemma_join_index(x, yt, w, h);
        lemma_join_index(xr, yt, w, h);
        lemma_join_index(xl, y, w, h);
        lemma_join_index(x, y, w, h);
        lemma_join_index(xr, y, w, h);
        lemma_join_index(xl, yb, w, h);
        lemma_join_index(x, yb, w, h);
        lemma_join_index(xr, yb, w, h);
        assert(is_negated(k, a, b));
        lemma_median_turned(k, a, b, dst[i], other[i]);
    }
}

/// Which way a frame is worked on.
#[derive(Debug, Clone, Copy, PartialEq, Eq, Structural)]
pub enum Path {
    /// The frame stays as it is.
    Copy,
    /// On the device.
    Gpu,
    /// On the host.
    Cpu,
}

/// Chooses the way: with the shutter closed nothing is worked out at all.
pub fn choose_path<K: Numerics>(k: &K, shutter: K::T, gpu: bool) -> (p: Path)
    ensures
        p == Path::Copy ==> call_ensures(K::shutter_closed, (k, shutter), true),
        p != Path::Copy ==> call_ensures(K::shutter_closed, (k, shutter), false),
        p == Path::Gpu ==> gpu,
        p == Path::Cpu ==> !gpu,
{
    if k.shutter_closed(shutter) {
        Path::Copy
    } else if gpu {
        Path::Gpu
    } else {
        Path::Cpu
    }
}

} // verus!
