//! Dense optical flow via coarse-to-fine (pyramidal) Lucas-Kanade.
//!
//! For each pixel of image A the motion vector pointing to the corresponding
//! location in image B is estimated. The estimation runs on a Gaussian
//! pyramid: a coarse solution is found at the smallest scale, then refined
//! level by level back up to full resolution.
use crate::grid::lemma_split_index;
use crate::image::{
    downsample, is_bilinear, is_downsampled, is_zero_field, mix_cells, FlowField, Gray,
};
use crate::levels::{
    can_build, half_side, law_auto_levels_keep_min_side, law_level_count, lemma_level_side,
    level_count, level_side, pyramid_level_count,
};
use crate::lucas_kanade::{is_level_solution, lk_level, unzip};
use crate::numerics::Numerics;
use crate::parallel::par_map;
use vstd::prelude::*;

verus! {

/// `pyr` is the pyramid over `base`, finest level first: the image itself,
/// then each level downsampled from the one before it.
pub open spec fn is_pyramid<K: Numerics>(
    k: &K,
    base: Seq<K::T>,
    w: int,
    h: int,
    pyr: Seq<Seq<K::T>>,
) -> bool {
    &&& pyr.len() >= 1
    &&& pyr[0] == base
    &&& forall|l: int|
        #![trigger pyr[l]]
        0 < l < pyr.len() ==> is_downsampled(
            k,
            pyr[l - 1],
            level_side(w, l - 1) as usize,
            level_side(h, l - 1) as usize,
            level_side(w, l) as usize,
            level_side(h, l) as usize,
            pyr[l],
        )
}

/// The samples of every level.
pub open spec fn level_data<T>(pyr: Seq<Gray<T>>) -> Seq<Seq<T>> {
    Seq::new(pyr.len(), |l: int| pyr[l].data@)
}

/// Every level is well formed and has the size that its place in a pyramid
/// over a `w` by `h` image gives it.
pub open spec fn has_level_sizes<T>(pyr: Seq<Gray<T>>, w: int, h: int) -> bool {
    forall|l: int|
        #![trigger pyr[l]]
        0 <= l < pyr.len() ==> pyr[l].wf() && pyr[l].w == level_side(w, l) && pyr[l].h
            == level_side(h, l)
}

/// Build a Gaussian pyramid; level 0 is the original image.
pub fn build_pyramid<K: Numerics>(k: &K, base: &Gray<K::T>, levels: usize) -> (pyr: Vec<
    Gray<K::T>,
>)
    requires
        base.wf(),
        can_build(base.w as int, base.h as int, levels as int),
    ensures
        pyr.len() == (if levels > 0 {
            levels
        } else {
            1
        }),
        has_level_sizes(pyr@, base.w as int, base.h as int),
        is_pyramid(k, base.data@, base.w as int, base.h as int, level_data(pyr@)),
{
    let ghost w = base.w as int;
    let ghost h = base.h as int;
    let mut pyr: Vec<Gray<K::T>> = Vec::new();
    pyr.push(base.duplicate());
    let mut level: usize = 1;
    while level < levels
        invariant
            1 <= level,
            level <= levels || level == 1,
            pyr.len() == level,
            w == base.w,
            h == base.h,
            can_build(w, h, levels as int),
            has_level_sizes(pyr@, w, h),
            is_pyramid(k, base.data@, w, h, level_data(pyr@)),
        decreases levels - level,
    {
        proof {
            lemma_can_halve(w, level - 1, levels - 2);
            lemma_can_halve(h, level - 1, levels - 2);
        }
        let ghost before = pyr@;
        let next = downsample(k, &pyr[level - 1]);
        pyr.push(next);
        proof {
            let data = level_data(pyr@);
            assert(data =~= level_data(before).push(next.data@));
            assert(forall|l: int| 0 <= l < before.len() ==> #[trigger] pyr@[l] == before[l]);
            assert forall|l: int|
                #![trigger data[l]]
                0 < l < data.len() implies is_downsampled(
                k,
                data[l - 1],
                level_side(w, l - 1) as usize,
                level_side(h, l - 1) as usize,
                level_side(w, l) as usize,
                level_side(h, l) as usize,
                data[l],
            ) by {
                assert(data[l - 1] == level_data(before)[l - 1]);
                if l < before.len() {
                    assert(data[l] == level_data(before)[l]);
                }
            }
        }
        level += 1;
    }
    pyr
}

proof fn lemma_can_halve(n: int, early: int, late: int)
    requires
        0 <= early <= late,
        level_side(n, late) >= 2,
    ensures
        level_side(n, early) >= 2,
    decreases late,
{
    if early < late {
        assert(level_side(n, late - 1) >= 2);
        lemma_can_halve(n, early, late - 1);
    }
}

/// How the motion at one cell of a finer level comes from the coarser one:
/// the position halved, the coarse cell it falls into, and the coarse motion
/// mixed there.
pub struct Lift<T> {
    pub px: T,
    pub py: T,
    pub cx: usize,
    pub cy: usize,
    pub fx: T,
    pub fy: T,
    pub mu: T,
    pub mv: T,
}

/// The motion `(u2, v2)` at column `x` of row `y` is the doubled motion of a
/// field with half the resolution.
pub open spec fn is_lifted<K: Numerics>(
    k: &K,
    u: Seq<K::T>,
    v: Seq<K::T>,
    sw: usize,
    sh: usize,
    x: usize,
    y: usize,
    u2: K::T,
    v2: K::T,
    s: Lift<K::T>,
) -> bool {
    &&& call_ensures(K::half, (k, x), s.px)
    &&& call_ensures(K::half, (k, y), s.py)
    &&& call_ensures(K::cell_below, (k, s.px, sw), (s.cx, s.fx))
    &&& call_ensures(K::cell_below, (k, s.py, sh), (s.cy, s.fy))
    &&& is_bilinear(k, u, sw, sh, s.cx, s.cy, s.fx, s.fy, s.mu)
    &&& is_bilinear(k, v, sw, sh, s.cx, s.cy, s.fx, s.fy, s.mv)
    &&& call_ensures(K::doubled, (k, s.mu), u2)
    &&& call_ensures(K::doubled, (k, s.mv), v2)
}

/// The motion `(u2, v2)` at column `x` of row `y` is lifted in some such way.
pub open spec fn is_lifted_motion<K: Numerics>(
    k: &K,
    u: Seq<K::T>,
    v: Seq<K::T>,
    sw: usize,
    sh: usize,
    x: usize,
    y: usize,
    u2: K::T,
    v2: K::T,
) -> bool {
    exists|s: Lift<K::T>| #[trigger] is_lifted(k, u, v, sw, sh, x, y, u2, v2, s)
}

/// `(u2, v2)`, `w` by `h` cells, is the field `(u, v)` at twice the resolution,
/// with all motions doubled.
pub open spec fn is_upscaled<K: Numerics>(
    k: &K,
    u: Seq<K::T>,
    v: Seq<K::T>,
    sw: usize,
    sh: usize,
    w: int,
    h: int,
    u2: Seq<K::T>,
    v2: Seq<K::T>,
) -> bool {
    &&& u2.len() == w * h
    &&& v2.len() == w * h
    &&& forall|i: int|
        #![trigger u2[i]]
        #![trigger v2[i]]
        0 <= i < w * h ==> is_lifted_motion(
            k,
            u,
            v,
            sw,
            sh,
            (i % w) as usize,
            (i / w) as usize,
            u2[i],
            v2[i],
        )
}

/// Upscale a flow field by a factor of two (values are also doubled).
pub fn upscale_flow<K: Numerics>(k: &K, flow: &FlowField<K::T>, w: usize, h: usize) -> (out:
    FlowField<K::T>)
    requires
        flow.wf(),
        flow.w > 0,
        flow.h > 0,
        w * h <= usize::MAX,
    ensures
        out.wf(),
        out.w == w,
        out.h == h,
        is_upscaled(
            k,
            flow.u@,
            flow.v@,
            flow.w,
            flow.h,
            w as int,
            h as int,
            out.u@,
            out.v@,
        ),
{
    let lifted: Vec<(K::T, K::T)> = par_map(
        w * h,
        |i: usize| -> (m: (K::T, K::T))
            requires
                w * h > i,
                flow.wf(),
                flow.w > 0,
                flow.h > 0,
            ensures
                is_lifted_motion(
                    k,
                    flow.u@,
                    flow.v@,
                    flow.w,
                    flow.h,
                    (i as int % w as int) as usize,
                    (i as int / w as int) as usize,
                    m.0,
                    m.1,
                )
            {
                proof {
                    lemma_split_index(i as int, w as int, h as int);
                }
                let px = k.half(i % w);
                let py = k.half(i / w);
                let (cx, fx) = k.cell_below(px, flow.w);
                let (cy, fy) = k.cell_below(py, flow.h);
                let mu = mix_cells(k, &flow.u, flow.w, flow.h, cx, cy, fx, fy);
                let mv = mix_cells(k, &flow.v, flow.w, flow.h, cx, cy, fx, fy);
                let u2 = k.doubled(mu);
                let v2 = k.doubled(mv);
                assert(is_lifted(
                    k,
                    flow.u@,
                    flow.v@,
                    flow.w,
                    flow.h,
                    (i as int % w as int) as usize,
                    (i as int / w as int) as usize,
                    u2,
                    v2,
                    Lift { px, py, cx, cy, fx, fy, mu, mv },
                ));
                (u2, v2)
            },
    );
    let (u, v) = unzip(&lifted);
    proof {
        assert forall|i: int|
            #![trigger u@[i]]
            #![trigger v@[i]]
            0 <= i < w * h implies is_lifted_motion(
            k,
            flow.u@,
            flow.v@,
            flow.w,
            flow.h,
            (i % w as int) as usize,
            (i / w as int) as usize,
            u@[i],
            v@[i],
        ) by {
            assert(lifted@[i].0 == u@[i]);
            assert(lifted@[i].1 == v@[i]);
        }
    }
    FlowField { w, h, u, v }
}

/// The course of a coarse-to-fine estimation: the pyramids of both images and,
/// for every level, the motion before and after refinement.
pub struct Course<T> {
    pub pa: Seq<Seq<T>>,
    pub pb: Seq<Seq<T>>,
    pub start_u: Seq<Seq<T>>,
    pub start_v: Seq<Seq<T>>,
    pub done_u: Seq<Seq<T>>,
    pub done_v: Seq<Seq<T>>,
}

/// On level `l` of the course the motion is refined, with window radius `r`,
/// `iters` times.
pub open spec fn is_level_refined<K: Numerics>(
    k: &K,
    w: int,
    h: int,
    bw: int,
    bh: int,
    r: int,
    iters: int,
    c: Course<K::T>,
    l: int,
) -> bool {
    is_level_solution(
        k,
        c.pa[l],
        level_side(w, l),
        level_side(h, l),
        c.pb[l],
        level_side(bw, l) as usize,
        level_side(bh, l) as usize,
        r,
        iters,
        c.start_u[l],
        c.start_v[l],
        c.done_u[l],
        c.done_v[l],
    )
}

/// Level `l` of the course starts from the outcome of the next coarser level.
pub open spec fn is_level_lifted<K: Numerics>(
    k: &K,
    w: int,
    h: int,
    c: Course<K::T>,
    l: int,
) -> bool {
    is_upscaled(
        k,
        c.done_u[l + 1],
        c.done_v[l + 1],
        level_side(w, l + 1) as usize,
        level_side(h, l + 1) as usize,
        level_side(w, l),
        level_side(h, l),
        c.start_u[l],
        c.start_v[l],
    )
}

/// The levels `from..` of the course: the coarsest starts without motion, each
/// finer one from the outcome of the one before, and every level is refined.
pub open spec fn is_course_from<K: Numerics>(
    k: &K,
    w: int,
    h: int,
    bw: int,
    bh: int,
    r: int,
    iters: int,
    c: Course<K::T>,
    from: int,
) -> bool {
    let n = c.pa.len() as int;
    &&& c.pb.len() == n
    &&& c.start_u.len() == n
    &&& c.start_v.len() == n
    &&& c.done_u.len() == n
    &&& c.done_v.len() == n
    &&& from < n ==> c.start_u[n - 1].len() == level_side(w, n - 1) * level_side(h, n - 1)
    &&& from < n ==> c.start_v[n - 1].len() == level_side(w, n - 1) * level_side(h, n - 1)
    &&& from < n ==> is_zero_field(k, c.start_u[n - 1])
    &&& from < n ==> is_zero_field(k, c.start_v[n - 1])
    &&& forall|l: int|
        #![trigger c.done_u[l]]
        from <= l < n ==> is_level_refined(k, w, h, bw, bh, r, iters, c, l)
    &&& forall|l: int|
        #![trigger c.start_u[l]]
        from <= l < n - 1 ==> is_level_lifted(k, w, h, c, l)
}

/// `(u, v)` is the motion of every cell of `a` toward `b`, estimated coarse to
/// fine over `levels` levels.
pub open spec fn is_optical_flow<K: Numerics>(
    k: &K,
    a: Gray<K::T>,
    b: Gray<K::T>,
    r: int,
    iters: int,
    levels: int,
    u: Seq<K::T>,
    v: Seq<K::T>,
) -> bool {
    exists|c: Course<K::T>|
        {
            &&& c.pa.len() == levels
            &&& is_pyramid(k, a.data@, a.w as int, a.h as int, c.pa)
            &&& is_pyramid(k, b.data@, b.w as int, b.h as int, c.pb)
            &&& #[trigger] is_course_from(
                k,
                a.w as int,
                a.h as int,
                b.w as int,
                b.h as int,
                r,
                iters,
                c,
                0,
            )
            &&& u == c.done_u[0]
            &&& v == c.done_v[0]
        }
}

/// Both images are large enough for a pyramid of `levels` levels, and those of
/// `b` to be sampled between cells wherever that is asked for.
pub open spec fn can_estimate(
    w: int,
    h: int,
    bw: int,
    bh: int,
    iters: int,
    levels: int,
) -> bool {
    &&& w > 0
    &&& can_build(w, h, levels)
    &&& can_build(bw, bh, levels)
    &&& iters > 0 && h > 0 ==> level_side(bw, levels - 1) >= 2 && level_side(bh, levels - 1) >= 2
}

/// Full pyramidal Lucas-Kanade: returns the motion of every pixel of `a`
/// toward image `b`, in pixels at full resolution. `levels` fixes the number
/// of pyramid levels (zero: automatic).
pub fn optical_flow<K: Numerics>(
    k: &K,
    a: &Gray<K::T>,
    b: &Gray<K::T>,
    win_r: usize,
    iters: usize,
    levels: usize,
) -> (flow: FlowField<K::T>)
    requires
        a.wf(),
        b.wf(),
        can_estimate(
            a.w as int,
            a.h as int,
            b.w as int,
            b.h as int,
            iters as int,
            level_count(a.w as int, a.h as int, levels as int),
        ),
    ensures
        flow.wf(),
        flow.w == a.w,
        flow.h == a.h,
        is_optical_flow(
            k,
            *a,
            *b,
            win_r as int,
            iters as int,
            level_count(a.w as int, a.h as int, levels as int),
            flow.u@,
            flow.v@,
        ),
{
    let n: usize = pyramid_level_count(a.w, a.h, levels);
    let ghost w = a.w as int;
    let ghost h = a.h as int;
    let ghost bw = b.w as int;
    let ghost bh = b.h as int;
    let pa = build_pyramid(k, a, n);
    let pb = build_pyramid(k, b, n);
    let ghost blank: Seq<Seq<K::T>> = Seq::new(n as nat, |l: int| Seq::empty());
    let ghost mut c: Course<K::T> = Course {
        pa: level_data(pa@),
        pb: level_data(pb@),
        start_u: blank,
        start_v: blank,
        done_u: blank,
        done_v: blank,
    };
    proof {
        lemma_level_side(w, n - 1);
        if h > 0 {
            lemma_level_side(h, n - 1);
        }
        assert(pa@[n - 1].wf());
    }
    let mut flow = FlowField::zeros(k, pa[n - 1].w, pa[n - 1].h);
    let mut level: usize = n;
    while level > 0
        invariant
            0 <= level <= n,
            n >= 1,
            w == a.w,
            h == a.h,
            bw == b.w,
            bh == b.h,
            pa.len() == n,
            pb.len() == n,
            has_level_sizes(pa@, w, h),
            has_level_sizes(pb@, bw, bh),
            can_estimate(w, h, bw, bh, iters as int, n as int),
            flow.wf(),
            level == n ==> flow.w == level_side(w, n - 1) && flow.h == level_side(h, n - 1)
                && is_zero_field(k, flow.u@) && is_zero_field(k, flow.v@),
            level < n ==> flow.w == level_side(w, level as int) && flow.h == level_side(
                h,
                level as int,
            ) && c.done_u[level as int] == flow.u@ && c.done_v[level as int] == flow.v@,
            c.pa == level_data(pa@),
            c.pb == level_data(pb@),
            is_course_from(k, w, h, bw, bh, win_r as int, iters as int, c, level as int),
        decreases level,
    {
        level -= 1;
        let ghost l = level as int;
        let ghost earlier = c;
        proof {
            lemma_level_side(w, l);
            if h > 0 {
                lemma_level_side(h, l);
                lemma_level_side(h, l + 1);
            }
            lemma_level_side(w, l + 1);
            if n >= 2 {
                lemma_flat_has_one_level(w, h, n as int);
            }
            lemma_wide_enough(bw, bh, iters as int, h, n as int, l);
            assert(pa@[l].wf());
            assert(pb@[l].wf());
        }
        if level < n - 1 {
            flow = upscale_flow(k, &flow, pa[level].w, pa[level].h);
        }
        proof {
            c = Course {
                start_u: c.start_u.update(l, flow.u@),
                start_v: c.start_v.update(l, flow.v@),
                ..c
            };
        }
        lk_level(k, &pa[level], &pb[level], &mut flow, win_r, iters);
        proof {
            c = Course {
                done_u: c.done_u.update(l, flow.u@),
                done_v: c.done_v.update(l, flow.v@),
                ..c
            };
            assert(c.pa[l] == pa@[l].data@);
            assert(c.pb[l] == pb@[l].data@);
            assert forall|m: int|
                #![trigger c.done_u[m]]
                l <= m < n implies is_level_refined(
                k,
                w,
                h,
                bw,
                bh,
                win_r as int,
                iters as int,
                c,
                m,
            ) by {
                if m > l {
                    assert(c.done_u[m] == earlier.done_u[m]);
                    assert(is_level_refined(
                        k,
                        w,
                        h,
                        bw,
                        bh,
                        win_r as int,
                        iters as int,
                        earlier,
                        m,
                    ));
                }
            }
            assert forall|m: int|
                #![trigger c.start_u[m]]
                l <= m < n - 1 implies is_level_lifted(k, w, h, c, m) by {
                if m > l {
                    assert(c.start_u[m] == earlier.start_u[m]);
                    assert(is_level_lifted(k, w, h, earlier, m));
                }
            }
        }
    }
    flow
}

proof fn lemma_wide_enough(bw: int, bh: int, iters: int, h: int, n: int, l: int)
    requires
        0 <= l < n,
        iters > 0 && h > 0 ==> level_side(bw, n - 1) >= 2 && level_side(bh, n - 1) >= 2,
    ensures
        iters > 0 && h > 0 ==> level_side(bw, l) >= 2 && level_side(bh, l) >= 2,
{
    if iters > 0 && h > 0 {
        lemma_can_halve(bw, l, n - 1);
        lemma_can_halve(bh, l, n - 1);
    }
}

proof fn lemma_flat_has_one_level(w: int, h: int, n: int)
    requires
        can_build(w, h, n),
        n >= 2,
    ensures
        h > 0,
{
    lemma_can_halve(h, 0, n - 2);
}

/// Whether the motion between two images of `w` by `h` cells can be estimated
/// with the given settings.
pub fn estimable(w: usize, h: usize, iters: usize, levels: usize) -> (yes: bool)
    ensures
        yes == can_estimate(
            w as int,
            h as int,
            w as int,
            h as int,
            iters as int,
            level_count(w as int, h as int, levels as int),
        ),
{
    if w == 0 {
        return false;
    }
    let n: usize = pyramid_level_count(w, h, levels);
    let mut cw: usize = w;
    let mut ch: usize = h;
    let mut level: usize = 0;
    while level < n - 1
        invariant
            0 <= level <= n - 1,
            w > 0,
            n >= 1,
            cw == level_side(w as int, level as int),
            ch == level_side(h as int, level as int),
            level > 0 ==> level_side(w as int, level - 1) >= 2 && level_side(h as int, level - 1)
                >= 2,
            n == level_count(w as int, h as int, levels as int),
        decreases n - level,
    {
        if cw < 2 || ch < 2 {
            proof {
                if can_build(w as int, h as int, n as int) {
                    lemma_can_halve(w as int, level as int, n - 2);
                    lemma_can_halve(h as int, level as int, n - 2);
                }
            }
            return false;
        }
        cw = half_side(cw);
        ch = half_side(ch);
        level += 1;
    }
    if iters > 0 && h > 0 && (cw < 2 || ch < 2) {
        return false;
    }
    true
}

/// The finer levels of a pyramid are a pyramid of fewer levels.
pub proof fn law_finer_levels_are_a_pyramid<K: Numerics>(
    k: &K,
    base: Seq<K::T>,
    w: int,
    h: int,
    pyr: Seq<Seq<K::T>>,
    levels: int,
)
    requires
        is_pyramid(k, base, w, h, pyr),
        1 <= levels <= pyr.len(),
    ensures
        is_pyramid(k, base, w, h, pyr.take(levels)),
{
    let p = pyr.take(levels);
    assert forall|l: int|
        #![trigger p[l]]
        0 < l < p.len() implies is_downsampled(
        k,
        p[l - 1],
        level_side(w, l - 1) as usize,
        level_side(h, l - 1) as usize,
        level_side(w, l) as usize,
        level_side(h, l) as usize,
        p[l],
    ) by {
        let here = pyr[l];
    }
}

/// With the automatic level count, motion can be estimated between images of
/// any size from two by two cells up.
pub proof fn law_automatic_levels_always_estimable(w: int, h: int, iters: int)
    requires
        w >= 2,
        h >= 2,
    ensures
        can_estimate(w, h, w, h, iters, level_count(w, h, 0)),
{
    let n = level_count(w, h, 0);
    law_level_count(w, h, 0);
    if n > 1 {
        law_auto_levels_keep_min_side(w, h, n, n - 1);
    }
}

} // verus!
