//! The two parallel primitives the image passes are built on.
use rayon::iter::{IntoParallelIterator, ParallelIterator};
use vstd::prelude::*;

verus! {

/// `rayon::join`: both closures run to completion, possibly at the same time,
/// and their results come back as a pair.
pub assume_specification<A, B, RA, RB>[ rayon::join::<A, B, RA, RB> ](
    oper_a: A,
    oper_b: B,
) -> (res: (RA, RB)) where
    A: FnOnce() -> RA + Send,
    B: FnOnce() -> RB + Send,
    RA: Send,
    RB: Send,

    requires
        oper_a.requires(()),
        oper_b.requires(()),
    ensures
        oper_a.ensures((), res.0),
        oper_b.ensures((), res.1),
;

/// `into_par_iter` on a range, `ParallelIterator::map` and
/// `ParallelIterator::collect`: the closure runs once for every index of the
/// range, in any order and possibly at the same time, and the vector holds the
/// results in the order of their indices.
#[verifier::external_body]
pub(crate) fn par_map<T, F>(n: usize, f: F) -> (out: Vec<T>) where
    T: Send,
    F: Fn(usize) -> T + Sync + Send,

    requires
        forall|i: usize| i < n ==> f.requires((i,)),
    ensures
        out@.len() == n,
        forall|i: int| 0 <= i < n ==> f.ensures((i as usize,), #[trigger] out@[i]),
{
    (0..n).into_par_iter().map(f).collect()
}

} // verus!
