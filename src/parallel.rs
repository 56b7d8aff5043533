use rayon::iter::{IntoParallelRefIterator, ParallelIterator};
use vstd::prelude::*;
use crate::heuristic::{accepts_exactly_better, ranks_by};

verus! {

/// A contender for one playlist position: its place in the unused pool (`None` for the
/// track that held the position) and its duration in milliseconds.
pub type Candidate = (Option<usize>, u64);

/// Of two contenders, the one that `h` keeps: `challenger` when `h` accepts the total it
/// gives, `incumbent` otherwise. `base` is the total of the other tracks of the playlist.
pub fn prefer<H: Fn(u64, u64, u64) -> bool>(
    h: &H,
    base: u64,
    target: u64,
    incumbent: Candidate,
    challenger: Candidate,
) -> (r: Candidate)
    requires
        base + incumbent.1 <= u64::MAX,
        base + challenger.1 <= u64::MAX,
        forall|a: u64, b: u64, t: u64| call_requires(*h, (a, b, t)),
    ensures
        r == incumbent || r == challenger,
        r != incumbent ==> call_ensures(
            *h,
            ((base + incumbent.1) as u64, (base + challenger.1) as u64, target),
            true,
        ),
        forall|rank: spec_fn(u64) -> int|
            #[trigger] ranks_by(*h, target, rank) ==> rank((base + r.1) as u64) <= rank(
                (base + incumbent.1) as u64,
            ) && rank((base + r.1) as u64) <= rank((base + challenger.1) as u64),
{
    let accepted = h(base + incumbent.1, base + challenger.1, target);
    if accepted {
        challenger
    } else {
        incumbent
    }
}

/// Relies on rayon's ParallelIterator::reduce: every partial result starts from the identity
/// (`fallback`) and is combined only through `prefer`, which returns one of its arguments.
/// So the outcome is `fallback` or one of the candidates, and under any ranking that `h`
/// respects it ranks no higher than `fallback` or any candidate, all of which are leaves of
/// the combining tree. A partial result moves off `fallback` only to a candidate that `h`
/// accepted, so under a ranking by which `h` accepts exactly the strictly lower totals, the
/// outcome is `fallback` or ranks strictly lower.
#[verifier::external_body]
pub(crate) fn par_select<H: Fn(u64, u64, u64) -> bool + Sync>(
    h: &H,
    base: u64,
    target: u64,
    fallback: Candidate,
    candidates: &Vec<Candidate>,
) -> (r: Candidate)
    requires
        base + fallback.1 <= u64::MAX,
        forall|k: int| 0 <= k < candidates@.len() ==> base + (#[trigger] candidates@[k]).1 <= u64::MAX,
        forall|a: u64, b: u64, t: u64| call_requires(*h, (a, b, t)),
    ensures
        r == fallback || candidates@.contains(r),
        forall|rank: spec_fn(u64) -> int|
            #[trigger] ranks_by(*h, target, rank) ==> rank((base + r.1) as u64) <= rank(
                (base + fallback.1) as u64,
            ) && forall|k: int|
                0 <= k < candidates@.len() ==> rank((base + r.1) as u64) <= rank(
                    (base + (#[trigger] candidates@[k]).1) as u64,
                ),
        forall|rank: spec_fn(u64) -> int|
            #[trigger] accepts_exactly_better(*h, target, rank) ==> r == fallback || rank(
                (base + r.1) as u64,
            ) < rank((base + fallback.1) as u64),
        r != fallback ==> exists|old_total: u64|
            #[trigger] call_ensures(*h, (old_total, (base + r.1) as u64, target), true),
{
    candidates.par_iter().copied().reduce(|| fallback, |a, b| prefer(h, base, target, a, b))
}

} // verus!
