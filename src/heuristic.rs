use vstd::prelude::*;

verus! {

/// Distance between a total play time and the target.
pub open spec fn distance(total: int, target: int) -> int {
    if total <= target {
        target - total
    } else {
        total - target
    }
}

/// `h` only ever prefers totals that are no worse under `rank`: when it accepts the new
/// total, the new one ranks at most as high as the old one, and when it rejects it, the
/// old one ranks at most as high.
pub open spec fn ranks_by<H: Fn(u64, u64, u64) -> bool>(h: H, target: u64, rank: spec_fn(u64) -> int) -> bool {
    forall|old_total: u64, new_total: u64, accepted: bool|
        #[trigger] call_ensures(h, (old_total, new_total, target), accepted) ==> if accepted {
            rank(new_total) <= rank(old_total)
        } else {
            rank(old_total) <= rank(new_total)
        }
}

/// `h` accepts a new total exactly when it ranks strictly lower under `rank` than the old
/// one: ties keep the old total.
pub open spec fn accepts_exactly_better<H: Fn(u64, u64, u64) -> bool>(
    h: H,
    target: u64,
    rank: spec_fn(u64) -> int,
) -> bool {
    forall|old_total: u64, new_total: u64, accepted: bool|
        #[trigger] call_ensures(h, (old_total, new_total, target), accepted) ==> accepted == (rank(
            new_total,
        ) < rank(old_total))
}

/// Greedy acceptance: takes the new total exactly when it lies strictly closer to the target.
pub fn h_greedy(old_total: u64, new_total: u64, target: u64) -> (r: bool)
    ensures
        r == (distance(new_total as int, target as int) < distance(old_total as int, target as int)),
{
    let new_distance = if new_total <= target { target - new_total } else { new_total - target };
    let old_distance = if old_total <= target { target - old_total } else { old_total - target };
    new_distance < old_distance
}

/// The greedy heuristic never prefers a total that lies farther from the target, and takes
/// a new total exactly when it lies strictly closer.
pub proof fn lemma_greedy_ranks_by_distance(target: u64)
    ensures
        ranks_by(h_greedy, target, |t: u64| distance(t as int, target as int)),
        accepts_exactly_better(h_greedy, target, |t: u64| distance(t as int, target as int)),
{
}

} // verus!
