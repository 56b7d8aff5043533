use vstd::prelude::*;
use crate::track::{Track, total_duration, lemma_total_push, lemma_total_remove, lemma_total_update};
use crate::random::{random_index, sample_positions};
use crate::heuristic::{accepts_exactly_better, distance, h_greedy, lemma_greedy_ranks_by_distance, ranks_by};
use crate::parallel::{Candidate, par_select};

verus! {

broadcast use vstd::seq_lib::group_to_multiset_ensures;

/// A selection of tracks (`used`, in play order) out of a catalog, the rest of which stays
/// in `unused`, with the running total of `used` and the target it aims at.
pub struct Playlist {
    used: Vec<Track>,
    used_duration: u64,
    unused: Vec<Track>,
    target: u64,
    catalog: Ghost<Seq<Track>>,
}

/// Under every ranking of totals that `h` respects, `after` ranks no higher than `before`.
pub open spec fn ranked_no_worse<H: Fn(u64, u64, u64) -> bool>(h: H, before: Playlist, after: Playlist) -> bool {
    forall|rank: spec_fn(u64) -> int|
        #[trigger] ranks_by(h, before.target_ms() as u64, rank) ==> rank(after.used_total() as u64)
            <= rank(before.used_total() as u64)
}

/// Some entry of `positions` is `j`.
pub open spec fn takes(positions: Seq<usize>, j: int) -> bool {
    exists|m: int| 0 <= m < positions.len() && positions[m] as int == j
}

/// `n` distinct values below `n` take every value below `n`.
proof fn lemma_full_sample_covers(positions: Seq<usize>, n: nat)
    requires
        positions.len() == n,
        positions.no_duplicates(),
        forall|m: int| 0 <= m < positions.len() ==> #[trigger] positions[m] < n,
    ensures
        forall|j: int| 0 <= j < n ==> #[trigger] takes(positions, j),
{
    let q = positions.map_values(|p: usize| p as int);
    assert(q.no_duplicates()) by {
        assert forall|a: int, b: int| 0 <= a < q.len() && 0 <= b < q.len() && a != b implies q[a]
            != q[b] by {
            assert(positions[a] != positions[b]);
        }
    }
    q.unique_seq_to_set();
    vstd::set_lib::lemma_int_range(0, n as int);
    let range = vstd::set_lib::set_int_range(0, n as int);
    assert(q.to_set().subset_of(range)) by {
        assert forall|i: int| q.to_set().contains(i) implies range.contains(i) by {
            assert(q.contains(i));
            let m = choose|m: int| 0 <= m < q.len() && q[m] == i;
            assert(positions[m] < n);
        }
    }
    vstd::set_lib::lemma_len_subset(q.to_set(), range);
    vstd::set_lib::lemma_subset_equality(q.to_set(), range);
    assert forall|j: int| 0 <= j < n implies #[trigger] takes(positions, j) by {
        assert(range.contains(j));
        assert(q.to_set().contains(j));
        assert(q.contains(j));
        let m = choose|m: int| 0 <= m < q.len() && q[m] == j;
        assert(positions[m] as int == j);
    }
}

/// The total the playlist would have with the unused track `j` in place of the selected
/// track at `index`.
pub open spec fn total_with(p: Playlist, index: int, j: int) -> int {
    p.used_total() - p.used_tracks()[index].duration_ms + p.unused_tracks()[j].duration_ms
}

/// `a` and `b` select the same tracks, keep the same pool and have the same total.
pub open spec fn same_selection(a: Playlist, b: Playlist) -> bool {
    a.used_tracks() == b.used_tracks() && a.unused_tracks() == b.unused_tracks() && a.used_total()
        == b.used_total()
}

/// `sample` holds distinct positions of a pool of `n` tracks.
pub open spec fn valid_sample(sample: Seq<usize>, n: nat) -> bool {
    sample.no_duplicates() && forall|k: int| 0 <= k < sample.len() ==> #[trigger] sample[k] < n
}

/// What trying the pool positions in `sample` against the selected track at `index`, with
/// heuristic `h`, may leave of `before`:
/// - the invariants, the catalog, the target and both lengths are kept;
/// - nothing changes, or the track at `index` trades places with one sampled track;
/// - under any ranking that `h` respects, the new total ranks no higher than the old one or
///   than any sampled alternative;
/// - under a ranking by which `h` accepts exactly the strictly lower totals, a change lowers
///   the rank (ties keep the current track);
/// - a change only happens to a total that `h` accepted.
pub open spec fn swapped_with<H: Fn(u64, u64, u64) -> bool>(
    h: H,
    before: Playlist,
    after: Playlist,
    index: int,
    sample: Seq<usize>,
) -> bool {
    let u = before.used_tracks();
    let v = before.unused_tracks();
    let target = before.target_ms() as u64;
    &&& after.wf()
    &&& after.catalog() == before.catalog()
    &&& after.target_ms() == before.target_ms()
    &&& after.used_tracks().len() == u.len()
    &&& after.unused_tracks().len() == v.len()
    &&& same_selection(before, after) || exists|k: int|
        0 <= k < sample.len() && after.used_tracks() == u.update(index, v[#[trigger] sample[k] as int])
            && after.unused_tracks() == v.update(sample[k] as int, u[index])
    &&& ranked_no_worse(h, before, after)
    &&& forall|rank: spec_fn(u64) -> int|
        #[trigger] ranks_by(h, target, rank) ==> forall|k: int|
            0 <= k < sample.len() ==> rank(after.used_total() as u64) <= rank(
                #[trigger] total_with(before, index, sample[k] as int) as u64,
            )
    &&& forall|rank: spec_fn(u64) -> int|
        #[trigger] accepts_exactly_better(h, target, rank) ==> same_selection(before, after) || rank(
            after.used_total() as u64,
        ) < rank(before.used_total() as u64)
    &&& !same_selection(before, after) ==> exists|old_total: u64|
        #[trigger] call_ensures(h, (old_total, after.used_total() as u64, target), true)
}

/// `after` is what `swap` at `index` with sample size `depth` may leave of `before`: the
/// outcome of `swapped_with` for some sample of `min(depth, pool size)` distinct positions.
pub open spec fn swap_step<H: Fn(u64, u64, u64) -> bool>(
    h: H,
    before: Playlist,
    after: Playlist,
    index: int,
    depth: nat,
) -> bool {
    exists|sample: Seq<usize>|
        #[trigger] swapped_with(h, before, after, index, sample) && valid_sample(
            sample,
            before.unused_tracks().len(),
        ) && sample.len() == if depth < before.unused_tracks().len() {
            depth
        } else {
            before.unused_tracks().len()
        }
}

/// No unused track, put in place of the selected track at `index`, gives a total that ranks
/// lower, under any ranking that `h` respects.
pub open spec fn settled_at<H: Fn(u64, u64, u64) -> bool>(h: H, p: Playlist, index: int) -> bool {
    forall|rank: spec_fn(u64) -> int|
        #[trigger] ranks_by(h, p.target_ms() as u64, rank) ==> forall|j: int|
            0 <= j < p.unused_tracks().len() ==> rank(p.used_total() as u64) <= rank(
                #[trigger] total_with(p, index, j) as u64,
            )
}

/// The sample size `refine` uses: `depth_percent` percent of the pool, rounded down, and the
/// whole pool from 100 percent on.
pub open spec fn refine_depth(p: Playlist, depth_percent: nat) -> nat {
    if depth_percent >= 100 {
        p.unused_tracks().len()
    } else {
        p.unused_tracks().len() * depth_percent / 100
    }
}

/// The number of positions each sweep of `refine` tries: `steps_percent` percent of the
/// selection, rounded down.
pub open spec fn refine_steps(p: Playlist, steps_percent: nat) -> nat {
    p.used_tracks().len() * steps_percent / 100
}

/// In `trace`, the step of sweep `p` at position `i` is a swap at position `i`.
pub open spec fn sweep_step<H: Fn(u64, u64, u64) -> bool>(
    h: H,
    trace: Seq<Playlist>,
    steps: nat,
    depth: nat,
    p: nat,
    i: nat,
) -> bool {
    swap_step(h, trace[(p * steps + i) as int], trace[(p * steps + i + 1) as int], i as int, depth)
}

/// With the whole pool sampled, the position a swap tried is settled afterwards.
proof fn lemma_full_sample_settles<H: Fn(u64, u64, u64) -> bool>(
    h: H,
    before: Playlist,
    after: Playlist,
    index: int,
    sample: Seq<usize>,
)
    requires
        before.wf(),
        0 <= index < before.used_tracks().len(),
        swapped_with(h, before, after, index, sample),
        valid_sample(sample, before.unused_tracks().len()),
        sample.len() == before.unused_tracks().len(),
    ensures
        settled_at(h, after, index),
{
    let u = before.used_tracks();
    let v = before.unused_tracks();
    lemma_full_sample_covers(sample, v.len());
    assert forall|rank: spec_fn(u64) -> int|
        #[trigger] ranks_by(h, after.target_ms() as u64, rank) implies forall|j: int|
            0 <= j < after.unused_tracks().len() ==> rank(after.used_total() as u64) <= rank(
                #[trigger] total_with(after, index, j) as u64,
            ) by {
        assert forall|j: int| 0 <= j < after.unused_tracks().len() implies rank(
            after.used_total() as u64,
        ) <= rank(#[trigger] total_with(after, index, j) as u64) by {
            assert(takes(sample, j));
            let k = choose|k: int| 0 <= k < sample.len() && sample[k] as int == j;
            assert(rank(after.used_total() as u64) <= rank(total_with(before, index, sample[k] as int) as u64));
            if same_selection(before, after) {
            } else {
                let k0 = choose|k0: int|
                    0 <= k0 < sample.len() && after.used_tracks() == u.update(index, v[#[trigger] sample[k0] as int])
                        && after.unused_tracks() == v.update(sample[k0] as int, u[index]);
                let j0 = sample[k0] as int;
                lemma_total_update(u, index, v[j0]);
                if j == j0 {
                    assert(total_with(after, index, j) == before.used_total());
                } else {
                    assert(total_with(after, index, j) == total_with(before, index, j));
                }
            }
        }
    }
}

/// Index arithmetic of a sweep trace.
proof fn lemma_sweep_index(p: nat, pass: nat, steps: nat, i: nat)
    requires
        p < pass,
        i < steps,
    ensures
        p * steps + i + 1 <= pass * steps,
{
    assert(p * steps + i + 1 <= pass * steps) by (nonlinear_arith)
        requires
            p < pass,
            i < steps,
    ;
}

/// `len * percent / 100`, rounded down, computed without overflow.
fn scaled(len: usize, percent: usize) -> (r: usize)
    requires
        percent <= 100,
    ensures
        r == len * percent / 100,
{
    let q = len / 100;
    let m = len % 100;
    proof {
        assert(len * percent == (q * percent) * 100 + m * percent) by (nonlinear_arith)
            requires
                len == q * 100 + m,
        ;
        assert(q * percent <= len) by (nonlinear_arith)
            requires
                len == q * 100 + m,
                percent <= 100,
                m >= 0,
        ;
        assert(m * percent < 10000) by (nonlinear_arith)
            requires
                m < 100,
                percent <= 100,
        ;
        assert((len * percent) / 100 == q * percent + (m * percent) / 100) by (nonlinear_arith)
            requires
                len * percent == (q * percent) * 100 + m * percent,
                m * percent >= 0,
        ;
        assert(len * percent / 100 <= len) by (nonlinear_arith)
            requires
                percent <= 100,
        ;
    }
    q * percent + m * percent / 100
}

impl Playlist {
    /// The selected tracks, in play order.
    pub closed spec fn used_tracks(&self) -> Seq<Track> {
        self.used@
    }

    /// The tracks of the catalog that are not selected.
    pub closed spec fn unused_tracks(&self) -> Seq<Track> {
        self.unused@
    }

    /// The running total of the selected tracks, in milliseconds.
    pub closed spec fn used_total(&self) -> nat {
        self.used_duration as nat
    }

    /// The duration the playlist aims at, in milliseconds.
    pub closed spec fn target_ms(&self) -> nat {
        self.target as nat
    }

    /// The catalog the playlist was built from.
    pub closed spec fn catalog(&self) -> Seq<Track> {
        self.catalog@
    }

    /// Every catalog track is in exactly one of the two pools, and the running total is
    /// the sum of the selected durations.
    pub open spec fn wf(&self) -> bool {
        &&& (self.used_tracks() + self.unused_tracks()).to_multiset() == self.catalog().to_multiset()
        &&& self.used_total() == total_duration(self.used_tracks())
        &&& total_duration(self.used_tracks()) + total_duration(self.unused_tracks())
            == total_duration(self.catalog())
        &&& total_duration(self.catalog()) <= u64::MAX
    }

    /// Seeds a playlist: draws tracks uniformly at random, without replacement, while the
    /// selected total is below `target` and tracks are left.
    pub fn from_random(unused: Vec<Track>, target: u64, rng: &mut rand::rngs::StdRng) -> (r: Playlist)
        requires
            total_duration(unused@) <= u64::MAX,
        ensures
            r.wf(),
            r.catalog() == unused@,
            r.target_ms() == target,
            r.used_total() >= target || r.unused_tracks().len() == 0,
            forall|k: int|
                0 <= k < r.used_tracks().len() ==> total_duration(#[trigger] r.used_tracks().take(k))
                    < target,
            r.used_tracks().len() <= unused@.len(),
            target <= total_duration(unused@) ==> r.used_total() >= target,
            target > total_duration(unused@) ==> r.unused_tracks().len() == 0,
    {
        let ghost catalog = unused@;
        let mut unused = unused;
        let mut used: Vec<Track> = Vec::new();
        let mut used_duration: u64 = 0;

        while used_duration < target && unused.len() > 0
            invariant
                (used@ + unused@).to_multiset() == catalog.to_multiset(),
                used_duration == total_duration(used@),
                total_duration(used@) + total_duration(unused@) == total_duration(catalog),
                total_duration(catalog) <= u64::MAX,
                used@.len() + unused@.len() == catalog.len(),
                forall|k: int| 0 <= k < used@.len() ==> total_duration(#[trigger] used@.take(k)) < target,
            decreases unused.len(),
        {
            let ghost before_used = used@;
            let ghost before_unused = unused@;
            let random_index = random_index(rng, unused.len());
            let file = unused.remove(random_index);
            proof {
                lemma_total_remove(before_unused, random_index as int);
                lemma_total_push(before_used, file);
                assert(before_used.push(file) + before_unused.remove(random_index as int)
                    =~= (before_used + before_unused).remove(before_used.len() + random_index)
                    .insert(before_used.len() as int, file));
            }
            used_duration = used_duration + file.duration_ms;
            used.push(file);
            proof {
                let s = before_used + before_unused;
                let i = before_used.len() + random_index;
                assert(s.remove(i).insert(before_used.len() as int, file).to_multiset()
                    == s.remove(i).to_multiset().insert(file));
                assert(s[i] == file);
                assert forall|k: int| 0 <= k < used@.len() implies total_duration(
                    #[trigger] used@.take(k),
                ) < target by {
                    if k < before_used.len() {
                        assert(used@.take(k) =~= before_used.take(k));
                    } else {
                        assert(used@.take(k) =~= before_used);
                    }
                }
            }
        }
        proof {
            if unused@.len() == 0 {
                assert(used@ + unused@ =~= used@);
            }
        }
        Playlist { used, used_duration, unused, target, catalog: Ghost(catalog) }
    }

    /// Tries the unused tracks at the positions in `sample` against the selected track at
    /// `index`: `h` chooses among them in parallel, and the choice is committed. Whichever
    /// track loses the position goes to the unused pool, at the place the winner came from.
    pub fn swap_sampled<H: Fn(u64, u64, u64) -> bool + Sync>(&mut self, index: usize, sample: &Vec<usize>, h: H)
        requires
            old(self).wf(),
            index < old(self).used_tracks().len(),
            valid_sample(sample@, old(self).unused_tracks().len()),
            forall|a: u64, b: u64, t: u64| call_requires(h, (a, b, t)),
        ensures
            swapped_with(h, *old(self), *final(self), index as int, sample@),
    {
        let ghost before = *self;
        let ghost u = self.used@;
        let ghost v = self.unused@;
        let mut candidates: Vec<Candidate> = Vec::new();
        let mut k: usize = 0;
        while k < sample.len()
            invariant
                self.unused@ == v,
                k <= sample@.len(),
                candidates@.len() == k,
                forall|m: int| 0 <= m < sample@.len() ==> #[trigger] sample@[m] < v.len(),
                forall|m: int|
                    0 <= m < k ==> #[trigger] candidates@[m] == (
                        Some(sample@[m]),
                        v[sample@[m] as int].duration_ms,
                    ),
                forall|m: int| 0 <= m < k ==> (#[trigger] candidates@[m]).1 <= total_duration(v),
            decreases sample@.len() - k,
        {
            let p = sample[k];
            proof {
                lemma_total_remove(v, p as int);
            }
            candidates.push((Some(p), self.unused[p].duration_ms));
            k = k + 1;
        }
        let outgoing = self.used.remove(index);
        proof {
            lemma_total_remove(u, index as int);
        }
        let base = self.used_duration - outgoing.duration_ms;
        let fallback: Candidate = (None, outgoing.duration_ms);
        let winner = par_select(&h, base, self.target, fallback, &candidates);
        proof {
            assert forall|rank: spec_fn(u64) -> int|
                #[trigger] ranks_by(h, before.target_ms() as u64, rank) implies forall|m: int|
                    0 <= m < sample@.len() ==> rank((base + winner.1) as u64) <= rank(
                        #[trigger] total_with(before, index as int, sample@[m] as int) as u64,
                    ) by {
                assert forall|m: int| 0 <= m < sample@.len() implies rank((base + winner.1) as u64)
                    <= rank(#[trigger] total_with(before, index as int, sample@[m] as int) as u64) by {
                    assert(candidates@[m].1 == v[sample@[m] as int].duration_ms);
                }
            }
        }
        match winner.0 {
            None => {
                proof {
                    if winner != fallback {
                        let m = choose|m: int| 0 <= m < candidates@.len() && candidates@[m] == winner;
                        assert(candidates@[m].0 is Some);
                    }
                    assert(self.used@.insert(index as int, outgoing) =~= u);
                }
                self.used_duration = base + outgoing.duration_ms;
                self.used.insert(index, outgoing);
                assert(same_selection(before, *self));
            },
            Some(j) => {
                let ghost m = choose|m: int| 0 <= m < candidates@.len() && candidates@[m] == winner;
                assert(candidates@[m] == winner);
                let incoming = self.unused.remove(j);
                self.used_duration = base + incoming.duration_ms;
                self.used.insert(index, incoming);
                self.unused.insert(j, outgoing);
                proof {
                    let i = index as int;
                    let jj = j as int;
                    assert(self.used@ =~= u.update(i, v[jj]));
                    assert(self.unused@ =~= v.update(jj, u[i]));
                    assert(sample@[m] == j);
                    assert(self.used@ + self.unused@ =~= (u + v).update(i, v[jj]).update(
                        u.len() + jj,
                        u[i],
                    ));
                    lemma_total_update(u, i, v[jj]);
                    lemma_total_update(v, jj, u[i]);
                    assert((u + v).update(i, v[jj]).to_multiset() == (u + v).to_multiset().insert(
                        v[jj],
                    ).remove(u[i]));
                    assert((u + v).update(i, v[jj]).update(u.len() + jj, u[i]).to_multiset() =~= (u
                        + v).to_multiset());
                }
            },
        }
        proof {
            assert(self.wf());
            assert(ranked_no_worse(h, before, *self));
            assert(same_selection(before, *self) || exists|k: int|
                0 <= k < sample@.len() && self.used_tracks() == u.update(index as int, v[#[trigger] sample@[k] as int])
                    && self.unused_tracks() == v.update(sample@[k] as int, u[index as int]));
            assert(forall|rank: spec_fn(u64) -> int|
                #[trigger] accepts_exactly_better(h, before.target_ms() as u64, rank) ==> same_selection(before, *self) || rank(
                    self.used_total() as u64,
                ) < rank(before.used_total() as u64));
            assert(!same_selection(before, *self) ==> exists|old_total: u64|
                #[trigger] call_ensures(h, (old_total, self.used_total() as u64, before.target_ms() as u64), true));
        }
    }

    /// Tries to replace the track at `index`: samples `depth` distinct tracks of the unused
    /// pool (all of them where the pool is smaller) and hands them to `swap_sampled`.
    pub fn swap<H: Fn(u64, u64, u64) -> bool + Sync>(
        &mut self,
        index: usize,
        depth: usize,
        h: H,
        rng: &mut rand::rngs::StdRng,
    )
        requires
            old(self).wf(),
            index < old(self).used_tracks().len(),
            forall|a: u64, b: u64, t: u64| call_requires(h, (a, b, t)),
        ensures
            final(self).wf(),
            final(self).catalog() == old(self).catalog(),
            final(self).target_ms() == old(self).target_ms(),
            final(self).used_tracks().len() == old(self).used_tracks().len(),
            final(self).unused_tracks().len() == old(self).unused_tracks().len(),
            swap_step(h, *old(self), *final(self), index as int, depth as nat),
            depth == 0 || old(self).unused_tracks().len() == 0 ==> same_selection(*old(self), *final(self)),
            depth >= old(self).unused_tracks().len() ==> settled_at(h, *final(self), index as int),
    {
        let ghost before = *self;
        let amount = if depth < self.unused.len() {
            depth
        } else {
            self.unused.len()
        };
        let sample = sample_positions(rng, &self.unused, amount);
        self.swap_sampled(index, &sample, h);
        proof {
            assert(swapped_with(h, before, *self, index as int, sample@));
            if depth >= before.unused_tracks().len() {
                lemma_full_sample_settles(h, before, *self, index as int, sample@);
            }
        }
    }

    /// Refines the playlist: `passes` sweeps, each calling `swap` in order on the positions
    /// `0..steps`. `depth` is `depth_percent` percent of the unused pool (the whole pool from
    /// 100 percent on) and `steps` is `steps_percent` percent of the selection, both rounded
    /// down and both taken once, before the first sweep.
    pub fn refine<H: Fn(u64, u64, u64) -> bool + Sync + Copy>(
        &mut self,
        depth_percent: usize,
        steps_percent: usize,
        passes: usize,
        h: H,
        rng: &mut rand::rngs::StdRng,
    )
        requires
            old(self).wf(),
            steps_percent <= 100,
            forall|a: u64, b: u64, t: u64| call_requires(h, (a, b, t)),
        ensures
            final(self).wf(),
            final(self).catalog() == old(self).catalog(),
            final(self).target_ms() == old(self).target_ms(),
            final(self).used_tracks().len() == old(self).used_tracks().len(),
            final(self).unused_tracks().len() == old(self).unused_tracks().len(),
            ranked_no_worse(h, *old(self), *final(self)),
            ({
                let steps = refine_steps(*old(self), steps_percent as nat);
                let depth = refine_depth(*old(self), depth_percent as nat);
                exists|trace: Seq<Playlist>|
                    trace.len() == passes * steps + 1 && trace[0] == *old(self) && trace.last()
                        == *final(self) && forall|p: nat, i: nat|
                        p < passes && i < steps ==> #[trigger] sweep_step(h, trace, steps, depth, p, i)
            }),
            passes == 0 || refine_steps(*old(self), steps_percent as nat) == 0 ==> same_selection(
                *old(self),
                *final(self),
            ),
            passes > 0 && depth_percent >= 100 && refine_steps(*old(self), steps_percent as nat) > 0
                ==> settled_at(h, *final(self), refine_steps(*old(self), steps_percent as nat) - 1),
    {
        let ghost start = *self;
        let depth = if depth_percent >= 100 {
            self.unused.len()
        } else {
            scaled(self.unused.len(), depth_percent)
        };
        let steps = scaled(self.used.len(), steps_percent);
        assert(steps <= self.used@.len()) by (nonlinear_arith)
            requires
                steps == self.used@.len() * steps_percent / 100,
                steps_percent <= 100,
        ;
        let ghost gsteps = steps as nat;
        let ghost gdepth = depth as nat;
        let ghost mut trace: Seq<Playlist> = seq![start];
        let mut pass: usize = 0;
        while pass < passes
            invariant
                self.wf(),
                self.catalog() == start.catalog(),
                self.target_ms() == start.target_ms(),
                self.used_tracks().len() == start.used_tracks().len(),
                self.unused_tracks().len() == start.unused_tracks().len(),
                gsteps == steps,
                gdepth == depth,
                steps <= start.used_tracks().len(),
                depth_percent >= 100 ==> depth == start.unused_tracks().len(),
                ranked_no_worse(h, start, *self),
                forall|a: u64, b: u64, t: u64| call_requires(h, (a, b, t)),
                pass <= passes,
                pass == 0 || steps == 0 ==> same_selection(start, *self),
                pass > 0 && steps > 0 && depth_percent >= 100 ==> settled_at(h, *self, steps - 1),
                trace.len() == pass * gsteps + 1,
                trace[0] == start,
                trace.last() == *self,
                forall|p: nat, i: nat|
                    p < pass && i < gsteps ==> #[trigger] sweep_step(h, trace, gsteps, gdepth, p, i),
            decreases passes - pass,
        {
            let ghost pass_start = *self;
            let mut i: usize = 0;
            while i < steps
                invariant
                    self.wf(),
                    self.catalog() == start.catalog(),
                    self.target_ms() == start.target_ms(),
                    self.used_tracks().len() == start.used_tracks().len(),
                    self.unused_tracks().len() == start.unused_tracks().len(),
                    gsteps == steps,
                    gdepth == depth,
                    steps <= start.used_tracks().len(),
                    depth_percent >= 100 ==> depth == start.unused_tracks().len(),
                    i <= steps,
                    pass < passes,
                    i == 0 ==> same_selection(pass_start, *self),
                    ranked_no_worse(h, start, *self),
                    forall|a: u64, b: u64, t: u64| call_requires(h, (a, b, t)),
                    i == 0 && pass > 0 && steps > 0 && depth_percent >= 100 ==> settled_at(
                        h,
                        *self,
                        steps - 1,
                    ),
                    i > 0 && depth_percent >= 100 ==> settled_at(h, *self, i - 1),
                    trace.len() == pass * gsteps + i + 1,
                    trace[0] == start,
                    trace.last() == *self,
                    forall|p: nat, i2: nat|
                        p < pass && i2 < gsteps ==> #[trigger] sweep_step(h, trace, gsteps, gdepth, p, i2),
                    forall|i2: nat| i2 < i ==> #[trigger] sweep_step(h, trace, gsteps, gdepth, pass as nat, i2),
                decreases steps - i,
            {
                let ghost before = *self;
                let ghost old_trace = trace;
                self.swap(i, depth, h, rng);
                proof {
                    assert(ranked_no_worse(h, before, *self));
                    assert(ranked_no_worse(h, start, *self));
                    trace = trace.push(*self);
                    assert forall|p: nat, i2: nat|
                        p < pass && i2 < gsteps implies #[trigger] sweep_step(h, trace, gsteps, gdepth, p, i2) by {
                        lemma_sweep_index(p, pass as nat, gsteps, i2);
                        assert(sweep_step(h, old_trace, gsteps, gdepth, p, i2));
                        assert(trace[(p * gsteps + i2) as int] == old_trace[(p * gsteps + i2) as int]);
                        assert(trace[(p * gsteps + i2 + 1) as int] == old_trace[(p * gsteps + i2 + 1) as int]);
                    }
                    assert forall|i2: nat| i2 < i + 1 implies #[trigger] sweep_step(
                        h,
                        trace,
                        gsteps,
                        gdepth,
                        pass as nat,
                        i2,
                    ) by {
                        if i2 < i {
                            assert(sweep_step(h, old_trace, gsteps, gdepth, pass as nat, i2));
                            assert(trace[(pass * gsteps + i2) as int] == old_trace[(pass * gsteps + i2) as int]);
                            assert(trace[(pass * gsteps + i2 + 1) as int] == old_trace[(pass * gsteps + i2 + 1) as int]);
                        } else {
                            assert(trace[(pass * gsteps + i2) as int] == before);
                            assert(trace[(pass * gsteps + i2 + 1) as int] == *self);
                        }
                    }
                }
                i = i + 1;
            }
            proof {
                assert(pass * gsteps + gsteps == (pass + 1) * gsteps) by (nonlinear_arith);
                assert forall|p: nat, i2: nat|
                    p < pass + 1 && i2 < gsteps implies #[trigger] sweep_step(h, trace, gsteps, gdepth, p, i2) by {
                    if p == pass {
                        assert(sweep_step(h, trace, gsteps, gdepth, pass as nat, i2));
                    }
                }
            }
            pass = pass + 1;
        }
        proof {
            assert(trace.len() == passes * gsteps + 1);
        }
    }

    /// Number of selected tracks.
    pub fn used_len(&self) -> (r: usize)
        ensures
            r == self.used_tracks().len(),
    {
        self.used.len()
    }

    /// Number of catalog tracks left out of the selection.
    pub fn unused_len(&self) -> (r: usize)
        ensures
            r == self.unused_tracks().len(),
    {
        self.unused.len()
    }

    /// The selected tracks, in play order.
    pub fn used(&self) -> (r: &Vec<Track>)
        ensures
            r@ == self.used_tracks(),
    {
        &self.used
    }

    /// The catalog tracks left out of the selection.
    pub fn unused(&self) -> (r: &Vec<Track>)
        ensures
            r@ == self.unused_tracks(),
    {
        &self.unused
    }

    /// Total duration of the selection, in milliseconds.
    pub fn used_duration_ms(&self) -> (r: u64)
        ensures
            r == self.used_total(),
    {
        self.used_duration
    }

    /// The target duration, in milliseconds.
    pub fn target(&self) -> (r: u64)
        ensures
            r == self.target_ms(),
    {
        self.target
    }

    /// The paths of the selected tracks in play order, and their total duration in whole
    /// seconds.
    pub fn get(&self) -> (r: (Vec<String>, u64))
        ensures
            r.0@.len() == self.used_tracks().len(),
            forall|k: int| 0 <= k < r.0@.len() ==> #[trigger] r.0@[k] == self.used_tracks()[k].path,
            r.1 == self.used_total() / 1000,
    {
        let mut paths: Vec<String> = Vec::new();
        let mut k: usize = 0;
        while k < self.used.len()
            invariant
                k <= self.used@.len(),
                paths@.len() == k,
                forall|m: int| 0 <= m < k ==> #[trigger] paths@[m] == self.used@[m].path,
            decreases self.used@.len() - k,
        {
            paths.push(self.used[k].path.clone());
            k = k + 1;
        }
        (paths, self.used_duration / 1000)
    }
}

/// Under the greedy heuristic the total never moves away from the target: a playlist that
/// ranks no worse than another under every ranking `h_greedy` respects, for the same target,
/// lies at least as close to that target.
pub proof fn lemma_greedy_never_worse(before: Playlist, after: Playlist)
    requires
        ranked_no_worse(h_greedy, before, after),
        before.wf(),
        after.wf(),
        after.target_ms() == before.target_ms(),
    ensures
        distance(after.used_total() as int, after.target_ms() as int) <= distance(
            before.used_total() as int,
            before.target_ms() as int,
        ),
{
    let target = before.target_ms() as u64;
    lemma_greedy_ranks_by_distance(target);
    let rank = |t: u64| distance(t as int, target as int);
    assert(ranks_by(h_greedy, target, rank));
    assert(rank(after.used_total() as u64) <= rank(before.used_total() as u64));
}

/// Under the greedy heuristic a swap changes the selection only for a total strictly closer
/// to the target: a track that lies merely as close never displaces the current one.
pub proof fn lemma_greedy_swap_strict(before: Playlist, after: Playlist, index: int, sample: Seq<usize>)
    requires
        before.wf(),
        swapped_with(h_greedy, before, after, index, sample),
    ensures
        same_selection(before, after) || distance(after.used_total() as int, after.target_ms() as int)
            < distance(before.used_total() as int, before.target_ms() as int),
{
    let target = before.target_ms() as u64;
    lemma_greedy_ranks_by_distance(target);
    let rank = |t: u64| distance(t as int, target as int);
    assert(accepts_exactly_better(h_greedy, target, rank));
}

} // verus!
