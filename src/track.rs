use vstd::prelude::*;

verus! {

/// One audio item: where it lives and how long it plays, in milliseconds.
pub struct Track {
    pub path: String,
    pub duration_ms: u64,
}

impl Track {
    pub fn new(path: String, duration_ms: u64) -> (r: Track)
        ensures
            r.path == path,
            r.duration_ms == duration_ms,
    {
        Track { path, duration_ms }
    }
}

/// Sum of the durations of a sequence of tracks.
pub open spec fn total_duration(s: Seq<Track>) -> nat
    decreases s.len(),
{
    if s.len() == 0 {
        0
    } else {
        (total_duration(s.drop_last()) + s.last().duration_ms) as nat
    }
}

pub proof fn lemma_total_push(s: Seq<Track>, t: Track)
    ensures
        total_duration(s.push(t)) == total_duration(s) + t.duration_ms,
{
    assert(s.push(t).drop_last() =~= s);
}

pub proof fn lemma_total_remove(s: Seq<Track>, i: int)
    requires
        0 <= i < s.len(),
    ensures
        total_duration(s.remove(i)) + s[i].duration_ms == total_duration(s),
    decreases s.len(),
{
    if i < s.len() - 1 {
        lemma_total_remove(s.drop_last(), i);
        assert(s.remove(i).drop_last() =~= s.drop_last().remove(i));
    } else {
        assert(s.remove(i) =~= s.drop_last());
    }
}

pub proof fn lemma_total_update(s: Seq<Track>, i: int, t: Track)
    requires
        0 <= i < s.len(),
    ensures
        total_duration(s.update(i, t)) + s[i].duration_ms == total_duration(s) + t.duration_ms,
{
    lemma_total_remove(s, i);
    lemma_total_remove(s.update(i, t), i);
    assert(s.update(i, t).remove(i) =~= s.remove(i));
}

pub proof fn lemma_total_append(a: Seq<Track>, b: Seq<Track>)
    ensures
        total_duration(a + b) == total_duration(a) + total_duration(b),
    decreases b.len(),
{
    if b.len() == 0 {
        assert(a + b =~= a);
    } else {
        lemma_total_append(a, b.drop_last());
        assert((a + b).drop_last() =~= a + b.drop_last());
    }
}

/// Whether the durations of `tracks` add up to a total that a `u64` holds.
pub fn total_fits(tracks: &Vec<Track>) -> (r: bool)
    ensures
        r == (total_duration(tracks@) <= u64::MAX),
{
    let mut sum: u64 = 0;
    let mut k: usize = 0;
    while k < tracks.len()
        invariant
            k <= tracks@.len(),
            sum == total_duration(tracks@.take(k as int)),
        decreases tracks@.len() - k,
    {
        proof {
            assert(tracks@.take(k + 1).drop_last() =~= tracks@.take(k as int));
        }
        if sum > u64::MAX - tracks[k].duration_ms {
            proof {
                lemma_total_append(tracks@.take(k + 1), tracks@.skip(k + 1));
                assert(tracks@.take(k + 1) + tracks@.skip(k + 1) =~= tracks@);
            }
            return false;
        }
        sum = sum + tracks[k].duration_ms;
        k = k + 1;
    }
    assert(tracks@.take(k as int) =~= tracks@);
    true
}

} // verus!
