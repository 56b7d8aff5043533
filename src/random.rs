use rand::seq::IteratorRandom;
use rand::Rng;
use vstd::prelude::*;
use crate::track::Track;

verus! {

#[verifier::external_type_specification]
#[verifier::external_body]
pub struct ExStdRng(rand::rngs::StdRng);

/// Relies on rand::Rng::gen_range over `0..n` on a `StdRng`: a value in the range, which
/// must not be empty (`StdRng` never reseeds, so a draw has no other way to fail).
#[verifier::external_body]
pub(crate) fn random_index(rng: &mut rand::rngs::StdRng, n: usize) -> (r: usize)
    requires
        n > 0,
    ensures
        r < n,
{
    rng.gen_range(0..n)
}

/// Relies on rand::seq::IteratorRandom::choose_multiple over the positions of `pool`:
/// `amount` distinct positions, in no fixed order. `amount` is at most the pool's length,
/// so the buffer it reserves is smaller than the pool itself.
#[verifier::external_body]
pub(crate) fn sample_positions(rng: &mut rand::rngs::StdRng, pool: &Vec<Track>, amount: usize) -> (r: Vec<usize>)
    requires
        amount <= pool@.len(),
    ensures
        r@.len() == amount,
        r@.no_duplicates(),
        forall|k: int| 0 <= k < r@.len() ==> #[trigger] r@[k] < pool@.len(),
{
    (0..pool.len()).choose_multiple(rng, amount)
}

} // verus!
