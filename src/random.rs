use vstd::prelude::*;
use rand::Rng;
use rand::distributions::Distribution;
use rand::distributions::WeightedIndex;
use rand::rngs::StdRng;

verus! {

/// The seedable generator that every random draw of the library comes from.
#[verifier::external_type_specification]
#[verifier::external_body]
pub struct ExStdRng(StdRng);

/// The sum of a sequence of weights.
pub open spec fn weight_sum(w: Seq<u128>) -> int
    decreases w.len(),
{
    if w.len() == 0 {
        0
    } else {
        weight_sum(w.drop_last()) + w.last()
    }
}

/// Relies on rand's `Rng::gen_ratio(1, 2)`: a fair coin, drawn from `rng`
/// (the same Bernoulli draw as `gen_bool(0.5)`).
#[verifier::external_body]
pub(crate) fn coin_flip(rng: &mut StdRng) -> (r: bool) {
    rng.gen_ratio(1, 2)
}

/// Relies on rand's `WeightedIndex::new` and its `sample`: an index into
/// `weights`, never one of weight zero. `new` fails on no weights or a zero
/// total, and the running total must not overflow: `requires` leaves those
/// out.
#[verifier::external_body]
pub(crate) fn weighted_index(rng: &mut StdRng, weights: &Vec<u128>) -> (r: usize)
    requires
        weights@.len() > 0,
        0 < weight_sum(weights@) <= u128::MAX,
    ensures
        r < weights@.len(),
        weights@[r as int] > 0,
{
    WeightedIndex::new(weights.iter()).unwrap().sample(rng)
}

} // verus!
