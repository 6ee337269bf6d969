use rand::distributions::{WeightedError, WeightedIndex};
use vstd::prelude::*;

verus! {

/// The per-thread random number generator of `rand`; opaque to the proofs.
#[verifier::external_type_specification]
#[verifier::external_body]
pub struct ExThreadRng(rand::rngs::ThreadRng);

/// `rand::thread_rng`: a handle on the random number generator of the current
/// thread. Nothing is stated of the handle.
#[verifier::external_body]
pub(crate) fn thread_rng() -> (rng: rand::rngs::ThreadRng) {
    rand::thread_rng()
}

/// `SliceRandom::choose` of `rand`: `None` exactly for an empty slice, and
/// otherwise one element of the slice, picked at random.
#[verifier::external_body]
pub(crate) fn pick_one<'a, T>(items: &'a [T], rng: &mut rand::rngs::ThreadRng) -> (r: Option<&'a T>)
    ensures
        items@.len() == 0 <==> r is None,
        r matches Some(x) ==> items@.contains(*x),
{
    rand::seq::SliceRandom::choose(items, rng)
}

/// `Rng::gen_range` of `rand` on the inclusive range `low..=high`: a number in
/// that range, picked at random. The range must not be empty (`gen_range`
/// panics on an empty range).
#[verifier::external_body]
pub(crate) fn random_between(rng: &mut rand::rngs::ThreadRng, low: i64, high: i64) -> (r: i64)
    requires
        low <= high,
    ensures
        low <= r <= high,
{
    rand::Rng::gen_range(rng, low..=high)
}

/// `Rng::gen::<bool>` of `rand`: a random truth value. Nothing is stated of it.
#[verifier::external_body]
pub(crate) fn random_bool(rng: &mut rand::rngs::ThreadRng) -> (b: bool) {
    rand::Rng::gen::<bool>(rng)
}

/// `Rng::gen::<u8>` of `rand`: a random byte. Nothing is stated of it beyond
/// its type.
#[verifier::external_body]
pub(crate) fn random_byte(rng: &mut rand::rngs::ThreadRng) -> (b: u8) {
    rand::Rng::gen::<u8>(rng)
}

/// A weighted index distribution of `rand` over `u32` weights, held opaque:
/// Verus does not accept a declaration of `WeightedIndex` itself.
#[verifier::external_body]
pub struct ChoiceWeights {
    index: WeightedIndex<u32>,
}

/// The ways `WeightedIndex::new` of `rand` can refuse its weights.
#[verifier::external_type_specification]
pub struct ExWeightedError(rand::distributions::WeightedError);

/// The weights a weighted index was made from, one per choice: the indices
/// it draws lie below their number.
pub uninterp spec fn weighted_choice_weights(weights: ChoiceWeights) -> Seq<u32>;

/// The sum of a sequence of weights.
pub open spec fn weight_total(weights: Seq<u32>) -> int
    decreases weights.len(),
{
    if weights.len() == 0 {
        0
    } else {
        weight_total(weights.drop_last()) + weights.last()
    }
}

/// What `WeightedIndex::new` of `rand` hands back for `u32` weights, the
/// index held in a `ChoiceWeights`.
pub type WeightedIndexResult = Result<ChoiceWeights, WeightedError>;

/// `WeightedIndex::new` of `rand` on `u32` weights: `NoItem` for no weights,
/// `AllWeightsZero` when they add up to zero, and otherwise an index made from
/// these weights. The running total is a `u32` that must
/// not overflow, so the weights may add up to `u32::MAX` at most.
#[verifier::external_body]
pub(crate) fn weighted_index(weights: &Vec<u32>) -> (r: WeightedIndexResult)
    requires
        weight_total(weights@) <= u32::MAX,
    ensures
        weights@.len() == 0 ==> r matches Err(WeightedError::NoItem),
        weights@.len() > 0 && weight_total(weights@) == 0 ==> r matches Err(WeightedError::AllWeightsZero),
        weight_total(weights@) > 0 ==> r is Ok,
        r matches Ok(index) ==> weighted_choice_weights(index) == weights@,
{
    match WeightedIndex::new(weights) {
        Ok(index) => Ok(ChoiceWeights { index }),
        Err(e) => Err(e),
    }
}

/// `Distribution::sample` of `rand` for a weighted index: one of its choices,
/// picked at random with the probability its weight gives it.
#[verifier::external_body]
pub(crate) fn weighted_sample(weights: &ChoiceWeights, rng: &mut rand::rngs::ThreadRng) -> (r: usize)
    ensures
        r < weighted_choice_weights(*weights).len(),
{
    rand::distributions::Distribution::sample(&weights.index, rng)
}

} // verus!
