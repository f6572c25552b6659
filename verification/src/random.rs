//! Draws from a random number generator.
use rand::distr::weighted::WeightedIndex;
use rand::distr::{Distribution, Uniform};
use rand::rngs::StdRng;
use rand::seq::SliceRandom;
use vstd::prelude::*;

verus! {

/// `rand::rngs::StdRng`.
#[verifier::external_type_specification]
#[verifier::external_body]
pub struct ExStdRng(StdRng);

/// `Uniform::new` over the half-open range from zero, and `Distribution::sample`: some position
/// of the range. Which one is a matter of chance. An empty range is refused by `Uniform::new` and
/// is left out.
#[verifier::external_body]
fn uniform_sample(rng: &mut StdRng, length: usize) -> (result: usize)
    requires
        length > 0,
    ensures
        result < length,
{
    Uniform::new(0, length).expect("the range is not empty").sample(rng)
}

/// The sum of weights.
pub open spec fn total_weight(weights: Seq<usize>) -> int
    decreases weights.len(),
{
    if weights.len() == 0 {
        0
    } else {
        total_weight(weights.drop_last()) + weights.last()
    }
}

/// `WeightedIndex::new` and `Distribution::sample`: some place whose weight is not zero. Which one
/// is a matter of chance. Weights that are all zero, or whose sum overflows, are refused by
/// `WeightedIndex::new` and are left out.
#[verifier::external_body]
fn weighted_sample(rng: &mut StdRng, weights: &Vec<usize>) -> (result: usize)
    requires
        0 < total_weight(weights@) <= usize::MAX,
    ensures
        result < weights@.len(),
        weights@[result as int] > 0,
{
    WeightedIndex::new(weights.iter().copied()).expect("the weights are valid").sample(rng)
}

/// `SliceRandom::shuffle`: some permutation of the items. Which one is a matter of chance.
#[verifier::external_body]
fn slice_shuffle(rng: &mut StdRng, items: &mut Vec<usize>)
    ensures
        final(items)@.to_multiset() == old(items)@.to_multiset(),
{
    items.shuffle(rng);
}

/// Draws positions of a population, with replacement.
pub fn draw_positions(rng: &mut StdRng, length: usize, count: usize) -> (result: Vec<usize>)
    requires
        length > 0,
    ensures
        result@.len() == count,
        forall|i: int| 0 <= i < result@.len() ==> #[trigger] result@[i] < length,
{
    let mut drawn: Vec<usize> = Vec::new();
    let mut i: usize = 0;
    while i < count
        invariant
            i <= count,
            length > 0,
            drawn@.len() == i,
            forall|j: int| 0 <= j < drawn@.len() ==> #[trigger] drawn@[j] < length,
        decreases count - i,
    {
        drawn.push(uniform_sample(rng, length));
        i += 1;
    }
    drawn
}

/// Draws places by their weight, with replacement.
pub fn draw_weighted(rng: &mut StdRng, weights: &Vec<usize>, count: usize) -> (result: Vec<usize>)
    requires
        0 < total_weight(weights@) <= usize::MAX,
    ensures
        result@.len() == count,
        forall|i: int|
            0 <= i < result@.len() ==> #[trigger] result@[i] < weights@.len() && weights@[result@[i] as int] > 0,
{
    let mut drawn: Vec<usize> = Vec::new();
    let mut i: usize = 0;
    while i < count
        invariant
            i <= count,
            0 < total_weight(weights@) <= usize::MAX,
            drawn@.len() == i,
            forall|j: int|
                0 <= j < drawn@.len() ==> #[trigger] drawn@[j] < weights@.len() && weights@[drawn@[j] as int] > 0,
        decreases count - i,
    {
        drawn.push(weighted_sample(rng, weights));
        i += 1;
    }
    drawn
}

/// Puts items into a random order.
pub fn shuffle_items(rng: &mut StdRng, items: &mut Vec<usize>)
    ensures
        final(items)@.to_multiset() == old(items)@.to_multiset(),
{
    slice_shuffle(rng, items);
}

} // verus!
