//! Random draws, made by the `rand` crate.
use vstd::prelude::*;
use rand::Rng;
use rand::distributions::{IndependentSample, Weighted, WeightedChoice};

verus! {

/// Sum of a sequence of weights.
pub open spec fn weight_sum(s: Seq<u32>) -> int
    decreases s.len(),
{
    if s.len() == 0 {
        0
    } else {
        weight_sum(s.drop_last()) + s.last()
    }
}

/// Calls `rand::Rng::gen_range` on the thread's generator, which panics
/// unless `low < high`. Claims, as its documentation states, that the
/// number drawn lies in `low..high`; which one is left to chance.
#[verifier::external_body]
pub(crate) fn gen_range_usize(low: usize, high: usize) -> (r: usize)
    requires
        low < high,
    ensures
        low <= r < high,
{
    rand::thread_rng().gen_range(low, high)
}

/// Calls `rand::distributions::WeightedChoice::new` on the weights, each
/// item being its position, and draws one with `ind_sample` on the thread's
/// generator. `new` panics when there are no weights, when they add up to 0,
/// or when their sum does not fit a `u32`. Claims, as its source shows, that
/// the position drawn has a positive weight; which one is left to chance.
#[verifier::external_body]
pub(crate) fn choose_weighted_index(weights: &Vec<u32>) -> (i: usize)
    requires
        weights@.len() > 0,
        0 < weight_sum(weights@) <= u32::MAX,
    ensures
        i < weights@.len(),
        weights@[i as int] > 0,
{
    let mut choices: Vec<Weighted<usize>> = weights.iter().enumerate().map(
        |(i, &w)| Weighted { weight: w, item: i },
    ).collect();
    let wc = WeightedChoice::new(&mut choices);
    wc.ind_sample(&mut rand::thread_rng())
}

/// Calls `rand::Rng::choose` on the thread's generator. Claims, as its
/// documentation states, that it gives `None` exactly for an empty slice and
/// otherwise one of its elements; which one is left to chance.
#[verifier::external_body]
pub(crate) fn choose_string(items: &[String]) -> (r: Option<&String>)
    ensures
        items@.len() == 0 <==> r is None,
        r matches Some(s) ==> items@.contains(*s),
{
    rand::thread_rng().choose(items)
}

} // verus!
