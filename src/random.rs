use vstd::prelude::*;

verus! {

/// Relies on rand's `Rng::gen_range` over the thread-local generator: a
/// value drawn from `0..n`. It panics on an empty range, hence `n > 0`.
#[verifier::external_body]
pub(crate) fn random_below(n: usize) -> (r: usize)
    requires
        n > 0,
    ensures
        r < n,
{
    rand::Rng::gen_range(&mut rand::thread_rng(), 0..n)
}

/// Relies on rand's `Rng::gen_ratio` over the thread-local generator: `true`
/// with probability `numerator / denominator`, always `false` for a zero
/// numerator and always `true` when the two are equal. It panics on a zero
/// denominator or a numerator above the denominator.
#[verifier::external_body]
pub(crate) fn random_ratio(numerator: u32, denominator: u32) -> (r: bool)
    requires
        0 < denominator,
        numerator <= denominator,
    ensures
        numerator == 0 ==> !r,
        numerator == denominator ==> r,
{
    rand::Rng::gen_ratio(&mut rand::thread_rng(), numerator, denominator)
}

/// Relies on rand's `seq::index::sample` over the thread-local generator:
/// exactly `amount` distinct indices below `length`, in random order. It
/// panics when `amount > length`.
#[verifier::external_body]
pub(crate) fn sample_distinct(length: usize, amount: usize) -> (r: Vec<usize>)
    requires
        amount <= length,
    ensures
        r@.len() == amount,
        r@.no_duplicates(),
        forall|i: int| 0 <= i < r@.len() ==> #[trigger] r@[i] < length,
{
    rand::seq::index::sample(&mut rand::thread_rng(), length, amount).into_vec()
}

/// Relies on rand's `SliceRandom::choose` over the thread-local generator:
/// `None` for an empty list, otherwise one of its items.
#[verifier::external_body]
pub(crate) fn choose_one(list: &Vec<String>) -> (r: Option<String>)
    ensures
        r is None <==> list@.len() == 0,
        r is Some ==> exists|i: int| 0 <= i < list@.len() && (#[trigger] list@[i])@ == r->0@,
{
    rand::seq::SliceRandom::choose(list.as_slice(), &mut rand::thread_rng()).cloned()
}

} // verus!
