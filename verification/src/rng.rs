//! Trusted access to the process-local random number generator.

use vstd::prelude::*;

verus! {

/// Relies on `rand::random_range`: a uniform draw from `0..n` is below
/// `n`. Nothing else is claimed of the draw.
#[verifier::external_body]
pub(crate) fn rand_below(n: usize) -> (r: usize)
    requires
        n >= 1,
    ensures
        r < n,
{
    rand::random_range(0..n)
}

/// Relies on `rand::seq::index::sample`: exactly `amount` distinct
/// indices drawn from `0..n` without replacement. Nothing is claimed
/// about which indices come back or in what order.
#[verifier::external_body]
pub(crate) fn sample_indices(n: usize, amount: usize) -> (r: Vec<usize>)
    requires
        amount <= n,
    ensures
        r@.len() == amount,
        forall|i: int| 0 <= i < r@.len() ==> (#[trigger] r@[i]) < n,
        forall|i: int, j: int| 0 <= i < j < r@.len() ==> r@[i] != r@[j],
{
    let mut rng = rand::rng();
    rand::seq::index::sample(&mut rng, n, amount).into_vec()
}

} // verus!
