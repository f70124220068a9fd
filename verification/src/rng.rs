//! Trusted access to the process random number generator. Nothing can
//! be promised about which value comes back, so each contract states
//! only what holds of every outcome.

use rand::Rng;
use vstd::prelude::*;

verus! {

/// Relies on `rand::Rng::gen_range` over the range `0..n` (obtaining
/// the generator from `rand::thread_rng`): the result is always drawn
/// from that range, and the range is nonempty since `n >= 1`
/// (`gen_range` panics on an empty range).
#[verifier::external_body]
pub(crate) fn rand_below(n: usize) -> (r: usize)
    requires
        1 <= n,
    ensures
        r < n,
{
    rand::thread_rng().gen_range(0..n)
}

/// Relies on `rand::seq::index::sample` (with `rand::thread_rng`): it
/// returns exactly `amount` distinct indices drawn from `0..length`,
/// in arbitrary order. It panics when `amount > length`, which the
/// precondition rules out.
#[verifier::external_body]
pub(crate) fn sample_indices(length: usize, amount: usize) -> (r: Vec<usize>)
    requires
        amount <= length,
    ensures
        r@.len() == amount,
        forall|i: int| 0 <= i < r@.len() ==> r@[i] < length,
        forall|i: int, j: int| 0 <= i < j < r@.len() ==> r@[i] != r@[j],
{
    rand::seq::index::sample(&mut rand::thread_rng(), length, amount).into_vec()
}

} // verus!
