//! Work that is spread over all cores.

use rayon::iter::{IntoParallelIterator, ParallelIterator};
use vstd::prelude::*;

verus! {

/// Calls `rayon::iter::ParallelIterator::map` on the range `0..n` and collects
/// the results: the vector holds, at each index, what one call of `f` on that
/// index returned. The order of the range is kept, whichever thread made a call.
#[verifier::external_body]
pub(crate) fn par_map<U: Send, F: Fn(usize) -> U + Sync + Send>(n: usize, f: F) -> (r: Vec<U>)
    requires
        forall|i: usize| i < n ==> #[trigger] call_requires(f, (i,)),
    ensures
        r@.len() == n,
        forall|i: usize| i < n ==> call_ensures(f, (i,), #[trigger] r@[i as int]),
{
    (0..n).into_par_iter().map(f).collect()
}

} // verus!
