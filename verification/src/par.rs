//! Trusted bridge to `rayon`'s data-parallel map.

use vstd::prelude::*;

verus! {

use rayon::iter::IntoParallelIterator;
use rayon::iter::ParallelIterator;

/// Relies on rayon: mapping the indexed parallel iterator of `0..n` and
/// collecting into a `Vec` yields exactly one element per index, in index
/// order, so slot `i` holds a result of `f(i)`. The workers only choose the
/// schedule, never the placement.
#[verifier::external_body]
pub(crate) fn par_map<C: Send, F: Fn(usize) -> C + Send + Sync>(n: usize, f: F) -> (r: Vec<C>)
    requires
        forall|i: usize| i < n ==> call_requires(f, (i,)),
    ensures
        r@.len() == n,
        forall|i: int| 0 <= i < n ==> call_ensures(f, (i as usize,), #[trigger] r@[i]),
{
    (0..n).into_par_iter().map(f).collect()
}

} // verus!
