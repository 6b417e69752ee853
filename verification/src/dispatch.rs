//! The dispatcher's one decision: which worker an accepted connection
//! goes to.  Selection is uniformly random over the pool and is the sole
//! load-balancing mechanism.

use vstd::prelude::*;

verus! {

/// Relies on `rand::thread_rng` and `rand::Rng::gen_range`: a random
/// index below `n`.  `gen_range` panics only on an empty range, which
/// `n > 0` rules out; nothing more can be promised of a random value.
#[verifier::external_body]
fn random_below(n: usize) -> (r: usize)
    requires
        n > 0,
    ensures
        r < n,
{
    rand::Rng::gen_range(&mut rand::thread_rng(), 0..n)
}

/// Picks the worker an accepted connection is handed to: an index into
/// a pool of `num_workers` queues.
pub fn pick_worker(num_workers: usize) -> (r: usize)
    requires
        num_workers > 0,
    ensures
        r < num_workers,
{
    random_below(num_workers)
}

} // verus!
