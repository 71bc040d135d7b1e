//! Sizing rules for the search pipeline: how many searcher workers to run
//! and how much slack the bounded suffix channel gets per worker.

use vstd::prelude::*;

verus! {

/// The number of searcher workers: all available parallelism but one unit,
/// which is reserved for the generator; never below one.
pub fn worker_count(available_parallelism: usize) -> (w: usize)
    ensures
        w == if available_parallelism >= 2 {
            (available_parallelism - 1) as int
        } else {
            1int
        },
        w >= 1,
{
    if available_parallelism >= 2 {
        available_parallelism - 1
    } else {
        1
    }
}

/// The capacity of the bounded suffix channel: a fixed number of slots per
/// worker, so a fast generator stalls once the workers fall behind.
pub fn suffix_channel_capacity(workers: usize) -> (c: usize)
    requires
        workers <= usize::MAX / 5000,
    ensures
        c == workers * 5000,
{
    workers * 5000
}

} // verus!
