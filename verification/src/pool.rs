//! How many workers a render starts.
//!
//! The pool is sized by the processors at hand, with several workers for
//! each, so that a worker that waits on memory leaves its processor to
//! another.

use vstd::prelude::*;

verus! {

/// The workers started for each processor.
pub const WORKERS_PER_CPU: usize = 10;

/// The size of the pool on a machine with `cpus` processors, where there is
/// a processor and the size fits the machine word.
pub open spec fn pool_size_of(cpus: usize) -> Option<usize> {
    if 1 <= cpus && cpus * WORKERS_PER_CPU <= usize::MAX {
        Some((cpus * WORKERS_PER_CPU) as usize)
    } else {
        None
    }
}

/// Calls `num_cpus::get`, which counts the logical processors that this
/// process may run on. Believed of it, as its documentation says: the count
/// is at least 1. Which count comes back depends on the machine.
#[verifier::external_body]
fn available_cpus() -> (cpus: usize)
    ensures
        cpus >= 1,
{
    num_cpus::get()
}

/// The size of the pool on a machine with `cpus` processors, or `None`
/// where there is no processor or the size does not fit the machine word.
pub fn pool_size(cpus: usize) -> (size: Option<usize>)
    ensures
        size == pool_size_of(cpus),
{
    if cpus == 0 {
        None
    } else {
        cpus.checked_mul(WORKERS_PER_CPU)
    }
}

/// The size of the pool on this machine: the pool size for some count of
/// processors that is at least 1.
pub fn worker_pool_size() -> (size: Option<usize>)
    ensures
        exists|cpus: usize| cpus >= 1 && size == #[trigger] pool_size_of(cpus),
        size matches Some(n) ==> n >= WORKERS_PER_CPU,
{
    let cpus = available_cpus();
    let size = pool_size(cpus);
    assert(size == pool_size_of(cpus));
    size
}

} // verus!
