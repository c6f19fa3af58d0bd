//! The size of the thread pool that tasks are spawned on.

use vstd::prelude::*;

verus! {

/// The least number of threads.
pub const MIN_POOL_SIZE: usize = 10;

/// Calls `num_cpus::get`, which counts the logical processors of the machine. The count depends on
/// the machine, and nothing is said of it.
#[verifier::external_body]
fn cpus() -> (res: usize) {
    num_cpus::get()
}

/// The number of threads for a machine with `cpus` processors.
pub open spec fn spec_pool_size(cpus: usize) -> usize {
    if cpus > MIN_POOL_SIZE {
        cpus
    } else {
        MIN_POOL_SIZE
    }
}

/// Returns the number of threads for a machine with `cpus` processors.
pub fn pool_size(cpus: usize) -> (size: usize)
    ensures
        size == spec_pool_size(cpus),
        size == if cpus < MIN_POOL_SIZE {
            MIN_POOL_SIZE
        } else {
            cpus
        },
{
    if cpus < MIN_POOL_SIZE {
        MIN_POOL_SIZE
    } else {
        cpus
    }
}

/// Returns the number of threads for this machine.
pub fn default_pool_size() -> (size: usize)
    ensures
        size >= MIN_POOL_SIZE,
{
    pool_size(cpus())
}

} // verus!
