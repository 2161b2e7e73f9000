use vstd::prelude::*;

verus! {

/// Minimum number of elements before an operation is worth running on
/// several threads; below it the cost of spawning work outweighs the gain.
/// 32 x 32 = 1024 is a practical lower bound for element-wise work.
pub const PAR_THRESHOLD: usize = 1024;

/// Whether a workload of `num_elements` elements is large enough to
/// benefit from parallel execution.
pub fn should_parallelize(num_elements: usize) -> (r: bool)
    ensures
        r <==> num_elements >= PAR_THRESHOLD,
{
    num_elements >= PAR_THRESHOLD
}

} // verus!
