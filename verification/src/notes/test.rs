//! Copying a vector of integers.
use vstd::prelude::*;

verus! {

/// A copy of `nums`.
pub fn test(nums: Vec<i32>) -> (r: Vec<i32>)
    ensures
        r@ == nums@,
{
    let r = nums.clone();
    assert(r@ =~= nums@);
    r
}

} // verus!
