//! Small arithmetic functions with exact contracts.

use vstd::prelude::*;

verus! {

/// Returns the constant five.
pub fn f1() -> (r: i32)
    ensures
        r == 5,
{
    5
}

/// Returns its argument plus one.
pub fn f4(x: i32) -> (r: i32)
    requires
        x < i32::MAX,
    ensures
        r == x + 1,
{
    x + 1
}

} // verus!
