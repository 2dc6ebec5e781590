//! The rule of a selector with the options 0, 1 and 2: how a click on
//! "next" steps through them.

use vstd::prelude::*;

verus! {

/// The option that follows `n`: after the last option, 2, comes the
/// first one again; any other number is followed by the next number.
pub open spec fn next_option_of(n: int) -> int {
    if n == 2 {
        0
    } else {
        n + 1
    }
}

/// The option that follows `n`. The largest `i32` has no next number.
pub fn next_option(n: i32) -> (r: i32)
    requires
        n < i32::MAX,
    ensures
        r == next_option_of(n as int),
{
    if n == 2 {
        0
    } else {
        n + 1
    }
}

} // verus!
