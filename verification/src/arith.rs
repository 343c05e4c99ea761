use vstd::prelude::*;

verus! {

/// Twice the argument.
pub fn double(n: i32) -> (r: i32)
    requires
        -0x4000_0000 <= n <= 0x3FFF_FFFF,
    ensures
        r == 2 * n,
{
    n * 2
}

/// Twice the argument when it is positive, 0 otherwise.
pub fn double_or_nothing(n: i32) -> (r: i32)
    requires
        n <= 0x3FFF_FFFF,
    ensures
        n > 0 ==> r == 2 * n,
        n <= 0 ==> r == 0,
{
    if n > 0 {
        return n * 2;
    }
    0
}

} // verus!
