//! Integer division with explicit rounding, as provided by the `num` crate.

use vstd::prelude::*;

verus! {

/// The quotient of `x` by `y`, rounded up.
pub open spec fn div_ceil_spec(x: u64, y: u64) -> int
    recommends
        y != 0,
{
    x as int / y as int + if x as int % y as int != 0 {
        1int
    } else {
        0int
    }
}

/// `num::integer::div_ceil` on two `u64`s. For unsigned integers `num`
/// computes `x / y`, plus one when the division leaves a remainder, and
/// panics on a zero divisor, which the precondition excludes.
#[verifier::external_body]
pub(crate) fn div_ceil(x: u64, y: u64) -> (q: u64)
    requires
        y != 0,
    ensures
        q as int == div_ceil_spec(x, y),
{
    num::integer::div_ceil(x, y)
}

/// `num::integer::div_floor` on two `u64`s. For unsigned integers `num`
/// computes the plain quotient `x / y`, and panics on a zero divisor, which
/// the precondition excludes.
#[verifier::external_body]
pub(crate) fn div_floor(x: u64, y: u64) -> (q: u64)
    requires
        y != 0,
    ensures
        q as int == x as int / y as int,
{
    num::integer::div_floor(x, y)
}

} // verus!
