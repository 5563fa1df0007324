//! Small integer helpers over three-channel pixels.

use vstd::prelude::*;

verus! {

/// Smaller of two values.
pub open spec fn min2(a: int, b: int) -> int {
    if a <= b { a } else { b }
}

/// Larger of two values.
pub open spec fn max2(a: int, b: int) -> int {
    if a >= b { a } else { b }
}

/// The middle value of three: the one that is neither strictly below nor
/// strictly above both others.
pub open spec fn median_of(a: int, b: int, c: int) -> int {
    max2(min2(a, b), min2(max2(a, b), c))
}

/// Smallest of three values.
pub open spec fn min3(a: int, b: int, c: int) -> int {
    min2(min2(a, b), c)
}

/// Largest of three values.
pub open spec fn max3(a: int, b: int, c: int) -> int {
    max2(max2(a, b), c)
}

/// Median of the three channels.
pub fn median(c: [u8; 3]) -> (r: u8)
    ensures
        r == median_of(c[0] as int, c[1] as int, c[2] as int),
        min3(c[0] as int, c[1] as int, c[2] as int) <= r <= max3(c[0] as int, c[1] as int, c[2] as int),
        r == c[0] || r == c[1] || r == c[2],
{
    let lo = if c[0] <= c[1] { c[0] } else { c[1] };
    let hi = if c[0] >= c[1] { c[0] } else { c[1] };
    let mid = if hi <= c[2] { hi } else { c[2] };
    if lo >= mid { lo } else { mid }
}

/// `x` limited to the range `[x_min, x_max]`; where `x_min > x_max` the
/// upper bound wins.
pub fn clamp(x: u8, x_min: u8, x_max: u8) -> (r: u8)
    ensures
        r == min2(max2(x as int, x_min as int), x_max as int),
        x_min <= x_max ==> x_min <= r <= x_max,
        x_min <= x <= x_max ==> r == x,
{
    let lower = if x >= x_min { x } else { x_min };
    if lower <= x_max { lower } else { x_max }
}

/// Smallest of the three channels.
pub fn min(c: [u8; 3]) -> (r: u8)
    ensures
        r == min3(c[0] as int, c[1] as int, c[2] as int),
{
    let m = if c[0] <= c[1] { c[0] } else { c[1] };
    if m <= c[2] { m } else { c[2] }
}

/// Largest of the three channels.
pub fn max(c: [u8; 3]) -> (r: u8)
    ensures
        r == max3(c[0] as int, c[1] as int, c[2] as int),
{
    let m = if c[0] >= c[1] { c[0] } else { c[1] };
    if m >= c[2] { m } else { c[2] }
}

} // verus!
