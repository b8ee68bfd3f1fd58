//! Points and rectangles on the screen, in physical pixels.

use vstd::prelude::*;

verus! {

/// A rectangle; `right` and `bottom` lie just outside.
#[derive(Debug, Clone, Copy, PartialEq, Eq, Structural)]
pub struct Rect {
    pub left: i32,
    pub top: i32,
    pub right: i32,
    pub bottom: i32,
}

/// A point.
#[derive(Debug, Clone, Copy, PartialEq, Eq, Structural)]
pub struct Point {
    pub x: i32,
    pub y: i32,
}

/// A number that a coordinate can be.
pub open spec fn fits(x: int) -> bool {
    i32::MIN <= x <= i32::MAX
}

/// Whether a number can be a coordinate.
pub fn is_fitting(x: i64) -> (r: bool)
    ensures
        r == fits(x as int),
{
    -0x8000_0000 <= x && x <= 0x7fff_ffff
}

impl Rect {
    /// The point lies inside.
    pub open spec fn holds(self, p: Point) -> bool {
        self.left <= p.x < self.right && self.top <= p.y < self.bottom
    }
}

/// The smaller of two numbers.
pub open spec fn min_of(a: int, b: int) -> int {
    if a <= b {
        a
    } else {
        b
    }
}

/// The larger of two numbers.
pub open spec fn max_of(a: int, b: int) -> int {
    if a >= b {
        a
    } else {
        b
    }
}

/// A number held between two bounds, the upper of which wins.
pub open spec fn between(x: int, lo: int, hi: int) -> int {
    min_of(max_of(x, lo), hi)
}

/// Half of a number, rounded towards zero.
pub open spec fn half(n: int) -> int {
    if n >= 0 {
        n / 2
    } else {
        -((-n) / 2)
    }
}

/// Half of a number, rounded towards zero.
pub fn halved(n: i64) -> (r: i64)
    requires
        n > i64::MIN,
    ensures
        r == half(n as int),
{
    if n >= 0 {
        n / 2
    } else {
        -((-n) / 2)
    }
}

/// The smaller of two numbers.
pub fn min_i64(a: i64, b: i64) -> (r: i64)
    ensures
        r == min_of(a as int, b as int),
{
    if a <= b {
        a
    } else {
        b
    }
}

/// The larger of two numbers.
pub fn max_i64(a: i64, b: i64) -> (r: i64)
    ensures
        r == max_of(a as int, b as int),
{
    if a >= b {
        a
    } else {
        b
    }
}

/// A number between two bounds stays; one below the lower becomes it, and one
/// above the upper becomes that.
pub proof fn law_between(x: int, lo: int, hi: int)
    requires
        lo <= hi,
    ensures
        lo <= between(x, lo, hi) <= hi,
        lo <= x <= hi ==> between(x, lo, hi) == x,
        x <= lo ==> between(x, lo, hi) == lo,
        x >= hi ==> between(x, lo, hi) == hi,
{
}

/// The smaller of two numbers is one of them and not above either, the larger is
/// one of them and not below either.
pub proof fn law_smaller_and_larger(a: int, b: int)
    ensures
        min_of(a, b) <= a && min_of(a, b) <= b,
        max_of(a, b) >= a && max_of(a, b) >= b,
        min_of(a, b) + max_of(a, b) == a + b,
        min_of(a, b) == a || min_of(a, b) == b,
{
}

/// Twice the half is the number, or nearer to zero by one; the half of the
/// opposite is the opposite of the half.
pub proof fn law_half(n: int)
    ensures
        n >= 0 ==> 2 * half(n) <= n < 2 * half(n) + 2,
        half(-n) == -half(n),
{
}

/// A coordinate has 32 bits.
pub proof fn law_coordinates(x: int)
    ensures
        fits(x) <==> -2147483648 <= x <= 2147483647,
{
}

} // verus!
