//! The point type and its distance operations.
//!
//! A coordinate is a fixed-point number: an `i64` counting millionths of a
//! unit, so `1_500_000` stands for `1.5`. Distances are returned in the same
//! millionth scale; the Euclidean distance is the integer square root
//! (rounded down) of the exact squared distance.

use vstd::prelude::*;
use vstd::arithmetic::mul::lemma_mul_upper_bound;

verus! {

/// How many fixed-point steps make one unit: a coordinate of `COORD_SCALE`
/// stands for the real value `1.0`.
pub const COORD_SCALE: i64 = 1_000_000;

/// The coordinate axis selected by [`Point::move_by`].
pub enum Axis {
    X,
    Y,
}

/// A 2D coordinate pair in millionths of a unit. A plain value type: any
/// pair of coordinates is accepted, nothing is validated.
#[derive(Clone, Copy, PartialEq, Eq, Structural, Debug)]
pub struct Point {
    pub x: i64,
    pub y: i64,
}

/// The square of an integer.
pub open spec fn sq(x: int) -> int {
    x * x
}

/// The absolute value of an integer.
pub open spec fn abs_val(x: int) -> int {
    if x < 0 {
        -x
    } else {
        x
    }
}

/// The exact squared Euclidean distance between the coordinates
/// `(x1, y1)` and `(x2, y2)`.
pub open spec fn dist2_xy(x1: int, y1: int, x2: int, y2: int) -> int {
    sq(x1 - x2) + sq(y1 - y2)
}

/// The exact squared Euclidean distance between two points.
pub open spec fn dist2(p: Point, q: Point) -> int {
    dist2_xy(p.x as int, p.y as int, q.x as int, q.y as int)
}

/// The exact Manhattan distance between two points.
pub open spec fn manhattan(p: Point, q: Point) -> int {
    abs_val(p.x - q.x) + abs_val(p.y - q.y)
}

/// Integer square root: the largest `r` with `r * r <= n`.
fn isqrt_u128(n: u128) -> (r: u128)
    ensures
        r * r <= n < (r + 1) * (r + 1),
{
    if n == 0 {
        return 0;
    }
    let mut lo: u128 = 0;
    let mut hi: u128 = 18446744073709551616;
    proof {
        assert((18446744073709551616 as int) * (18446744073709551616 as int) > n as int)
            by (nonlinear_arith)
            requires
                n <= u128::MAX,
        ;
    }
    while lo + 1 < hi
        invariant
            lo < hi <= 18446744073709551616,
            lo * lo <= n,
            n < hi * hi,
        decreases hi - lo,
    {
        let mid: u128 = lo + (hi - lo) / 2;
        proof {
            lemma_mul_upper_bound(
                mid as int,
                18446744073709551615,
                mid as int,
                18446744073709551615,
            );
        }
        if mid * mid <= n {
            lo = mid;
        } else {
            hi = mid;
        }
    }
    lo
}

/// The absolute value of the difference of two coordinates, exact even
/// where the `i64` difference itself would overflow.
fn abs_diff(a: i64, b: i64) -> (r: u128)
    ensures
        r == abs_val(a - b),
{
    let d: i128 = a as i128 - b as i128;
    if d < 0 {
        (-d) as u128
    } else {
        d as u128
    }
}

impl Point {
    /// Total constructor: every coordinate pair is accepted.
    pub fn new(x: i64, y: i64) -> (p: Point)
        ensures
            p.x == x,
            p.y == y,
    {
        Point { x, y }
    }

    /// Adds `delta` to the coordinate selected by `axis`; the other
    /// coordinate is untouched.
    pub fn move_by(&mut self, axis: &Axis, delta: i64)
        requires
            *axis is X ==> i64::MIN <= old(self).x + delta <= i64::MAX,
            *axis is Y ==> i64::MIN <= old(self).y + delta <= i64::MAX,
        ensures
            *axis is X ==> final(self).x == old(self).x + delta && final(self).y == old(self).y,
            *axis is Y ==> final(self).y == old(self).y + delta && final(self).x == old(self).x,
    {
        match axis {
            Axis::X => {
                self.x = self.x + delta;
            },
            Axis::Y => {
                self.y = self.y + delta;
            },
        }
    }

    /// Euclidean distance in millionths of a unit, rounded down to the
    /// nearest representable value: the result is the integer square root
    /// of the exact squared distance.
    pub fn distance_euclidean(&self, p2: &Point) -> (r: u128)
        requires
            dist2(*self, *p2) <= u128::MAX,
        ensures
            r * r <= dist2(*self, *p2) < (r + 1) * (r + 1),
    {
        let adx: u128 = abs_diff(self.x, p2.x);
        let ady: u128 = abs_diff(self.y, p2.y);
        proof {
            assert(adx * adx == sq(self.x - p2.x)) by (nonlinear_arith)
                requires
                    adx == abs_val(self.x - p2.x),
            ;
            assert(ady * ady == sq(self.y - p2.y)) by (nonlinear_arith)
                requires
                    ady == abs_val(self.y - p2.y),
            ;
        }
        isqrt_u128(adx * adx + ady * ady)
    }

    /// Exact Manhattan distance in millionths of a unit.
    pub fn distance_manhattan(&self, p2: &Point) -> (r: u128)
        ensures
            r == manhattan(*self, *p2),
    {
        abs_diff(self.x, p2.x) + abs_diff(self.y, p2.y)
    }
}

/// Adds `dx` to the x coordinate of `p`.
pub fn move_right(p: &mut Point, dx: i64)
    requires
        i64::MIN <= old(p).x + dx <= i64::MAX,
    ensures
        final(p).x == old(p).x + dx,
        final(p).y == old(p).y,
{
    p.x = p.x + dx;
}

/// Adds `dy` to the y coordinate of `p`.
pub fn move_up(p: &mut Point, dy: i64)
    requires
        i64::MIN <= old(p).y + dy <= i64::MAX,
    ensures
        final(p).y == old(p).y + dy,
        final(p).x == old(p).x,
{
    p.y = p.y + dy;
}

} // verus!
