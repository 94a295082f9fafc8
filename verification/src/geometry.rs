//! Vectors, distances and the integer arithmetic under the contact rules.
//!
//! Lengths are whole world units. A distance is the floor of the Euclidean
//! distance; every comparison of distances is made on squares and is exact.

use vstd::prelude::*;

verus! {

/// Largest magnitude of a coordinate, of a velocity component and of a radius
/// for which the arithmetic of this crate is proved free of overflow.
pub const REACH: i64 = 1_048_576;

/// A position, an offset or a velocity in the plane.
#[derive(Clone, Copy, Debug, PartialEq, Eq, Structural)]
pub struct Vector {
    pub x: i64,
    pub y: i64,
}

impl Vector {
    /// Both components lie within `REACH` of zero.
    pub open spec fn in_reach(self) -> bool {
        &&& -REACH <= self.x <= REACH
        &&& -REACH <= self.y <= REACH
    }

    /// The squared Euclidean length.
    pub open spec fn norm_squared(self) -> int {
        self.x * self.x + self.y * self.y
    }

    pub fn new(x: i64, y: i64) -> (v: Vector)
        ensures
            v == (Vector { x, y }),
    {
        Vector { x, y }
    }

    /// Tells whether the vector is within `REACH`.
    pub fn within_reach(&self) -> (r: bool)
        ensures
            r == self.in_reach(),
    {
        -REACH <= self.x && self.x <= REACH && -REACH <= self.y && self.y <= REACH
    }
}

/// The squared Euclidean distance between two points.
pub open spec fn distance_squared_spec(a: Vector, b: Vector) -> int {
    (b.x - a.x) * (b.x - a.x) + (b.y - a.y) * (b.y - a.y)
}

/// `r` is the floor of the square root of `n`.
pub open spec fn is_floor_sqrt(r: int, n: int) -> bool {
    0 <= r && r * r <= n < (r + 1) * (r + 1)
}

/// The floor of the square root of `n`, for `n >= 0`.
pub open spec fn floor_sqrt(n: int) -> int {
    choose|r: int| is_floor_sqrt(r, n)
}

/// The least whole number whose square is at least `n`.
pub open spec fn ceil_sqrt(n: int) -> int {
    if n <= 0 {
        0
    } else {
        floor_sqrt(n - 1) + 1
    }
}

/// The quotient of `n` by a positive `d`, rounded toward zero.
pub open spec fn div_toward_zero(n: int, d: int) -> int {
    if n >= 0 {
        n / d
    } else {
        -((-n) / d)
    }
}

/// The squares of `REACH` and of its small multiples, as numbers.
pub(crate) proof fn lemma_reach_squares()
    ensures
        REACH * REACH == 1_099_511_627_776,
        (2 * REACH) * (2 * REACH) == 4_398_046_511_104,
        (4 * REACH) * (4 * REACH) == 17_592_186_044_416,
        8 * REACH * REACH == 8_796_093_022_208,
{
    assert(REACH * REACH == 1_099_511_627_776) by (nonlinear_arith)
        requires
            REACH == 1_048_576,
    ;
    assert((2 * REACH) * (2 * REACH) == 4_398_046_511_104) by (nonlinear_arith)
        requires
            REACH == 1_048_576,
    ;
    assert((4 * REACH) * (4 * REACH) == 17_592_186_044_416) by (nonlinear_arith)
        requires
            REACH == 1_048_576,
    ;
    assert(8 * REACH * REACH == 8_796_093_022_208) by (nonlinear_arith)
        requires
            REACH == 1_048_576,
    ;
}

/// A number within `bound` of zero has a square of at most `bound * bound`.
pub(crate) proof fn lemma_square_bound(x: int, bound: int)
    requires
        -bound <= x <= bound,
    ensures
        0 <= x * x <= bound * bound,
{
    assert(0 <= x * x <= bound * bound) by (nonlinear_arith)
        requires
            -bound <= x <= bound,
    ;
}

/// The product of two numbers within `a` and `b` of zero is within `a * b`.
pub(crate) proof fn lemma_product_bound(x: int, y: int, a: int, b: int)
    requires
        -a <= x <= a,
        -b <= y <= b,
    ensures
        -(a * b) <= x * y <= a * b,
{
    assert(-(a * b) <= x * y <= a * b) by (nonlinear_arith)
        requires
            -a <= x <= a,
            -b <= y <= b,
    ;
}

/// Squaring is strictly monotone on the non-negative integers.
pub proof fn lemma_square_monotone(x: int, y: int)
    requires
        0 <= x,
    ensures
        x < y <==> x * x < y * y && 0 < y,
        x <= y <==> x * x <= y * y && 0 <= y,
{
    assert(x < y ==> x * x < y * y) by (nonlinear_arith)
        requires
            0 <= x,
    ;
    assert(0 <= y && y <= x ==> y * y <= x * x) by (nonlinear_arith)
        requires
            0 <= x,
    ;
    assert(x <= y ==> x * x <= y * y) by (nonlinear_arith)
        requires
            0 <= x,
    ;
    assert(0 <= y && y < x ==> y * y < x * x) by (nonlinear_arith)
        requires
            0 <= x,
    ;
}

/// At most one integer is the floor of the square root of `n`, and it is
/// `floor_sqrt(n)`.
pub proof fn lemma_floor_sqrt_unique(r: int, n: int)
    requires
        is_floor_sqrt(r, n),
    ensures
        floor_sqrt(n) == r,
{
    let s = floor_sqrt(n);
    assert(is_floor_sqrt(s, n));
    lemma_square_monotone(r, s + 1);
    lemma_square_monotone(s, r + 1);
}

/// For `n >= 0` the floor of the square root exists, so `floor_sqrt(n)` is it.
pub proof fn lemma_floor_sqrt_is(n: int)
    requires
        0 <= n,
    ensures
        is_floor_sqrt(floor_sqrt(n), n),
    decreases n,
{
    if n == 0 {
        assert(is_floor_sqrt(0, 0));
    } else {
        lemma_floor_sqrt_is(n - 1);
        let r = floor_sqrt(n - 1);
        if (r + 1) * (r + 1) <= n {
            assert((r + 2) * (r + 2) > n) by (nonlinear_arith)
                requires
                    n - 1 < (r + 1) * (r + 1),
                    0 <= r,
            ;
            assert(is_floor_sqrt(r + 1, n));
        } else {
            assert(is_floor_sqrt(r, n));
        }
    }
}

/// The squared distance between two points within `REACH`.
pub fn distance_squared(a: &Vector, b: &Vector) -> (r: i64)
    requires
        a.in_reach(),
        b.in_reach(),
    ensures
        r == distance_squared_spec(*a, *b),
        0 <= r <= 8 * REACH * REACH,
{
    let dx: i64 = b.x - a.x;
    let dy: i64 = b.y - a.y;
    proof {
        lemma_reach_squares();
        lemma_square_bound(dx as int, 2 * REACH);
        lemma_square_bound(dy as int, 2 * REACH);
    }
    dx * dx + dy * dy
}

/// The floor of the square root of `n`.
pub fn integer_sqrt(n: i64) -> (r: i64)
    requires
        0 <= n <= 8 * REACH * REACH,
    ensures
        r == floor_sqrt(n as int),
        is_floor_sqrt(r as int, n as int),
        0 <= r < 4 * REACH,
{
    let mut lo: i64 = 0;
    let mut hi: i64 = 4 * REACH;
    proof {
        lemma_reach_squares();
    }
    while hi - lo > 1
        invariant
            0 <= lo < hi <= 4 * REACH,
            lo * lo <= n < hi * hi,
        decreases hi - lo,
    {
        let mid: i64 = lo + (hi - lo) / 2;
        proof {
            lemma_reach_squares();
            lemma_square_bound(mid as int, 4 * REACH);
        }
        if mid * mid <= n {
            lo = mid;
        } else {
            hi = mid;
        }
    }
    proof {
        assert(hi == lo + 1);
        lemma_floor_sqrt_unique(lo as int, n as int);
    }
    lo
}

/// The distance between two points, rounded down to a whole unit.
pub fn distance_between(a: &Vector, b: &Vector) -> (r: i64)
    requires
        a.in_reach(),
        b.in_reach(),
    ensures
        r == floor_sqrt(distance_squared_spec(*a, *b)),
        is_floor_sqrt(r as int, distance_squared_spec(*a, *b)),
        0 <= r < 4 * REACH,
{
    let n = distance_squared(a, b);
    let r = integer_sqrt(n);
    proof {
        lemma_square_monotone(r as int, 4 * REACH);
    }
    r
}

} // verus!
