//! Two-dimensional fixed-point vectors.
//!
//! Coordinates are `i64` milli-units. Lengths and distances are computed
//! with an exact integer square root; comparisons against real-valued
//! thresholds are made on squared distances, which is exact.

use vstd::prelude::*;
use crate::COORD_LIMIT;
use crate::FP_ONE;

verus! {

/// A 2-D vector in fixed-point milli-units.
#[derive(Clone, Copy, Debug, PartialEq, Eq, Structural)]
pub struct Vec2 {
    pub x: i64,
    pub y: i64,
}

impl Vec2 {
    /// Both coordinates lie within the simulation's coordinate range.
    pub open spec fn in_bounds(self) -> bool {
        -COORD_LIMIT <= self.x <= COORD_LIMIT && -COORD_LIMIT <= self.y <= COORD_LIMIT
    }

    /// Twice the coordinate range: a difference of two bounded points.
    pub open spec fn in_wide_bounds(self) -> bool {
        -2 * COORD_LIMIT <= self.x <= 2 * COORD_LIMIT && -2 * COORD_LIMIT <= self.y <= 2
            * COORD_LIMIT
    }

    /// Squared Euclidean distance between two points, as unbounded math.
    pub open spec fn spec_dist_sq(self, other: Vec2) -> int {
        (self.x - other.x) * (self.x - other.x) + (self.y - other.y) * (self.y - other.y)
    }

    /// Squared length of the vector, as unbounded math.
    pub open spec fn spec_len_sq(self) -> int {
        self.x * self.x + self.y * self.y
    }

    pub fn new(x: i64, y: i64) -> (r: Vec2)
        ensures
            r.x == x,
            r.y == y,
    {
        Vec2 { x, y }
    }

    /// Squared distance to `other`; exact for bounded coordinates.
    pub fn dist_sq(self, other: Vec2) -> (r: i64)
        requires
            self.in_bounds(),
            other.in_bounds(),
        ensures
            r == self.spec_dist_sq(other),
            r >= 0,
    {
        let dx: i64 = self.x - other.x;
        let dy: i64 = self.y - other.y;
        proof {
            lemma_square_bound(dx as int, 2 * COORD_LIMIT as int);
            lemma_square_bound(dy as int, 2 * COORD_LIMIT as int);
        }
        dx * dx + dy * dy
    }

    /// Euclidean distance to `other`, rounded down to whole milli-units.
    pub fn distance(self, b: Vec2) -> (r: i64)
        requires
            self.in_bounds(),
            b.in_bounds(),
        ensures
            r >= 0,
            r * r <= self.spec_dist_sq(b) < (r + 1) * (r + 1),
    {
        let d: i64 = self.dist_sq(b);
        let s: u64 = isqrt(d as u64);
        proof {
            lemma_isqrt_le(s as int, d as int);
        }
        s as i64
    }

    /// Length of the vector, rounded down to whole milli-units.
    pub fn length(&self) -> (r: i64)
        requires
            self.in_wide_bounds(),
        ensures
            r >= 0,
            r * r <= self.spec_len_sq() < (r + 1) * (r + 1),
    {
        proof {
            lemma_square_bound(self.x as int, 2 * COORD_LIMIT as int);
            lemma_square_bound(self.y as int, 2 * COORD_LIMIT as int);
            assert((2 * COORD_LIMIT as int) * (2 * COORD_LIMIT as int)
                == 4_000_000_000_000_000_000) by (nonlinear_arith);
        }
        let d: i64 = self.x * self.x + self.y * self.y;
        let s: u64 = isqrt(d as u64);
        proof {
            lemma_isqrt_le(s as int, d as int);
        }
        s as i64
    }

    /// Component-wise difference.
    pub fn sub(self, other: Vec2) -> (r: Vec2)
        requires
            self.in_bounds(),
            other.in_bounds(),
        ensures
            r.x == self.x - other.x,
            r.y == self.y - other.y,
    {
        Vec2 { x: self.x - other.x, y: self.y - other.y }
    }

    /// Component-wise sum.
    pub fn add(self, other: Vec2) -> (r: Vec2)
        requires
            -0x3fff_ffff_ffff_ffff <= self.x + other.x <= 0x3fff_ffff_ffff_ffff,
            -0x3fff_ffff_ffff_ffff <= self.y + other.y <= 0x3fff_ffff_ffff_ffff,
        ensures
            r.x == self.x + other.x,
            r.y == self.y + other.y,
    {
        Vec2 { x: self.x + other.x, y: self.y + other.y }
    }

    /// Scalar multiply by a fixed-point factor (`FP_ONE` is one),
    /// rounded toward zero component-wise.
    pub fn scale(self, factor: i64) -> (r: Vec2)
        requires
            self.in_bounds(),
            -1_000_000_000 <= factor <= 1_000_000_000,
        ensures
            r.x == spec_div_trunc(self.x * factor, FP_ONE as int),
            r.y == spec_div_trunc(self.y * factor, FP_ONE as int),
    {
        proof {
            assert((self.x as int) * (factor as int) <= 1_000_000_000_000_000_000
                && (self.x as int) * (factor as int) >= -1_000_000_000_000_000_000
                && (self.y as int) * (factor as int) <= 1_000_000_000_000_000_000
                && (self.y as int) * (factor as int) >= -1_000_000_000_000_000_000)
                by (nonlinear_arith)
                requires
                    -1_000_000_000 <= self.x <= 1_000_000_000,
                    -1_000_000_000 <= self.y <= 1_000_000_000,
                    -1_000_000_000 <= factor <= 1_000_000_000,
            ;
        }
        Vec2 { x: div_fp(self.x * factor), y: div_fp(self.y * factor) }
    }

    /// The vector scaled to length `FP_ONE` (one unit), rounded toward zero
    /// component-wise; the zero vector stays the zero vector.
    pub fn normalized(&self) -> (r: Vec2)
        requires
            self.in_wide_bounds(),
        ensures
            r == self.spec_normalized(),
            -FP_ONE <= r.x <= FP_ONE,
            -FP_ONE <= r.y <= FP_ONE,
    {
        let len: i64 = self.length();
        if len == 0 {
            proof {
                lemma_zero_len(*self);
            }
            Vec2 { x: 0, y: 0 }
        } else {
            proof {
                lemma_isqrt_unique(self.spec_len_sq(), len as int);
                lemma_component_le_len(*self, len as int);
            }
            Vec2 { x: scale_div(self.x, len), y: scale_div(self.y, len) }
        }
    }

    /// Mathematical value of [`Vec2::normalized`].
    pub open spec fn spec_normalized(self) -> Vec2 {
        let l = spec_isqrt(self.spec_len_sq());
        if l == 0 {
            Vec2 { x: 0, y: 0 }
        } else {
            Vec2 {
                x: spec_div_trunc(self.x * FP_ONE, l) as i64,
                y: spec_div_trunc(self.y * FP_ONE, l) as i64,
            }
        }
    }
}

/// Truncating (round-toward-zero) division, the semantics of `/` on `i64`.
pub open spec fn spec_div_trunc(a: int, b: int) -> int
    recommends
        b > 0,
{
    if a >= 0 {
        a / b
    } else {
        -((-a) / b)
    }
}

/// `r` is the integer square root of `n`.
pub open spec fn is_sqrt_of(r: int, n: int) -> bool {
    r >= 0 && r * r <= n < (r + 1) * (r + 1)
}

/// The integer square root of a non-negative integer.
pub open spec fn spec_isqrt(n: int) -> int {
    choose|r: int| is_sqrt_of(r, n)
}

/// `v / FP_ONE`, truncated toward zero.
fn div_fp(v: i64) -> (r: i64)
    requires
        -1_000_000_000_000_000_000 <= v <= 1_000_000_000_000_000_000,
    ensures
        r == spec_div_trunc(v as int, FP_ONE as int),
{
    if v >= 0 {
        v / FP_ONE
    } else {
        -((-v) / FP_ONE)
    }
}

/// `a * FP_ONE / b`, truncated toward zero; `|a| <= b` keeps the result
/// within one unit.
fn scale_div(a: i64, b: i64) -> (r: i64)
    requires
        b > 0,
        -b <= a <= b,
        b <= 3 * COORD_LIMIT,
    ensures
        r == spec_div_trunc(a * FP_ONE, b as int),
        -FP_ONE <= r <= FP_ONE,
{
    if a >= 0 {
        let q: i64 = (a * FP_ONE) / b;
        proof {
            lemma_div_le(a as int, b as int);
        }
        q
    } else {
        let q: i64 = ((-a) * FP_ONE) / b;
        proof {
            lemma_div_le((-a) as int, b as int);
        }
        -q
    }
}

proof fn lemma_div_le(a: int, b: int)
    requires
        b > 0,
        0 <= a <= b,
    ensures
        0 <= (a * FP_ONE) / b <= FP_ONE,
{
    assert(a * FP_ONE <= b * FP_ONE) by (nonlinear_arith)
        requires
            a <= b,
    ;
    assert(0 <= (a * FP_ONE) / b <= FP_ONE) by (nonlinear_arith)
        requires
            b > 0,
            0 <= a * FP_ONE <= b * FP_ONE,
    ;
}

proof fn lemma_square_bound(v: int, m: int) by (nonlinear_arith)
    requires
        -m <= v <= m,
        0 <= m,
    ensures
        0 <= v * v <= m * m,
{
}

proof fn lemma_zero_len(v: Vec2)
    requires
        0 * 0 <= v.spec_len_sq() < 1 * 1,
    ensures
        v.x == 0,
        v.y == 0,
        spec_isqrt(v.spec_len_sq()) == 0,
{
    assert(v.x * v.x >= 0 && v.y * v.y >= 0 && (v.x * v.x == 0 ==> v.x == 0) && (v.y * v.y == 0
        ==> v.y == 0)) by (nonlinear_arith);
    lemma_isqrt_unique(v.spec_len_sq(), 0);
}

/// `spec_isqrt` is pinned down by any witness of the defining property.
proof fn lemma_isqrt_unique(n: int, r: int)
    requires
        r >= 0,
        r * r <= n < (r + 1) * (r + 1),
    ensures
        spec_isqrt(n) == r,
{
    assert(exists|q: int| is_sqrt_of(q, n)) by {
        assert(is_sqrt_of(r, n));
    }
    let q = spec_isqrt(n);
    assert(is_sqrt_of(q, n));
    assert(q == r) by (nonlinear_arith)
        requires
            q >= 0,
            r >= 0,
            q * q <= n < (q + 1) * (q + 1),
            r * r <= n < (r + 1) * (r + 1),
    ;
}

/// A square root witness does not exceed its non-negative radicand.
proof fn lemma_isqrt_le(s: int, d: int)
    requires
        s >= 0,
        s * s <= d,
    ensures
        s <= d,
{
    assert(s <= d) by (nonlinear_arith)
        requires
            s >= 0,
            s * s <= d,
    ;
}

/// Each component's magnitude is bounded by any length witness.
proof fn lemma_component_le_len(v: Vec2, len: int)
    requires
        v.in_wide_bounds(),
        len > 0,
        len * len <= v.spec_len_sq() < (len + 1) * (len + 1),
    ensures
        -len <= v.x <= len,
        -len <= v.y <= len,
        len <= 3 * COORD_LIMIT,
{
    assert(-len <= v.x <= len && -len <= v.y <= len) by (nonlinear_arith)
        requires
            len > 0,
            len * len <= v.x * v.x + v.y * v.y < (len + 1) * (len + 1),
    ;
    assert(len <= 3 * COORD_LIMIT) by (nonlinear_arith)
        requires
            len > 0,
            -2 * COORD_LIMIT <= v.x <= 2 * COORD_LIMIT,
            -2 * COORD_LIMIT <= v.y <= 2 * COORD_LIMIT,
            len * len <= v.x * v.x + v.y * v.y,
    ;
}

/// Integer square root by binary search.
///
/// Returns the unique `r` with `r * r <= n < (r + 1) * (r + 1)`.
pub fn isqrt(n: u64) -> (r: u64)
    requires
        n <= 0x7fff_ffff_ffff_ffff,
    ensures
        r * r <= n < (r + 1) * (r + 1),
{
    if n == 0 {
        return 0;
    }
    let mut lo: u64 = 0;
    let mut hi: u64 = 3_037_000_500;
    proof {
        assert((3_037_000_500 as int) * (3_037_000_500 as int) == 9223372037000250000 as int)
            by (nonlinear_arith);
    }
    while hi - lo > 1
        invariant
            0 <= lo < hi <= 3_037_000_500,
            lo * lo <= n,
            n < hi * hi,
            n <= 0x7fff_ffff_ffff_ffff,
        decreases hi - lo,
    {
        let mid: u64 = lo + (hi - lo) / 2;
        proof {
            assert((mid as int) * (mid as int) <= (3_037_000_500 as int) * (3_037_000_500 as int))
                by (nonlinear_arith)
                requires
                    0 <= mid <= 3_037_000_500,
            ;
            assert((3_037_000_500 as int) * (3_037_000_500 as int) == 9223372037000250000 as int)
                by (nonlinear_arith);
        }
        if mid * mid <= n {
            lo = mid;
        } else {
            hi = mid;
        }
    }
    lo
}

} // verus!
