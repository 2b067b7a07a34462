//! Geometry primitives: points, axis-aligned rectangles and circles.
//!
//! Coordinates and sizes are `i64` milli-units (one pixel = 1000 units).
//! Every coordinate the simulation stores is kept within
//! [`-COORD_LIMIT`, `COORD_LIMIT`], which leaves ample headroom for the
//! small offsets the per-tick rules add before anything is clamped again.

use vstd::prelude::*;

verus! {

/// Largest magnitude any stored coordinate or size may take (2^60).
pub const COORD_LIMIT: i64 = 0x1000_0000_0000_0000;

/// A stored coordinate: small enough that adding tick-sized offsets
/// cannot overflow `i64`.
pub open spec fn in_range(v: i64) -> bool {
    -COORD_LIMIT <= v <= COORD_LIMIT
}

/// What [`clamp_coord`] returns: `v` pulled into the stored-coordinate range.
pub open spec fn clamp_spec(v: int) -> i64 {
    if v < -COORD_LIMIT {
        (-COORD_LIMIT) as i64
    } else if v > COORD_LIMIT {
        COORD_LIMIT
    } else {
        v as i64
    }
}

/// Pull an intermediate value back into the stored-coordinate range.
pub fn clamp_coord(v: i128) -> (r: i64)
    ensures
        r == clamp_spec(v as int),
        in_range(r),
{
    if v < -COORD_LIMIT as i128 {
        -COORD_LIMIT
    } else if v > COORD_LIMIT as i128 {
        COORD_LIMIT
    } else {
        v as i64
    }
}

#[derive(Clone, Copy, PartialEq, Eq, Structural, Debug)]
pub struct Point<T> {
    pub x: T,
    pub y: T,
}

impl<T> Point<T> {
    pub fn new(x: T, y: T) -> (p: Self)
        ensures
            p.x == x,
            p.y == y,
    {
        Point { x, y }
    }
}

#[derive(Clone, Copy, PartialEq, Eq, Structural, Debug)]
pub struct Rect<T> {
    pub loc: Point<T>,
    pub width: T,
    pub height: T,
}

impl<T> Rect<T> {
    pub fn new(x: T, y: T, w: T, h: T) -> (r: Self)
        ensures
            r.loc.x == x,
            r.loc.y == y,
            r.width == w,
            r.height == h,
    {
        Rect { loc: Point::new(x, y), width: w, height: h }
    }
}

#[derive(Clone, Copy, PartialEq, Eq, Structural, Debug)]
pub struct Circle<T> {
    pub loc: Point<T>,
    pub size: T,
}

impl<T> Circle<T> {
    pub fn new(x: T, y: T, size: T) -> (c: Self)
        ensures
            c.loc.x == x,
            c.loc.y == y,
            c.size == size,
    {
        Circle { loc: Point::new(x, y), size }
    }
}

#[derive(Clone, Copy, PartialEq, Eq, Structural, Debug)]
pub struct Point3<T> {
    pub x: T,
    pub y: T,
    pub z: T,
}

impl<T> Point3<T> {
    pub fn new(x: T, y: T, z: T) -> (p: Self)
        ensures
            p.x == x,
            p.y == y,
            p.z == z,
    {
        Point3 { x, y, z }
    }
}

/// A coordinate that distance computations accept: slightly wider than
/// [`in_range`], so that points a small offset away from a stored
/// coordinate (such as circumference sample points) still qualify.
pub open spec fn in_calc_range(v: i64) -> bool {
    -0x2000_0000_0000_0000 <= v <= 0x2000_0000_0000_0000
}

pub broadcast proof fn lemma_in_range_widens(v: i64)
    requires
        #[trigger] in_range(v),
    ensures
        in_calc_range(v),
{
}

/// Squared Euclidean distance between two points, as a mathematical integer.
pub open spec fn dist_sq(ax: int, ay: int, bx: int, by: int) -> int {
    (ax - bx) * (ax - bx) + (ay - by) * (ay - by)
}

/// Squared Euclidean distance, computed exactly in `i128`.
pub fn dist_sq_i64(ax: i64, ay: i64, bx: i64, by: i64) -> (d: u128)
    requires
        in_calc_range(ax),
        in_calc_range(ay),
        in_calc_range(bx),
        in_calc_range(by),
    ensures
        d == dist_sq(ax as int, ay as int, bx as int, by as int),
        d <= 0x2000_0000_0000_0000_0000_0000_0000_0000,
{
    let dx: i128 = ax as i128 - bx as i128;
    let dy: i128 = ay as i128 - by as i128;
    proof {
        assert(dx * dx >= 0 && dy * dy >= 0) by (nonlinear_arith);
        assert(dx * dx <= 0x1000_0000_0000_0000_0000_0000_0000_0000int
            && dy * dy <= 0x1000_0000_0000_0000_0000_0000_0000_0000int) by (nonlinear_arith)
            requires
                -0x4000_0000_0000_0000 <= dx <= 0x4000_0000_0000_0000,
                -0x4000_0000_0000_0000 <= dy <= 0x4000_0000_0000_0000,
        ;
    }
    (dx * dx + dy * dy) as u128
}

/// `r` is the integer square root of `n`: the largest integer whose
/// square does not exceed `n`.
pub open spec fn is_isqrt(n: int, r: int) -> bool {
    &&& 0 <= r
    &&& r * r <= n
    &&& n < (r + 1) * (r + 1)
}

/// Integer square root by binary search.
pub fn isqrt_u128(n: u128) -> (r: u64)
    ensures
        is_isqrt(n as int, r as int),
{
    let mut lo: u128 = 0;
    let mut hi: u128 = 0x1_0000_0000_0000_0000;
    proof {
        assert(hi * hi > n) by (nonlinear_arith)
            requires
                hi == 0x1_0000_0000_0000_0000,
                n <= 0xffff_ffff_ffff_ffff_ffff_ffff_ffff_ffff,
        ;
    }
    while lo + 1 < hi
        invariant
            lo < hi <= 0x1_0000_0000_0000_0000,
            lo * lo <= n,
            n < hi * hi,
        decreases hi - lo,
    {
        let mid = lo + (hi - lo) / 2;
        proof {
            assert(mid * mid < 0x1_0000_0000_0000_0000_0000_0000_0000_0000int)
                by (nonlinear_arith)
                requires
                    0 <= mid < 0x1_0000_0000_0000_0000,
            ;
        }
        let sq = mid * mid;
        if sq <= n {
            lo = mid;
        } else {
            hi = mid;
        }
    }
    proof {
        assert(n < (lo + 1) * (lo + 1)) by (nonlinear_arith)
            requires
                hi <= lo + 1,
                0 <= hi,
                n < hi * hi,
        ;
    }
    lo as u64
}

/// An integer square root compared against an integer threshold behaves
/// exactly like the real square root: `isqrt(n) < t` iff `n < t*t`.
pub proof fn lemma_isqrt_lt(n: int, r: int, t: int)
    requires
        is_isqrt(n, r),
        0 <= t,
    ensures
        (r < t) <==> (n < t * t),
{
    if r < t {
        assert(n < t * t) by (nonlinear_arith)
            requires
                n < (r + 1) * (r + 1),
                r + 1 <= t,
                0 <= r,
        ;
    }
    if n < t * t {
        assert(r < t) by (nonlinear_arith)
            requires
                r * r <= n,
                n < t * t,
                0 <= r,
                0 <= t,
        ;
    }
}

/// Euclidean distance between two points, rounded down to an integer.
pub fn dist_between_points(a: Point<i64>, b: Point<i64>) -> (d: i64)
    requires
        in_calc_range(a.x),
        in_calc_range(a.y),
        in_calc_range(b.x),
        in_calc_range(b.y),
    ensures
        is_isqrt(dist_sq(a.x as int, a.y as int, b.x as int, b.y as int), d as int),
        d >= 0,
{
    let sq = dist_sq_i64(a.x, a.y, b.x, b.y);
    let r = isqrt_u128(sq);
    proof {
        assert((r as int) < 0x8000_0000_0000_0000int) by (nonlinear_arith)
            requires
                (r as int) * (r as int) <= sq as int,
                sq as int <= 0x2000_0000_0000_0000_0000_0000_0000_0000int,
                0 <= r as int,
        ;
    }
    r as i64
}

/// Strict, boundary-exclusive containment of a point in an axis-aligned
/// rectangle.  An inverted rectangle (negative width or height) contains
/// no point at all.
pub open spec fn rect_contains(rc: Rect<i64>, x: int, y: int) -> bool {
    &&& rc.loc.x < x < rc.loc.x + rc.width
    &&& rc.loc.y < y < rc.loc.y + rc.height
}

/// Strict containment of a point in a circle widened by `tol`: the point's
/// distance from the center is strictly below `size + tol`.
pub open spec fn circle_contains(c: Circle<i64>, x: int, y: int, tol: int) -> bool {
    &&& c.size + tol > 0
    &&& dist_sq(c.loc.x as int, c.loc.y as int, x, y) < (c.size + tol) * (c.size + tol)
}

} // verus!
