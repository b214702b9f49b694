//! Geometry primitives: a fixed-point 3D point type and the exact integer
//! vector arithmetic (difference, dot, cross, squared distance, integer
//! square root) that the mesh builder and the queries are built on.

use vstd::prelude::*;

verus! {

/// Bound on every coordinate the engine accepts, in fixed-point units.
///
/// Keeping all coordinates within this bound guarantees that every product
/// formed by the geometric computations below fits comfortably in the integer
/// widths used, so all geometry is exact.
pub const COORD_LIMIT: i64 = 1_000_000;

/// A 3D point (or vector) in fixed-point coordinates. Value type, no identity.
#[derive(Clone, Copy, PartialEq, Eq, Structural, Debug)]
pub struct Point {
    pub x: i64,
    pub y: i64,
    pub z: i64,
}

/// A mathematical 3D integer vector, used to state what the executable
/// geometry computes.
pub struct V3 {
    pub x: int,
    pub y: int,
    pub z: int,
}

/// The mathematical vector a point stands for.
pub open spec fn v3(p: Point) -> V3 {
    V3 { x: p.x as int, y: p.y as int, z: p.z as int }
}

pub open spec fn v3_sub(a: V3, b: V3) -> V3 {
    V3 { x: a.x - b.x, y: a.y - b.y, z: a.z - b.z }
}

pub open spec fn v3_dot(a: V3, b: V3) -> int {
    a.x * b.x + a.y * b.y + a.z * b.z
}

pub open spec fn v3_cross(a: V3, b: V3) -> V3 {
    V3 {
        x: a.y * b.z - a.z * b.y,
        y: a.z * b.x - a.x * b.z,
        z: a.x * b.y - a.y * b.x,
    }
}

pub open spec fn v3_is_zero(a: V3) -> bool {
    a.x == 0 && a.y == 0 && a.z == 0
}

/// Squared Euclidean distance between two points, exactly.
pub open spec fn spec_dist_sq(p: Point, q: Point) -> int {
    v3_dot(v3_sub(v3(p), v3(q)), v3_sub(v3(p), v3(q)))
}

/// Whether every coordinate of `p` lies within `m` in absolute value.
pub open spec fn bounded(p: Point, m: int) -> bool {
    &&& -m <= p.x <= m
    &&& -m <= p.y <= m
    &&& -m <= p.z <= m
}

/// Whether `p` is within the engine's fixed-point coordinate range.
pub open spec fn in_coord_range(p: Point) -> bool {
    bounded(p, COORD_LIMIT as int)
}

/// Three points are degenerate when they are collinear or coincident, that
/// is, when the cross product of the two edge vectors is exactly zero.
pub open spec fn spec_degenerate(a: Point, b: Point, c: Point) -> bool {
    v3_is_zero(v3_cross(v3_sub(v3(b), v3(a)), v3_sub(v3(c), v3(a))))
}

/// Whether `c` is the exact vector sum of `pa`, `pb` and `pc`, that is,
/// three times their centroid.
pub open spec fn spec_centroid3_ok(pa: Point, pb: Point, pc: Point, c: Point) -> bool {
    &&& c.x == pa.x + pb.x + pc.x
    &&& c.y == pa.y + pb.y + pc.y
    &&& c.z == pa.z + pb.z + pc.z
}

/// `|a * b| <= m * n` whenever `|a| <= m` and `|b| <= n`.
pub proof fn lemma_mul_bound(a: int, b: int, m: int, n: int)
    by (nonlinear_arith)
    requires
        -m <= a <= m,
        -n <= b <= n,
        0 <= m,
        0 <= n,
    ensures
        -(m * n) <= a * b <= m * n,
{
}

impl Point {
    /// Whether the point lies within the engine's fixed-point range;
    /// queries on points outside it return empty results.
    pub fn in_range(&self) -> (r: bool)
        ensures
            r == in_coord_range(*self),
    {
        -COORD_LIMIT <= self.x && self.x <= COORD_LIMIT && -COORD_LIMIT <= self.y && self.y
            <= COORD_LIMIT && -COORD_LIMIT <= self.z && self.z <= COORD_LIMIT
    }
}

/// Whether three points are collinear or coincident, by an exact integer
/// cross-product test.
pub fn is_degenerate(a: &Point, b: &Point, c: &Point) -> (r: bool)
    requires
        in_coord_range(*a),
        in_coord_range(*b),
        in_coord_range(*c),
    ensures
        r == spec_degenerate(*a, *b, *c),
{
    let ux: i64 = b.x - a.x;
    let uy: i64 = b.y - a.y;
    let uz: i64 = b.z - a.z;
    let vx: i64 = c.x - a.x;
    let vy: i64 = c.y - a.y;
    let vz: i64 = c.z - a.z;
    proof {
        lemma_mul_bound(uy as int, vz as int, 2_000_000, 2_000_000);
        lemma_mul_bound(uz as int, vy as int, 2_000_000, 2_000_000);
        lemma_mul_bound(uz as int, vx as int, 2_000_000, 2_000_000);
        lemma_mul_bound(ux as int, vz as int, 2_000_000, 2_000_000);
        lemma_mul_bound(ux as int, vy as int, 2_000_000, 2_000_000);
        lemma_mul_bound(uy as int, vx as int, 2_000_000, 2_000_000);
    }
    let cx: i64 = uy * vz - uz * vy;
    let cy: i64 = uz * vx - ux * vz;
    let cz: i64 = ux * vy - uy * vx;
    cx == 0 && cy == 0 && cz == 0
}

/// Squared Euclidean distance between two points whose coordinates are
/// bounded by four times the coordinate limit.
pub fn dist_sq(p: &Point, q: &Point) -> (r: i64)
    requires
        bounded(*p, 4 * COORD_LIMIT as int),
        bounded(*q, 4 * COORD_LIMIT as int),
    ensures
        r as int == spec_dist_sq(*p, *q),
        0 <= r,
{
    let dx: i64 = p.x - q.x;
    let dy: i64 = p.y - q.y;
    let dz: i64 = p.z - q.z;
    proof {
        lemma_mul_bound(dx as int, dx as int, 8_000_000, 8_000_000);
        lemma_mul_bound(dy as int, dy as int, 8_000_000, 8_000_000);
        lemma_mul_bound(dz as int, dz as int, 8_000_000, 8_000_000);
        assert(0 <= dx * dx && 0 <= dy * dy && 0 <= dz * dz) by (nonlinear_arith);
    }
    dx * dx + dy * dy + dz * dz
}

/// The integer square root: the greatest `r` with `r * r <= n`.
pub fn isqrt(n: u64) -> (r: u64)
    ensures
        r * r <= n < (r + 1) * (r + 1),
{
    let mut lo: u64 = 0;
    let mut hi: u64 = 4_294_967_296;
    assert(n < hi * hi) by (nonlinear_arith)
        requires
            n <= u64::MAX,
            hi == 4_294_967_296u64;
    while hi - lo > 1
        invariant
            lo < hi <= 4_294_967_296,
            lo * lo <= n,
            n < hi * hi,
        decreases hi - lo,
    {
        let mid: u64 = lo + (hi - lo) / 2;
        proof {
            lemma_mul_bound(mid as int, mid as int, 4_294_967_296, 4_294_967_296);
        }
        let sq: u128 = (mid as u128) * (mid as u128);
        if sq <= n as u128 {
            lo = mid;
        } else {
            hi = mid;
        }
    }
    lo
}

/// Euclidean distance between two points bounded by four times the coordinate
/// limit, rounded down to an integer.
pub fn dist(p: &Point, q: &Point) -> (r: u64)
    requires
        bounded(*p, 4 * COORD_LIMIT as int),
        bounded(*q, 4 * COORD_LIMIT as int),
    ensures
        r * r <= spec_dist_sq(*p, *q) < (r + 1) * (r + 1),
{
    let d: i64 = dist_sq(p, q);
    isqrt(d as u64)
}

} // verus!
