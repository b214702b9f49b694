//! The spatial locator: maps an arbitrary point to the mesh triangle nearest
//! to it and to the exact closest point on that triangle (the perpendicular
//! projection when it falls inside the triangle, else the clamp to the
//! nearest edge or vertex).
//!
//! All arithmetic is exact integer arithmetic; the one rounding step is the
//! final fixed-point division, which rounds each coordinate down.

use crate::geom::{
    bounded, in_coord_range, spec_dist_sq, v3, v3_dot, v3_sub, dist_sq, lemma_mul_bound, Point,
    COORD_LIMIT, V3,
};
use crate::mesh::{mesh_wf, tri_wf, Mesh, MeshView, QueryMode};
use vstd::arithmetic::div_mod::{
    lemma_fundamental_div_mod, lemma_fundamental_div_mod_converse, lemma_mod_bound,
};
use vstd::prelude::*;

verus! {

/// A coordinate clamped into the fixed-point range.
pub open spec fn clamp_coord(v: int) -> int {
    if v < -(COORD_LIMIT as int) {
        -(COORD_LIMIT as int)
    } else if v > COORD_LIMIT as int {
        COORD_LIMIT as int
    } else {
        v
    }
}

/// The point `a + (b - a) * num / den`, each coordinate rounded down and
/// clamped into the fixed-point range; `a` itself if `den` is not positive.
pub open spec fn spec_lerp(a: Point, b: Point, num: int, den: int) -> Point {
    if den <= 0 {
        a
    } else {
        Point {
            x: clamp_coord((a.x * den + (b.x - a.x) * num) / den) as i64,
            y: clamp_coord((a.y * den + (b.y - a.y) * num) / den) as i64,
            z: clamp_coord((a.z * den + (b.z - a.z) * num) / den) as i64,
        }
    }
}

/// The point `a + ab * vb / denom + ac * vc / denom`, rounded down and
/// clamped, for a positive `denom`.
pub open spec fn spec_interior(a: Point, ab: V3, ac: V3, vb: int, vc: int, denom: int) -> Point {
    Point {
        x: clamp_coord((a.x * denom + ab.x * vb + ac.x * vc) / denom) as i64,
        y: clamp_coord((a.y * denom + ab.y * vb + ac.y * vc) / denom) as i64,
        z: clamp_coord((a.z * denom + ab.z * vb + ac.z * vc) / denom) as i64,
    }
}

/// The closest point of triangle `a b c` to `p`: the vertex, edge or interior
/// point of the triangle nearest to `p`, found by classifying `p` against the
/// triangle's Voronoi regions with exact integer tests.
pub open spec fn spec_closest_on_tri(a: Point, b: Point, c: Point, p: Point) -> Point {
    let ab = v3_sub(v3(b), v3(a));
    let ac = v3_sub(v3(c), v3(a));
    let ap = v3_sub(v3(p), v3(a));
    let d1 = v3_dot(ab, ap);
    let d2 = v3_dot(ac, ap);
    if d1 <= 0 && d2 <= 0 {
        a
    } else {
        let bp = v3_sub(v3(p), v3(b));
        let d3 = v3_dot(ab, bp);
        let d4 = v3_dot(ac, bp);
        if d3 >= 0 && d4 <= d3 {
            b
        } else {
            let vc = d1 * d4 - d3 * d2;
            if vc <= 0 && d1 >= 0 && d3 <= 0 {
                spec_lerp(a, b, d1, d1 - d3)
            } else {
                let cp = v3_sub(v3(p), v3(c));
                let d5 = v3_dot(ab, cp);
                let d6 = v3_dot(ac, cp);
                if d6 >= 0 && d5 <= d6 {
                    c
                } else {
                    let vb = d5 * d2 - d1 * d6;
                    if vb <= 0 && d2 >= 0 && d6 <= 0 {
                        spec_lerp(a, c, d2, d2 - d6)
                    } else {
                        let va = d3 * d6 - d4 * d5;
                        if va <= 0 && d4 - d3 >= 0 && d5 - d6 >= 0 {
                            spec_lerp(b, c, d4 - d3, (d4 - d3) + (d5 - d6))
                        } else {
                            let denom = va + vb + vc;
                            if denom <= 0 {
                                a
                            } else {
                                spec_interior(a, ab, ac, vb, vc, denom)
                            }
                        }
                    }
                }
            }
        }
    }
}

/// The closest point of triangle `i` of the mesh to `p`.
pub open spec fn spec_closest_of(v: MeshView, i: int, p: Point) -> Point {
    spec_closest_on_tri(
        v.verts[v.tris[i].a as int],
        v.verts[v.tris[i].b as int],
        v.verts[v.tris[i].c as int],
        p,
    )
}

/// The distance measure the Accuracy locator minimizes: the squared distance
/// from `p` to the closest point of triangle `i`.
pub open spec fn tri_query_dist(v: MeshView, i: int, p: Point) -> int {
    spec_dist_sq(p, spec_closest_of(v, i, p))
}

/// `i` is the triangle the Accuracy locator picks for `p`: no triangle is
/// closer, and no lower-indexed triangle is as close (ties break to the
/// lowest index).
pub open spec fn is_nearest(v: MeshView, p: Point, i: int) -> bool {
    &&& 0 <= i < v.tris.len()
    &&& forall|k: int|
        0 <= k < v.tris.len() ==> tri_query_dist(v, i, p) <= #[trigger] tri_query_dist(v, k, p)
    &&& forall|k: int| 0 <= k < i ==> tri_query_dist(v, i, p) < #[trigger] tri_query_dist(v, k, p)
}

/// The query point scaled by three, for exact comparison against the stored
/// triple centroids.
pub open spec fn scale3(p: Point) -> Point {
    Point { x: (3 * p.x) as i64, y: (3 * p.y) as i64, z: (3 * p.z) as i64 }
}

/// The coarse distance measure the Performance locator minimizes: the squared
/// distance from `p` to the centroid of triangle `i` (both scaled by three).
pub open spec fn centroid_dist(v: MeshView, i: int, p: Point) -> int {
    spec_dist_sq(scale3(p), v.tris[i].centroid3)
}

/// `i` is the triangle the Performance locator picks for `p`: the one with
/// the nearest centroid, ties breaking to the lowest index.
pub open spec fn is_centroid_nearest(v: MeshView, p: Point, i: int) -> bool {
    &&& 0 <= i < v.tris.len()
    &&& forall|k: int|
        0 <= k < v.tris.len() ==> centroid_dist(v, i, p) <= #[trigger] centroid_dist(v, k, p)
    &&& forall|k: int| 0 <= k < i ==> centroid_dist(v, i, p) < #[trigger] centroid_dist(v, k, p)
}

impl Mesh {
    /// The closest point of triangle `i` to `p`, computed from the mesh.
    pub fn closest_of(&self, i: usize, p: &Point) -> (q: Point)
        requires
            i < self@.tris.len(),
            in_coord_range(*p),
        ensures
            q == spec_closest_of(self@, i as int, *p),
            in_coord_range(q),
    {
        self.wf_facts();
        assert(tri_wf(self@, i as int));
        let t = self.triangle(i);
        let pa = self.vertex(t.a);
        let pb = self.vertex(t.b);
        let pc = self.vertex(t.c);
        closest_on_tri(&pa, &pb, &pc, p)
    }

    /// The squared distance from the scaled query point to the stored triple
    /// centroid of triangle `i`.
    fn centroid_dist_to(&self, i: usize, p3: &Point) -> (d: i64)
        requires
            i < self@.tris.len(),
            bounded(*p3, 3_000_000),
        ensures
            d as int == spec_dist_sq(*p3, self@.tris[i as int].centroid3),
    {
        self.wf_facts();
        assert(tri_wf(self@, i as int));
        let t = self.triangle(i);
        assert(bounded(t.centroid3, 4_000_000));
        dist_sq(p3, &t.centroid3)
    }

    /// Maps `p` to the triangle of the mesh nearest to it and to the exact
    /// closest surface point on that triangle. Returns `None` exactly when
    /// the mesh has no triangles. In Accuracy mode the true nearest triangle
    /// is found; in Performance mode the candidate is chosen by centroid
    /// proximity alone, a coarse filter that may return a supra-minimal
    /// (approximate) result. Ties break to the lowest triangle index.
    pub fn closest_point(&self, p: &Point, mode: QueryMode) -> (r: Option<(usize, Point)>)
        requires
            in_coord_range(*p),
        ensures
            (r is None <==> self@.tris.len() == 0),
            r matches Some((i, q)) ==> {
                &&& (i as int) < self@.tris.len()
                &&& q == spec_closest_of(self@, i as int, *p)
                &&& in_coord_range(q)
                &&& (mode == QueryMode::Accuracy ==> is_nearest(self@, *p, i as int))
                &&& (mode == QueryMode::Performance ==> is_centroid_nearest(
                    self@,
                    *p,
                    i as int,
                ))
            },
    {
        self.wf_facts();
        let n: usize = self.triangle_count();
        if n == 0 {
            return None;
        }
        match mode {
            QueryMode::Accuracy => {
                let q0 = self.closest_of(0, p);
                let mut best_i: usize = 0;
                let mut best_q: Point = q0;
                let mut best_d: i64 = dist_sq(p, &q0);
                let mut k: usize = 1;
                while k < n
                    invariant
                        mesh_wf(self@),
                        in_coord_range(*p),
                        n == self@.tris.len(),
                        1 <= k <= n,
                        (best_i as int) < k,
                        best_q == spec_closest_of(self@, best_i as int, *p),
                        in_coord_range(best_q),
                        best_d as int == tri_query_dist(self@, best_i as int, *p),
                        forall|m: int|
                            0 <= m < k ==> (best_d as int) <= #[trigger] tri_query_dist(
                                self@,
                                m,
                                *p,
                            ),
                        forall|m: int|
                            0 <= m < best_i ==> (best_d as int) < #[trigger] tri_query_dist(
                                self@,
                                m,
                                *p,
                            ),
                    decreases n - k,
                {
                    let q = self.closest_of(k, p);
                    let d: i64 = dist_sq(p, &q);
                    if d < best_d {
                        best_i = k;
                        best_q = q;
                        best_d = d;
                    }
                    k += 1;
                }
                Some((best_i, best_q))
            },
            QueryMode::Performance => {
                let p3 = Point { x: 3 * p.x, y: 3 * p.y, z: 3 * p.z };
                assert(p3 == scale3(*p));
                let mut best_i: usize = 0;
                let mut best_d: i64 = self.centroid_dist_to(0, &p3);
                let mut k: usize = 1;
                while k < n
                    invariant
                        mesh_wf(self@),
                        in_coord_range(*p),
                        bounded(p3, 3_000_000),
                        p3 == scale3(*p),
                        n == self@.tris.len(),
                        1 <= k <= n,
                        (best_i as int) < k,
                        best_d as int == centroid_dist(self@, best_i as int, *p),
                        forall|m: int|
                            0 <= m < k ==> (best_d as int) <= #[trigger] centroid_dist(
                                self@,
                                m,
                                *p,
                            ),
                        forall|m: int|
                            0 <= m < best_i ==> (best_d as int) < #[trigger] centroid_dist(
                                self@,
                                m,
                                *p,
                            ),
                    decreases n - k,
                {
                    let d: i64 = self.centroid_dist_to(k, &p3);
                    if d < best_d {
                        best_i = k;
                        best_d = d;
                    }
                    k += 1;
                }
                let q = self.closest_of(best_i, p);
                Some((best_i, q))
            },
        }
    }
}

/// Floor division for a positive divisor.
fn div_floor(a: i128, b: i128) -> (q: i128)
    requires
        0 < b,
        -0x4000_0000_0000_0000_0000_0000_0000_0000 < a,
    ensures
        q == a as int / b as int,
{
    if a >= 0 {
        let q0: u128 = (a as u128) / (b as u128);
        proof {
            lemma_fundamental_div_mod(a as int, b as int);
        }
        q0 as i128
    } else {
        let m: u128 = (-a) as u128;
        let q0: u128 = m / (b as u128);
        let r0: u128 = m % (b as u128);
        proof {
            lemma_fundamental_div_mod(m as int, b as int);
            lemma_mod_bound(m as int, b as int);
            if r0 == 0 {
                assert((-(q0 as int)) * (b as int) == -((b as int) * (q0 as int)))
                    by (nonlinear_arith);
                lemma_fundamental_div_mod_converse(a as int, b as int, -(q0 as int), 0);
            } else {
                assert((-(q0 as int) - 1) * (b as int) == -((b as int) * (q0 as int)) - (
                b as int)) by (nonlinear_arith);
                lemma_fundamental_div_mod_converse(
                    a as int,
                    b as int,
                    -(q0 as int) - 1,
                    b as int - r0 as int,
                );
            }
        }
        if r0 == 0 {
            -(q0 as i128)
        } else {
            -(q0 as i128) - 1
        }
    }
}

/// A fixed-point coordinate from an exact quotient, clamped into range.
fn clamp_c(v: i128) -> (r: i64)
    ensures
        r as int == clamp_coord(v as int),
{
    if v < -(COORD_LIMIT as i128) {
        -COORD_LIMIT
    } else if v > COORD_LIMIT as i128 {
        COORD_LIMIT
    } else {
        v as i64
    }
}

/// The dot product of two vectors with components bounded by twice the
/// coordinate limit.
fn dot_d(ux: i128, uy: i128, uz: i128, vx: i128, vy: i128, vz: i128) -> (r: i128)
    requires
        -2_000_000 <= ux <= 2_000_000,
        -2_000_000 <= uy <= 2_000_000,
        -2_000_000 <= uz <= 2_000_000,
        -2_000_000 <= vx <= 2_000_000,
        -2_000_000 <= vy <= 2_000_000,
        -2_000_000 <= vz <= 2_000_000,
    ensures
        r == ux * vx + uy * vy + uz * vz,
        -12_000_000_000_000 <= r <= 12_000_000_000_000,
{
    proof {
        lemma_mul_bound(ux as int, vx as int, 2_000_000, 2_000_000);
        lemma_mul_bound(uy as int, vy as int, 2_000_000, 2_000_000);
        lemma_mul_bound(uz as int, vz as int, 2_000_000, 2_000_000);
    }
    ux * vx + uy * vy + uz * vz
}

/// One interpolated coordinate `(av * den + dv * num) / den`, rounded down
/// and clamped.
fn lerp_c(av: i64, dv: i128, num: i128, den: i128) -> (r: i64)
    requires
        -1_000_000 <= av <= 1_000_000,
        -2_000_000 <= dv <= 2_000_000,
        -24_000_000_000_000 <= num <= 24_000_000_000_000,
        0 < den <= 48_000_000_000_000,
    ensures
        r as int == clamp_coord(((av as int) * (den as int) + (dv as int) * (num as int)) / (den as int)),
{
    proof {
        lemma_mul_bound(av as int, den as int, 1_000_000, 48_000_000_000_000);
        lemma_mul_bound(dv as int, num as int, 2_000_000, 24_000_000_000_000);
    }
    let q: i128 = div_floor((av as i128) * den + dv * num, den);
    clamp_c(q)
}

/// One interior coordinate `(av * denom + abv * vb + acv * vc) / denom`,
/// rounded down and clamped.
fn interior_c(av: i64, abv: i128, acv: i128, vb: i128, vc: i128, denom: i128) -> (r: i64)
    requires
        -1_000_000 <= av <= 1_000_000,
        -2_000_000 <= abv <= 2_000_000,
        -2_000_000 <= acv <= 2_000_000,
        -0x1_0000_0000_0000_0000_0000_0000 <= vb <= 0x1_0000_0000_0000_0000_0000_0000,
        -0x1_0000_0000_0000_0000_0000_0000 <= vc <= 0x1_0000_0000_0000_0000_0000_0000,
        0 < denom <= 0x3_0000_0000_0000_0000_0000_0000,
    ensures
        r as int == clamp_coord(((av as int) * (denom as int) + (abv as int) * (vb as int) + (acv as int) * (vc as int)) / (denom as int)),
{
    proof {
        lemma_mul_bound(
            av as int,
            denom as int,
            1_000_000,
            0x3_0000_0000_0000_0000_0000_0000,
        );
        lemma_mul_bound(abv as int, vb as int, 2_000_000, 0x1_0000_0000_0000_0000_0000_0000);
        lemma_mul_bound(acv as int, vc as int, 2_000_000, 0x1_0000_0000_0000_0000_0000_0000);
    }
    let q: i128 = div_floor((av as i128) * denom + abv * vb + acv * vc, denom);
    clamp_c(q)
}

/// The closest point of triangle `a b c` to `p`, computed exactly.
pub fn closest_on_tri(a: &Point, b: &Point, c: &Point, p: &Point) -> (q: Point)
    requires
        in_coord_range(*a),
        in_coord_range(*b),
        in_coord_range(*c),
        in_coord_range(*p),
    ensures
        q == spec_closest_on_tri(*a, *b, *c, *p),
        in_coord_range(q),
{
    let abx: i128 = (b.x - a.x) as i128;
    let aby: i128 = (b.y - a.y) as i128;
    let abz: i128 = (b.z - a.z) as i128;
    let acx: i128 = (c.x - a.x) as i128;
    let acy: i128 = (c.y - a.y) as i128;
    let acz: i128 = (c.z - a.z) as i128;
    let apx: i128 = (p.x - a.x) as i128;
    let apy: i128 = (p.y - a.y) as i128;
    let apz: i128 = (p.z - a.z) as i128;
    let d1: i128 = dot_d(abx, aby, abz, apx, apy, apz);
    let d2: i128 = dot_d(acx, acy, acz, apx, apy, apz);
    if d1 <= 0 && d2 <= 0 {
        return *a;
    }
    let bpx: i128 = (p.x - b.x) as i128;
    let bpy: i128 = (p.y - b.y) as i128;
    let bpz: i128 = (p.z - b.z) as i128;
    let d3: i128 = dot_d(abx, aby, abz, bpx, bpy, bpz);
    let d4: i128 = dot_d(acx, acy, acz, bpx, bpy, bpz);
    if d3 >= 0 && d4 <= d3 {
        return *b;
    }
    proof {
        lemma_mul_bound(d1 as int, d4 as int, 12_000_000_000_000, 12_000_000_000_000);
        lemma_mul_bound(d3 as int, d2 as int, 12_000_000_000_000, 12_000_000_000_000);
    }
    let vc: i128 = d1 * d4 - d3 * d2;
    if vc <= 0 && d1 >= 0 && d3 <= 0 {
        let den: i128 = d1 - d3;
        if den <= 0 {
            return *a;
        }
        return Point {
            x: lerp_c(a.x, abx, d1, den),
            y: lerp_c(a.y, aby, d1, den),
            z: lerp_c(a.z, abz, d1, den),
        };
    }
    let cpx: i128 = (p.x - c.x) as i128;
    let cpy: i128 = (p.y - c.y) as i128;
    let cpz: i128 = (p.z - c.z) as i128;
    let d5: i128 = dot_d(abx, aby, abz, cpx, cpy, cpz);
    let d6: i128 = dot_d(acx, acy, acz, cpx, cpy, cpz);
    if d6 >= 0 && d5 <= d6 {
        return *c;
    }
    proof {
        lemma_mul_bound(d5 as int, d2 as int, 12_000_000_000_000, 12_000_000_000_000);
        lemma_mul_bound(d1 as int, d6 as int, 12_000_000_000_000, 12_000_000_000_000);
    }
    let vb: i128 = d5 * d2 - d1 * d6;
    if vb <= 0 && d2 >= 0 && d6 <= 0 {
        let den: i128 = d2 - d6;
        if den <= 0 {
            return *a;
        }
        return Point {
            x: lerp_c(a.x, acx, d2, den),
            y: lerp_c(a.y, acy, d2, den),
            z: lerp_c(a.z, acz, d2, den),
        };
    }
    proof {
        lemma_mul_bound(d3 as int, d6 as int, 12_000_000_000_000, 12_000_000_000_000);
        lemma_mul_bound(d4 as int, d5 as int, 12_000_000_000_000, 12_000_000_000_000);
    }
    let va: i128 = d3 * d6 - d4 * d5;
    if va <= 0 && d4 - d3 >= 0 && d5 - d6 >= 0 {
        let den: i128 = (d4 - d3) + (d5 - d6);
        if den <= 0 {
            return *b;
        }
        let bcx: i128 = (c.x - b.x) as i128;
        let bcy: i128 = (c.y - b.y) as i128;
        let bcz: i128 = (c.z - b.z) as i128;
        return Point {
            x: lerp_c(b.x, bcx, d4 - d3, den),
            y: lerp_c(b.y, bcy, d4 - d3, den),
            z: lerp_c(b.z, bcz, d4 - d3, den),
        };
    }
    let denom: i128 = va + vb + vc;
    if denom <= 0 {
        return *a;
    }
    Point {
        x: interior_c(a.x, abx, acx, vb, vc, denom),
        y: interior_c(a.y, aby, acy, vb, vc, denom),
        z: interior_c(a.z, abz, acz, vb, vc, denom),
    }
}

} // verus!
