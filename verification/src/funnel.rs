//! The path refiner: funnel string-pulling. Given a corridor of adjacent
//! triangles and resolved start and end points, it walks the corridor's
//! portal edges keeping a funnel of two taut strings anchored at an apex;
//! when a portal vertex would cross the opposite string, the apex is
//! committed as a path vertex and the funnel restarts there.
//!
//! Funnel side tests are taken in the plane of the corridor's first triangle
//! (exact integer cross/dot tests), which pulls the string tight on planar
//! and near-planar corridors; the end point passes through the funnel as a
//! final zero-width portal. Every committed vertex is a portal vertex, so
//! the polyline always crosses the corridor's portals.

use crate::geom::{
    in_coord_range, lemma_mul_bound, v3, v3_cross, v3_dot, v3_sub, Point, V3,
};
use crate::mesh::{edge_a, edge_b, idxs, mesh_wf, nbr, tri_idx, tri_wf, Mesh, MeshView};
use crate::search::{adjacent, is_chain};
use vstd::prelude::*;

verus! {

/// `pt` is an endpoint of one of the corridor's portal edges: the shared
/// edge between some consecutive pair of corridor triangles.
pub open spec fn is_portal_point(v: MeshView, c: Seq<usize>, pt: Point) -> bool {
    exists|k: int, e: int|
        0 <= k < c.len() - 1 && 0 <= e < 3 && ((#[trigger] nbr(v.tris[c[k] as int], e)) matches Some(
            u,
        ) && u == c[k + 1] && (pt == v.verts[edge_a(idxs(v.tris)[c[k] as int], e)] || pt
            == v.verts[edge_b(idxs(v.tris)[c[k] as int], e)]))
}

/// The signed volume test the funnel uses: the component along `nrm` of the
/// cross product of `a - o` and `b - o`.
pub open spec fn spec_side(o: Point, a: Point, b: Point, nrm: (i64, i64, i64)) -> int {
    v3_dot(
        v3_cross(v3_sub(v3(a), v3(o)), v3_sub(v3(b), v3(o))),
        V3 { x: nrm.0 as int, y: nrm.1 as int, z: nrm.2 as int },
    )
}

/// The funnel side test, computed exactly.
fn side(o: &Point, a: &Point, b: &Point, nrm: (i64, i64, i64)) -> (r: i128)
    requires
        in_coord_range(*o),
        in_coord_range(*a),
        in_coord_range(*b),
        -8_000_000_000_000 <= nrm.0 <= 8_000_000_000_000,
        -8_000_000_000_000 <= nrm.1 <= 8_000_000_000_000,
        -8_000_000_000_000 <= nrm.2 <= 8_000_000_000_000,
    ensures
        r == spec_side(*o, *a, *b, nrm),
{
    let ux: i64 = a.x - o.x;
    let uy: i64 = a.y - o.y;
    let uz: i64 = a.z - o.z;
    let vx: i64 = b.x - o.x;
    let vy: i64 = b.y - o.y;
    let vz: i64 = b.z - o.z;
    proof {
        lemma_mul_bound(uy as int, vz as int, 2_000_000, 2_000_000);
        lemma_mul_bound(uz as int, vy as int, 2_000_000, 2_000_000);
        lemma_mul_bound(uz as int, vx as int, 2_000_000, 2_000_000);
        lemma_mul_bound(ux as int, vz as int, 2_000_000, 2_000_000);
        lemma_mul_bound(ux as int, vy as int, 2_000_000, 2_000_000);
        lemma_mul_bound(uy as int, vx as int, 2_000_000, 2_000_000);
    }
    let cx: i64 = uy * vz - uz * vy;
    let cy: i64 = uz * vx - ux * vz;
    let cz: i64 = ux * vy - uy * vx;
    proof {
        lemma_mul_bound(cx as int, nrm.0 as int, 8_000_000_000_000, 8_000_000_000_000);
        lemma_mul_bound(cy as int, nrm.1 as int, 8_000_000_000_000, 8_000_000_000_000);
        lemma_mul_bound(cz as int, nrm.2 as int, 8_000_000_000_000, 8_000_000_000_000);
    }
    (cx as i128) * (nrm.0 as i128) + (cy as i128) * (nrm.1 as i128) + (cz as i128) * (nrm.2
        as i128)
}

impl Mesh {
    /// The cross product of the edge vectors of triangle `i`: a normal of its
    /// plane, used as the funnel's reference direction.
    fn tri_normal(&self, i: usize) -> (nrm: (i64, i64, i64))
        requires
            i < self@.tris.len(),
        ensures
            -8_000_000_000_000 <= nrm.0 <= 8_000_000_000_000,
            -8_000_000_000_000 <= nrm.1 <= 8_000_000_000_000,
            -8_000_000_000_000 <= nrm.2 <= 8_000_000_000_000,
    {
        self.wf_facts();
        assert(tri_wf(self@, i as int));
        let t = self.triangle(i);
        let pa = self.vertex(t.a);
        let pb = self.vertex(t.b);
        let pc = self.vertex(t.c);
        let ux: i64 = pb.x - pa.x;
        let uy: i64 = pb.y - pa.y;
        let uz: i64 = pb.z - pa.z;
        let vx: i64 = pc.x - pa.x;
        let vy: i64 = pc.y - pa.y;
        let vz: i64 = pc.z - pa.z;
        proof {
            lemma_mul_bound(uy as int, vz as int, 2_000_000, 2_000_000);
            lemma_mul_bound(uz as int, vy as int, 2_000_000, 2_000_000);
            lemma_mul_bound(uz as int, vx as int, 2_000_000, 2_000_000);
            lemma_mul_bound(ux as int, vz as int, 2_000_000, 2_000_000);
            lemma_mul_bound(ux as int, vy as int, 2_000_000, 2_000_000);
            lemma_mul_bound(uy as int, vx as int, 2_000_000, 2_000_000);
        }
        (uy * vz - uz * vy, uz * vx - ux * vz, ux * vy - uy * vx)
    }

    /// The portal between corridor triangles `k` and `k + 1`: its left and
    /// right vertices, taken from the winding order of triangle `k`.
    fn portal(&self, corridor: &Vec<usize>, k: usize) -> (lr: (Point, Point))
        requires
            is_chain(self@, corridor@),
            (k as int) < corridor@.len() - 1,
        ensures
            is_portal_point(self@, corridor@, lr.0),
            is_portal_point(self@, corridor@, lr.1),
            in_coord_range(lr.0),
            in_coord_range(lr.1),
    {
        self.wf_facts();
        let clen: usize = corridor.len();
        let ti: usize = corridor[k];
        let ui: usize = corridor[k + 1];
        assert(adjacent(self@, ti as int, ui as int));
        assert(tri_wf(self@, ti as int));
        proof {
            assert(idxs(self@.tris)[ti as int] == tri_idx(self@.tris[ti as int]));
        }
        let t = self.triangle(ti);
        let va = self.vertex(t.a);
        let vb = self.vertex(t.b);
        let vc = self.vertex(t.c);
        let m0: bool = match t.nab {
            Some(w) => w == ui,
            None => false,
        };
        if m0 {
            assert(nbr(self@.tris[ti as int], 0) matches Some(u) && u == corridor@[k as int + 1]);
            return (vb, va);
        }
        let m1: bool = match t.nbc {
            Some(w) => w == ui,
            None => false,
        };
        if m1 {
            assert(nbr(self@.tris[ti as int], 1) matches Some(u) && u == corridor@[k as int + 1]);
            return (vc, vb);
        }
        proof {
            let e = choose|e: int|
                0 <= e < 3 && ((#[trigger] nbr(self@.tris[ti as int], e)) matches Some(u) && u
                    as int == ui as int);
            assert(e == 2);
        }
        assert(nbr(self@.tris[ti as int], 2) matches Some(u) && u == corridor@[k as int + 1]);
        (va, vc)
    }

    /// Converts a corridor into a polyline from `sp` to `ep` by funnel
    /// string-pulling. The first point is `sp`, the last is `ep`, and every
    /// intermediate point is a vertex of one of the corridor's portal edges.
    /// A corridor of one triangle yields the direct two-point path.
    pub fn string_pull(&self, corridor: &Vec<usize>, sp: Point, ep: Point) -> (r: Vec<Point>)
        requires
            is_chain(self@, corridor@),
            corridor@.len() >= 1,
            in_coord_range(sp),
            in_coord_range(ep),
        ensures
            r@.len() >= 2,
            r@.first() == sp,
            r@.last() == ep,
            forall|k: int|
                0 < k < r@.len() - 1 ==> is_portal_point(self@, corridor@, #[trigger] r@[k]),
    {
        self.wf_facts();
        let mut path: Vec<Point> = Vec::new();
        path.push(sp);
        let m: usize = corridor.len() - 1;
        if m >= 1 {
            let nrm = self.tri_normal(corridor[0]);
            let p0 = self.portal(corridor, 0);
            let mut apex: Point = sp;
            let mut left: Point = p0.0;
            let mut right: Point = p0.1;
            let mut left_is_portal: bool = true;
            let mut right_is_portal: bool = true;
            let mut apex_i: usize = 0;
            let mut left_i: usize = 0;
            let mut right_i: usize = 0;
            let mut i: usize = 1;
            while i <= m
                invariant
                    mesh_wf(self@),
                    is_chain(self@, corridor@),
                    m == corridor@.len() - 1,
                    1 <= m,
                    m < usize::MAX,
                    in_coord_range(sp),
                    in_coord_range(ep),
                    in_coord_range(apex),
                    in_coord_range(left),
                    in_coord_range(right),
                    -8_000_000_000_000 <= nrm.0 <= 8_000_000_000_000,
                    -8_000_000_000_000 <= nrm.1 <= 8_000_000_000_000,
                    -8_000_000_000_000 <= nrm.2 <= 8_000_000_000_000,
                    path@.len() >= 1,
                    path@.first() == sp,
                    forall|k: int|
                        0 < k < path@.len() ==> is_portal_point(
                            self@,
                            corridor@,
                            #[trigger] path@[k],
                        ),
                    apex_i <= left_i,
                    apex_i <= right_i,
                    left_i <= m,
                    right_i <= m,
                    apex_i < i,
                    i <= m + 1,
                    left_is_portal && left_i > apex_i ==> is_portal_point(
                        self@,
                        corridor@,
                        left,
                    ),
                    right_is_portal && right_i > apex_i ==> is_portal_point(
                        self@,
                        corridor@,
                        right,
                    ),
                decreases m - apex_i, m + 1 - i,
            {
                let pl: Point;
                let pr: Point;
                let at_portal: bool = i < m;
                if at_portal {
                    let p = self.portal(corridor, i);
                    pl = p.0;
                    pr = p.1;
                } else {
                    pl = ep;
                    pr = ep;
                }
                if side(&apex, &right, &pr, nrm) >= 0 {
                    if apex == right || side(&apex, &left, &pr, nrm) < 0 {
                        right = pr;
                        right_i = i;
                        right_is_portal = at_portal;
                    } else if left_i > apex_i && left_is_portal && left != apex {
                        path.push(left);
                        apex = left;
                        apex_i = left_i;
                        left_i = apex_i;
                        right_i = apex_i;
                        right = apex;
                        left_is_portal = false;
                        right_is_portal = false;
                        i = apex_i + 1;
                        continue;
                    } else {
                        right = pr;
                        right_i = i;
                        right_is_portal = at_portal;
                    }
                }
                if side(&apex, &left, &pl, nrm) <= 0 {
                    if apex == left || side(&apex, &right, &pl, nrm) > 0 {
                        left = pl;
                        left_i = i;
                        left_is_portal = at_portal;
                    } else if right_i > apex_i && right_is_portal && right != apex {
                        path.push(right);
                        apex = right;
                        apex_i = right_i;
                        left_i = apex_i;
                        right_i = apex_i;
                        left = apex;
                        left_is_portal = false;
                        right_is_portal = false;
                        i = apex_i + 1;
                        continue;
                    } else {
                        left = pl;
                        left_i = i;
                        left_is_portal = at_portal;
                    }
                }
                i += 1;
            }
        }
        path.push(ep);
        path
    }
}

} // verus!
