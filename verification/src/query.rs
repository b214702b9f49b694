//! The query facade: builds a pathfinder from flat construction buffers and
//! answers path and sample queries over the immutable mesh.
//!
//! Construction failures are kept, not raised: a pathfinder built from bad
//! input holds the error and answers every query with an empty result, so
//! queries are safe to call unconditionally. A missing route is likewise a
//! normal outcome: it comes back as an empty path, not an error.

use crate::funnel::is_portal_point;
use crate::geom::{in_coord_range, Point};
use crate::locate::{centroid_dist, is_centroid_nearest, is_nearest, spec_closest_of, tri_query_dist};
use crate::mesh::{
    coords_ok, indices_ok, mesh_wf, tris_nondegenerate, Mesh, MeshError, MeshView, QueryMode,
};
use crate::search::{connected, is_chain};
use vstd::arithmetic::div_mod::{lemma_fundamental_div_mod, lemma_mod_bound};
use vstd::prelude::*;

verus! {

/// The points encoded by a flat `x, y, z` coordinate buffer; an incomplete
/// trailing triple is ignored.
pub open spec fn points_of(s: Seq<i64>) -> Seq<Point> {
    Seq::new(
        s.len() / 3,
        |i: int| Point { x: s[3 * i], y: s[3 * i + 1], z: s[3 * i + 2] },
    )
}

/// The index triples encoded by a flat `i0, i1, i2` index buffer; an
/// incomplete trailing triple is ignored.
pub open spec fn triples_of(s: Seq<u32>) -> Seq<(u32, u32, u32)> {
    Seq::new(s.len() / 3, |i: int| (s[3 * i], s[3 * i + 1], s[3 * i + 2]))
}

/// Which triangle the locator resolves `p` to under the given mode.
pub open spec fn locate_idx_ok(v: MeshView, p: Point, mode: QueryMode, i: int) -> bool {
    if mode == QueryMode::Accuracy {
        is_nearest(v, p, i)
    } else {
        is_centroid_nearest(v, p, i)
    }
}

/// What a path query promises once start and end have resolved to triangles
/// `si` and `ei`: a shared triangle gives exactly the two projected points;
/// unreachable triangles give the empty path; a found route begins at the
/// projected start, ends at the projected end, and crosses only portal
/// vertices of some corridor from `si` to `ei`. In Performance mode the
/// search may also give up with an empty path.
pub open spec fn search_path_core(
    v: MeshView,
    start: Point,
    end: Point,
    mode: QueryMode,
    out: Seq<Point>,
    si: int,
    ei: int,
) -> bool {
    let ps = spec_closest_of(v, si, start);
    let pe = spec_closest_of(v, ei, end);
    if si == ei {
        out == seq![ps, pe]
    } else if !connected(v, si, ei) {
        out.len() == 0
    } else {
        (out.len() == 0 && mode == QueryMode::Performance) || {
            &&& out.len() >= 2
            &&& out.first() == ps
            &&& out.last() == pe
            &&& exists|c: Seq<usize>|
                #[trigger] is_chain(v, c) && c.len() >= 1 && c.first() as int == si
                    && c.last() as int == ei && forall|k: int|
                    0 < k < out.len() - 1 ==> is_portal_point(v, c, #[trigger] out[k])
        }
    }
}

/// Everything `search_path` promises of its result, over the mesh view:
/// out-of-range inputs and the empty mesh give the empty path; otherwise the
/// locator resolves both inputs and [`search_path_core`] holds of the
/// resolved pair.
pub open spec fn search_path_post(
    v: MeshView,
    start: Point,
    end: Point,
    mode: QueryMode,
    out: Seq<Point>,
) -> bool {
    if !in_coord_range(start) || !in_coord_range(end) || v.tris.len() == 0 {
        out.len() == 0
    } else {
        exists|si: int, ei: int|
            #[trigger] locate_idx_ok(v, start, mode, si) && #[trigger] locate_idx_ok(
                v,
                end,
                mode,
                ei,
            ) && search_path_core(v, start, end, mode, out, si, ei)
    }
}

/// The locator pins a point to at most one triangle.
pub proof fn lemma_locate_unique(v: MeshView, p: Point, mode: QueryMode, i1: int, i2: int)
    requires
        locate_idx_ok(v, p, mode, i1),
        locate_idx_ok(v, p, mode, i2),
    ensures
        i1 == i2,
{
    if mode == QueryMode::Accuracy {
        if i1 < i2 {
            assert(tri_query_dist(v, i2, p) < tri_query_dist(v, i1, p));
            assert(tri_query_dist(v, i1, p) <= tri_query_dist(v, i2, p));
        }
        if i2 < i1 {
            assert(tri_query_dist(v, i1, p) < tri_query_dist(v, i2, p));
            assert(tri_query_dist(v, i2, p) <= tri_query_dist(v, i1, p));
        }
    } else {
        if i1 < i2 {
            assert(centroid_dist(v, i2, p) < centroid_dist(v, i1, p));
            assert(centroid_dist(v, i1, p) <= centroid_dist(v, i2, p));
        }
        if i2 < i1 {
            assert(centroid_dist(v, i1, p) < centroid_dist(v, i2, p));
            assert(centroid_dist(v, i2, p) <= centroid_dist(v, i1, p));
        }
    }
}

/// What the path-query contract pins down is deterministic: under Accuracy
/// mode, two results for the same mesh, start, end and mode agree on whether
/// a path was found and, when one was, on its first and last points; when
/// start and end resolve to the same triangle the results are identical.
pub proof fn lemma_search_path_deterministic(
    v: MeshView,
    start: Point,
    end: Point,
    r1: Seq<Point>,
    r2: Seq<Point>,
)
    requires
        search_path_post(v, start, end, QueryMode::Accuracy, r1),
        search_path_post(v, start, end, QueryMode::Accuracy, r2),
    ensures
        r1.len() == 0 <==> r2.len() == 0,
        r1.len() != 0 ==> r1.first() == r2.first() && r1.last() == r2.last(),
{
    let mode = QueryMode::Accuracy;
    if in_coord_range(start) && in_coord_range(end) && v.tris.len() != 0 {
        let (si1, ei1) = choose|si: int, ei: int|
            #[trigger] locate_idx_ok(v, start, mode, si) && #[trigger] locate_idx_ok(
                v,
                end,
                mode,
                ei,
            ) && search_path_core(v, start, end, mode, r1, si, ei);
        let (si2, ei2) = choose|si: int, ei: int|
            #[trigger] locate_idx_ok(v, start, mode, si) && #[trigger] locate_idx_ok(
                v,
                end,
                mode,
                ei,
            ) && search_path_core(v, start, end, mode, r2, si, ei);
        lemma_locate_unique(v, start, mode, si1, si2);
        lemma_locate_unique(v, end, mode, ei1, ei2);
    }
}

/// Everything `sample` promises of its result, over the pathfinder view.
pub open spec fn sample_post(
    pv: Result<MeshView, MeshError>,
    p: Point,
    mode: QueryMode,
    r: Option<Point>,
) -> bool {
    match pv {
        Err(_) => r is None,
        Ok(v) => {
            if !in_coord_range(p) || v.tris.len() == 0 {
                r is None
            } else {
                exists|i: int|
                    #[trigger] locate_idx_ok(v, p, mode, i) && r == Some(spec_closest_of(v, i, p))
            }
        },
    }
}

/// The locator resolves a point to at most one triangle: the strict
/// lowest-index tie-break pins the choice, so repeated sample queries on the
/// same mesh, point and mode return the same result.
pub proof fn lemma_sample_deterministic(
    pv: Result<MeshView, MeshError>,
    p: Point,
    mode: QueryMode,
    r1: Option<Point>,
    r2: Option<Point>,
)
    requires
        sample_post(pv, p, mode, r1),
        sample_post(pv, p, mode, r2),
    ensures
        r1 == r2,
{
    match pv {
        Err(_) => {},
        Ok(v) => {
            if in_coord_range(p) && v.tris.len() != 0 {
                let i1 = choose|i: int|
                    #[trigger] locate_idx_ok(v, p, mode, i) && r1 == Some(spec_closest_of(v, i, p));
                let i2 = choose|i: int|
                    #[trigger] locate_idx_ok(v, p, mode, i) && r2 == Some(spec_closest_of(v, i, p));
                lemma_locate_unique(v, p, mode, i1, i2);
            }
        },
    }
}

/// A pathfinder: the outcome of one mesh construction, held for querying.
/// A failed construction is held as its error and makes every query return
/// an empty result.
pub struct Pathfinder {
    mesh: Result<Mesh, MeshError>,
}

impl View for Pathfinder {
    type V = Result<MeshView, MeshError>;

    closed spec fn view(&self) -> Result<MeshView, MeshError> {
        match self.mesh {
            Ok(m) => Ok(m@),
            Err(e) => Err(e),
        }
    }
}

impl Pathfinder {
    /// Builds a pathfinder from a flat vertex coordinate buffer (`x, y, z`
    /// triples) and a flat triangle index buffer (`i0, i1, i2` triples).
    /// Incomplete trailing triples are ignored. The construction outcome,
    /// success or failure, is recorded in the returned pathfinder.
    pub fn new(vertices: &Vec<i64>, triangles: &Vec<u32>) -> (r: Pathfinder)
        ensures
            ({
                let vs = points_of(vertices@);
                let ts = triples_of(triangles@);
                &&& (!coords_ok(vs) ==> r@ == Err::<MeshView, MeshError>(
                    MeshError::CoordinateOutOfBounds,
                ))
                &&& (coords_ok(vs) && !indices_ok(ts, vs.len() as int) ==> r@ == Err::<
                    MeshView,
                    MeshError,
                >(MeshError::InvalidIndex))
                &&& (coords_ok(vs) && indices_ok(ts, vs.len() as int) && !tris_nondegenerate(
                    vs,
                    ts,
                ) ==> r@ == Err::<MeshView, MeshError>(MeshError::DegenerateTriangle))
                &&& (coords_ok(vs) && indices_ok(ts, vs.len() as int) && tris_nondegenerate(vs, ts)
                    ==> r@ is Ok)
                &&& (r@ matches Ok(v) ==> {
                    &&& mesh_wf(v)
                    &&& v.verts == vs
                    &&& v.tris.len() == ts.len()
                    &&& forall|k: int|
                        0 <= k < ts.len() ==> {
                            let t = #[trigger] v.tris[k];
                            t.a == ts[k].0 as usize && t.b == ts[k].1 as usize && t.c == ts[k].2
                                as usize
                        }
                })
            }),
    {
        let vlen: usize = vertices.len();
        let vcount: usize = vlen / 3;
        proof {
            lemma_fundamental_div_mod(vlen as int, 3);
            lemma_mod_bound(vlen as int, 3);
        }
        let mut pts: Vec<Point> = Vec::new();
        let mut i: usize = 0;
        while i < vcount
            invariant
                vlen == vertices@.len(),
                vcount == vlen as int / 3,
                3 * (vcount as int) <= vlen as int,
                i <= vcount,
                pts@.len() == i,
                forall|k: int| 0 <= k < i ==> #[trigger] pts@[k] == points_of(vertices@)[k],
            decreases vcount - i,
        {
            let p = Point {
                x: vertices[3 * i],
                y: vertices[3 * i + 1],
                z: vertices[3 * i + 2],
            };
            pts.push(p);
            i += 1;
        }
        let tlen: usize = triangles.len();
        let tcount: usize = tlen / 3;
        proof {
            lemma_fundamental_div_mod(tlen as int, 3);
            lemma_mod_bound(tlen as int, 3);
        }
        let mut tris: Vec<(u32, u32, u32)> = Vec::new();
        i = 0;
        while i < tcount
            invariant
                tlen == triangles@.len(),
                tcount == tlen as int / 3,
                3 * (tcount as int) <= tlen as int,
                i <= tcount,
                tris@.len() == i,
                forall|k: int| 0 <= k < i ==> #[trigger] tris@[k] == triples_of(triangles@)[k],
            decreases tcount - i,
        {
            let t = (triangles[3 * i], triangles[3 * i + 1], triangles[3 * i + 2]);
            tris.push(t);
            i += 1;
        }
        proof {
            assert(pts@ =~= points_of(vertices@));
            assert(tris@ =~= triples_of(triangles@));
        }
        Pathfinder { mesh: Mesh::new(pts, tris) }
    }

    /// The construction error, if the pathfinder was built from bad input.
    pub fn build_error(&self) -> (r: Option<MeshError>)
        ensures
            r == match self@ {
                Ok(_) => None::<MeshError>,
                Err(e) => Some(e),
            },
    {
        match &self.mesh {
            Ok(_) => None,
            Err(e) => Some(*e),
        }
    }

    /// The built mesh, if construction succeeded.
    pub fn mesh(&self) -> (r: Option<&Mesh>)
        ensures
            match r {
                Some(m) => self@ == Ok::<MeshView, MeshError>(m@),
                None => self@ is Err,
            },
    {
        match &self.mesh {
            Ok(m) => Some(m),
            Err(_) => None,
        }
    }

    /// Searches a path from `start` to `end` over the mesh surface: both
    /// points are resolved to their nearest triangles, a corridor of adjacent
    /// triangles is searched, and the corridor is pulled into a polyline.
    /// The empty path reports every kind of absence: a failed construction,
    /// an out-of-range input, an empty mesh, or no route.
    pub fn search_path(&self, start: Point, end: Point, mode: QueryMode) -> (r: Vec<Point>)
        ensures
            match self@ {
                Err(_) => r@.len() == 0,
                Ok(v) => search_path_post(v, start, end, mode, r@),
            },
    {
        let m = match &self.mesh {
            Ok(m) => m,
            Err(_) => {
                return Vec::new();
            },
        };
        if !start.in_range() || !end.in_range() {
            return Vec::new();
        }
        let rs = match m.closest_point(&start, mode) {
            Some(x) => x,
            None => {
                return Vec::new();
            },
        };
        let re = match m.closest_point(&end, mode) {
            Some(x) => x,
            None => {
                return Vec::new();
            },
        };
        let (si, ps) = rs;
        let (ei, pe) = re;
        proof {
            assert(locate_idx_ok(m@, start, mode, si as int));
            assert(locate_idx_ok(m@, end, mode, ei as int));
        }
        if si == ei {
            let mut out: Vec<Point> = Vec::new();
            out.push(ps);
            out.push(pe);
            proof {
                assert(out@ =~= seq![ps, pe]);
            }
            return out;
        }
        let corridor = match m.find_corridor(si, ei, mode) {
            Some(c) => c,
            None => {
                return Vec::new();
            },
        };
        let path = m.string_pull(&corridor, ps, pe);
        proof {
            assert(corridor@.first() as int == si as int && corridor@.last() as int == ei as int);
        }
        path
    }

    /// Resolves `p` to the nearest point on the mesh surface, or `None` if
    /// the pathfinder holds no mesh, the mesh has no triangles, or `p` lies
    /// outside the fixed-point range.
    pub fn sample(&self, p: Point, mode: QueryMode) -> (r: Option<Point>)
        ensures
            sample_post(self@, p, mode, r),
    {
        let m = match &self.mesh {
            Ok(m) => m,
            Err(_) => {
                return None;
            },
        };
        if !p.in_range() {
            return None;
        }
        match m.closest_point(&p, mode) {
            Some((i, q)) => {
                proof {
                    assert(locate_idx_ok(m@, p, mode, i as int));
                }
                Some(q)
            },
            None => None,
        }
    }
}

} // verus!
