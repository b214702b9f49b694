//! The mesh builder: validates a vertex list and a triangle index list,
//! computes shared-edge adjacency between triangles, and produces an
//! immutable mesh graph.
//!
//! Adjacency follows a permissive non-manifold policy: for each undirected
//! edge, the first two triangles (in index order) that touch it become mutual
//! neighbors across it; any further triangle touching the same edge is treated
//! as if the edge were a boundary for it.

use crate::geom::{
    in_coord_range, is_degenerate, spec_centroid3_ok, spec_degenerate, Point,
};
use vstd::prelude::*;

verus! {

/// Why a mesh could not be built. Construction failures are terminal: a
/// pathfinder holding one answers every query with an empty result.
#[derive(Clone, Copy, PartialEq, Eq, Structural, Debug)]
pub enum MeshError {
    /// A triangle references a vertex index outside the vertex buffer.
    InvalidIndex,
    /// A triangle's three vertices are collinear or coincident.
    DegenerateTriangle,
    /// A vertex coordinate lies outside the fixed-point range.
    CoordinateOutOfBounds,
}

/// Per-call query policy: `Accuracy` pays for the exact answer, `Performance`
/// restricts the work done and may return an approximate one.
#[derive(Clone, Copy, PartialEq, Eq, Structural, Debug)]
pub enum QueryMode {
    Accuracy,
    Performance,
}

/// A triangle of the mesh: three vertex indices in winding order, the
/// precomputed neighbor (if any) across each of its three edges, and three
/// times its centroid (kept unscaled so that it stays an exact integer point).
#[derive(Clone, Copy, Debug)]
pub struct Triangle {
    pub a: usize,
    pub b: usize,
    pub c: usize,
    /// Neighbor sharing edge (a, b).
    pub nab: Option<usize>,
    /// Neighbor sharing edge (b, c).
    pub nbc: Option<usize>,
    /// Neighbor sharing edge (c, a).
    pub nca: Option<usize>,
    /// The vector sum of the three vertices: three times the centroid.
    pub centroid3: Point,
}

/// The mathematical content of a mesh: its vertex pool and triangle arena.
pub struct MeshView {
    pub verts: Seq<Point>,
    pub tris: Seq<Triangle>,
}

/// An immutable navigation mesh: a vertex pool and a flat arena of triangles
/// with precomputed, symmetric shared-edge adjacency.
pub struct Mesh {
    vertices: Vec<Point>,
    triangles: Vec<Triangle>,
}

/// The index triple of a triangle, the part of it that adjacency depends on.
pub open spec fn tri_idx(t: Triangle) -> (int, int, int) {
    (t.a as int, t.b as int, t.c as int)
}

/// The index triples of a whole triangle arena.
pub open spec fn idxs(tris: Seq<Triangle>) -> Seq<(int, int, int)> {
    tris.map_values(|t: Triangle| tri_idx(t))
}

/// First endpoint of edge `e` (0, 1 or 2) of an index triple, in winding order.
pub open spec fn edge_a(t: (int, int, int), e: int) -> int {
    if e == 0 {
        t.0
    } else if e == 1 {
        t.1
    } else {
        t.2
    }
}

/// Second endpoint of edge `e` of an index triple, in winding order.
pub open spec fn edge_b(t: (int, int, int), e: int) -> int {
    if e == 0 {
        t.1
    } else if e == 1 {
        t.2
    } else {
        t.0
    }
}

/// Whether edge `e` of `t` is the undirected edge `{x, y}`.
pub open spec fn edge_matches(t: (int, int, int), e: int, x: int, y: int) -> bool {
    (edge_a(t, e) == x && edge_b(t, e) == y) || (edge_a(t, e) == y && edge_b(t, e) == x)
}

/// Whether some edge of `t` is the undirected edge `{x, y}`.
pub open spec fn tri_has_edge(t: (int, int, int), x: int, y: int) -> bool {
    edge_matches(t, 0, x, y) || edge_matches(t, 1, x, y) || edge_matches(t, 2, x, y)
}

/// The first position `>= k` whose triangle touches the undirected edge
/// `{x, y}`, or `None` if there is none.
pub open spec fn first_occ_from(s: Seq<(int, int, int)>, x: int, y: int, k: int) -> Option<int>
    decreases s.len() - k,
{
    if k < 0 || k >= s.len() {
        None
    } else if tri_has_edge(s[k], x, y) {
        Some(k)
    } else {
        first_occ_from(s, x, y, k + 1)
    }
}

/// The neighbor of triangle `i` across its undirected edge `{x, y}`, under
/// the first-two-encountered policy: the first two triangles touching an edge
/// become mutual neighbors across it, all later ones get a boundary there.
pub open spec fn spec_neighbor_xy(s: Seq<(int, int, int)>, i: int, x: int, y: int) -> Option<
    usize,
> {
    match first_occ_from(s, x, y, 0) {
        None => None,
        Some(f) => if f == i {
            match first_occ_from(s, x, y, i + 1) {
                Some(n) => Some(n as usize),
                None => None,
            }
        } else {
            if first_occ_from(s, x, y, f + 1) == Some(i) {
                Some(f as usize)
            } else {
                None
            }
        },
    }
}

/// The neighbor of triangle `i` across its edge slot `e`.
pub open spec fn spec_neighbor(s: Seq<(int, int, int)>, i: int, e: int) -> Option<usize> {
    spec_neighbor_xy(s, i, edge_a(s[i], e), edge_b(s[i], e))
}

/// The neighbor field of a triangle record for edge slot `e`.
pub open spec fn nbr(t: Triangle, e: int) -> Option<usize> {
    if e == 0 {
        t.nab
    } else if e == 1 {
        t.nbc
    } else {
        t.nca
    }
}

/// All vertex coordinates lie within the fixed-point range.
pub open spec fn coords_ok(verts: Seq<Point>) -> bool {
    forall|k: int| 0 <= k < verts.len() ==> in_coord_range(#[trigger] verts[k])
}

/// Every triangle of the input references only existing vertices.
pub open spec fn indices_ok(tris: Seq<(u32, u32, u32)>, nverts: int) -> bool {
    forall|k: int|
        0 <= k < tris.len() ==> {
            let t = #[trigger] tris[k];
            (t.0 as int) < nverts && (t.1 as int) < nverts && (t.2 as int) < nverts
        }
}

/// No triangle of the input has collinear or coincident vertices.
pub open spec fn tris_nondegenerate(verts: Seq<Point>, tris: Seq<(u32, u32, u32)>) -> bool {
    forall|k: int|
        0 <= k < tris.len() ==> {
            let t = #[trigger] tris[k];
            !spec_degenerate(verts[t.0 as int], verts[t.1 as int], verts[t.2 as int])
        }
}

/// Well-formedness of one triangle record within a mesh: indices in bounds,
/// strictly positive area, correct centroid, and neighbors exactly as the
/// first-two-encountered adjacency policy assigns them.
pub open spec fn tri_wf(v: MeshView, i: int) -> bool {
    let t = v.tris[i];
    &&& (t.a as int) < v.verts.len()
    &&& (t.b as int) < v.verts.len()
    &&& (t.c as int) < v.verts.len()
    &&& !spec_degenerate(v.verts[t.a as int], v.verts[t.b as int], v.verts[t.c as int])
    &&& spec_centroid3_ok(
        v.verts[t.a as int],
        v.verts[t.b as int],
        v.verts[t.c as int],
        t.centroid3,
    )
    &&& t.nab == spec_neighbor(idxs(v.tris), i, 0)
    &&& t.nbc == spec_neighbor(idxs(v.tris), i, 1)
    &&& t.nca == spec_neighbor(idxs(v.tris), i, 2)
}

/// Well-formedness of a whole mesh. Every mesh the builder returns satisfies
/// this; queries rely on it.
pub open spec fn mesh_wf(v: MeshView) -> bool {
    &&& v.verts.len() <= usize::MAX
    &&& v.tris.len() <= usize::MAX
    &&& coords_ok(v.verts)
    &&& forall|i: int| 0 <= i < v.tris.len() ==> #[trigger] tri_wf(v, i)
}

impl View for Mesh {
    type V = MeshView;

    closed spec fn view(&self) -> MeshView {
        MeshView { verts: self.vertices@, tris: self.triangles@ }
    }
}

impl Mesh {
    #[verifier::type_invariant]
    closed spec fn type_wf(self) -> bool {
        mesh_wf(self@)
    }

    /// Every mesh value is well-formed; this republishes the type invariant
    /// so that callers can reason from it.
    pub fn wf_facts(&self)
        ensures
            mesh_wf(self@),
    {
        proof {
            use_type_invariant(self);
        }
    }

    /// How many vertices the mesh holds.
    pub fn vertex_count(&self) -> (n: usize)
        ensures
            n == self@.verts.len(),
    {
        self.vertices.len()
    }

    /// How many triangles the mesh holds.
    pub fn triangle_count(&self) -> (n: usize)
        ensures
            n == self@.tris.len(),
    {
        self.triangles.len()
    }

    /// The triangle record at index `i`.
    pub fn triangle(&self, i: usize) -> (t: Triangle)
        requires
            i < self@.tris.len(),
        ensures
            t == self@.tris[i as int],
    {
        self.triangles[i]
    }

    /// The vertex at index `i`.
    pub fn vertex(&self, i: usize) -> (p: Point)
        requires
            i < self@.verts.len(),
        ensures
            p == self@.verts[i as int],
    {
        self.vertices[i]
    }

    /// Builds a mesh from a vertex pool and triangle index triples.
    ///
    /// Fails with `CoordinateOutOfBounds` if a vertex lies outside the
    /// fixed-point range, else with `InvalidIndex` if a triangle references a
    /// vertex index out of range, else with `DegenerateTriangle` if a
    /// triangle has collinear or coincident vertices; succeeds exactly on the
    /// remaining inputs, with the vertices kept as given, the index triples
    /// kept in order, and adjacency assigned by the first-two-encountered
    /// policy.
    pub fn new(vertices: Vec<Point>, triangles: Vec<(u32, u32, u32)>) -> (r: Result<
        Mesh,
        MeshError,
    >)
        ensures
            !coords_ok(vertices@) ==> r == Err::<Mesh, MeshError>(MeshError::CoordinateOutOfBounds),
            coords_ok(vertices@) && !indices_ok(triangles@, vertices@.len() as int) ==> r == Err::<
                Mesh,
                MeshError,
            >(MeshError::InvalidIndex),
            coords_ok(vertices@) && indices_ok(triangles@, vertices@.len() as int)
                && !tris_nondegenerate(vertices@, triangles@) ==> r == Err::<Mesh, MeshError>(
                MeshError::DegenerateTriangle,
            ),
            coords_ok(vertices@) && indices_ok(triangles@, vertices@.len() as int)
                && tris_nondegenerate(vertices@, triangles@) ==> r is Ok,
            r matches Ok(m) ==> {
                &&& mesh_wf(m@)
                &&& m@.verts == vertices@
                &&& m@.tris.len() == triangles@.len()
                &&& forall|k: int|
                    0 <= k < triangles@.len() ==> {
                        let t = #[trigger] m@.tris[k];
                        t.a == triangles@[k].0 as usize && t.b == triangles@[k].1 as usize && t.c
                            == triangles@[k].2 as usize
                    }
            },
    {
        let nverts: usize = vertices.len();
        let mut i: usize = 0;
        while i < nverts
            invariant
                nverts == vertices@.len(),
                i <= nverts,
                forall|k: int| 0 <= k < i ==> in_coord_range(#[trigger] vertices@[k]),
            decreases nverts - i,
        {
            if !vertices[i].in_range() {
                return Err(MeshError::CoordinateOutOfBounds);
            }
            i += 1;
        }
        let ntris: usize = triangles.len();
        i = 0;
        while i < ntris
            invariant
                ntris == triangles@.len(),
                nverts == vertices@.len(),
                coords_ok(vertices@),
                i <= ntris,
                forall|k: int|
                    0 <= k < i ==> {
                        let t = #[trigger] triangles@[k];
                        (t.0 as int) < nverts as int && (t.1 as int) < nverts as int && (t.2
                            as int) < nverts as int
                    },
            decreases ntris - i,
        {
            let t = triangles[i];
            if t.0 as usize >= nverts || t.1 as usize >= nverts || t.2 as usize >= nverts {
                return Err(MeshError::InvalidIndex);
            }
            i += 1;
        }
        let mut base: Vec<Triangle> = Vec::new();
        i = 0;
        while i < ntris
            invariant
                ntris == triangles@.len(),
                nverts == vertices@.len(),
                coords_ok(vertices@),
                indices_ok(triangles@, nverts as int),
                i <= ntris,
                base@.len() == i,
                forall|k: int|
                    0 <= k < i ==> {
                        let t = #[trigger] base@[k];
                        t.a == triangles@[k].0 as usize && t.b == triangles@[k].1 as usize && t.c
                            == triangles@[k].2 as usize && t.nab is None && t.nbc is None && t.nca
                            is None
                    },
                forall|k: int|
                    0 <= k < i ==> !spec_degenerate(
                        vertices@[(#[trigger] triangles@[k]).0 as int],
                        vertices@[triangles@[k].1 as int],
                        vertices@[triangles@[k].2 as int],
                    ),
                forall|k: int|
                    0 <= k < i ==> spec_centroid3_ok(
                        vertices@[(#[trigger] base@[k]).a as int],
                        vertices@[base@[k].b as int],
                        vertices@[base@[k].c as int],
                        base@[k].centroid3,
                    ),
            decreases ntris - i,
        {
            let t = triangles[i];
            let a: usize = t.0 as usize;
            let b: usize = t.1 as usize;
            let c: usize = t.2 as usize;
            let pa = vertices[a];
            let pb = vertices[b];
            let pc = vertices[c];
            if is_degenerate(&pa, &pb, &pc) {
                return Err(MeshError::DegenerateTriangle);
            }
            let cx: i64 = pa.x + pb.x + pc.x;
            let cy: i64 = pa.y + pb.y + pc.y;
            let cz: i64 = pa.z + pb.z + pc.z;
            base.push(
                Triangle {
                    a,
                    b,
                    c,
                    nab: None,
                    nbc: None,
                    nca: None,
                    centroid3: Point { x: cx, y: cy, z: cz },
                },
            );
            i += 1;
        }
        let mut out: Vec<Triangle> = Vec::new();
        i = 0;
        while i < ntris
            invariant
                ntris == triangles@.len(),
                nverts == vertices@.len(),
                coords_ok(vertices@),
                indices_ok(triangles@, nverts as int),
                tris_nondegenerate(vertices@, triangles@),
                base@.len() == ntris,
                i <= ntris,
                out@.len() == i,
                forall|k: int|
                    0 <= k < ntris ==> {
                        let t = #[trigger] base@[k];
                        t.a == triangles@[k].0 as usize && t.b == triangles@[k].1 as usize && t.c
                            == triangles@[k].2 as usize
                    },
                forall|k: int|
                    0 <= k < ntris ==> (#[trigger] base@[k]).a < nverts && base@[k].b < nverts
                        && base@[k].c < nverts,
                forall|k: int|
                    0 <= k < ntris ==> !spec_degenerate(
                        vertices@[(#[trigger] base@[k]).a as int],
                        vertices@[base@[k].b as int],
                        vertices@[base@[k].c as int],
                    ),
                forall|k: int|
                    0 <= k < ntris ==> spec_centroid3_ok(
                        vertices@[(#[trigger] base@[k]).a as int],
                        vertices@[base@[k].b as int],
                        vertices@[base@[k].c as int],
                        base@[k].centroid3,
                    ),
                forall|k: int|
                    0 <= k < i ==> {
                        let t = #[trigger] out@[k];
                        t.a == base@[k].a && t.b == base@[k].b && t.c == base@[k].c && t.centroid3
                            == base@[k].centroid3 && t.nab == spec_neighbor_xy(
                            idxs(base@),
                            k,
                            t.a as int,
                            t.b as int,
                        ) && t.nbc == spec_neighbor_xy(idxs(base@), k, t.b as int, t.c as int)
                            && t.nca == spec_neighbor_xy(idxs(base@), k, t.c as int, t.a as int)
                    },
            decreases ntris - i,
        {
            let t = base[i];
            let nab = neighbor_for(&base, i, t.a, t.b);
            let nbc = neighbor_for(&base, i, t.b, t.c);
            let nca = neighbor_for(&base, i, t.c, t.a);
            out.push(Triangle { a: t.a, b: t.b, c: t.c, nab, nbc, nca, centroid3: t.centroid3 });
            i += 1;
        }
        let ghost gv = MeshView { verts: vertices@, tris: out@ };
        proof {
            assert forall|k: int| 0 <= k < ntris implies idxs(out@)[k] == idxs(base@)[k] by {
                assert(idxs(out@)[k] == tri_idx(out@[k]));
                assert(idxs(base@)[k] == tri_idx(base@[k]));
            }
            assert(idxs(out@) =~= idxs(base@));
            assert forall|k: int| 0 <= k < gv.tris.len() implies #[trigger] tri_wf(gv, k) by {
                let t = out@[k];
                assert(idxs(out@)[k] == tri_idx(t));
                assert(edge_a(tri_idx(t), 0) == t.a as int && edge_b(tri_idx(t), 0) == t.b as int);
                assert(edge_a(tri_idx(t), 1) == t.b as int && edge_b(tri_idx(t), 1) == t.c as int);
                assert(edge_a(tri_idx(t), 2) == t.c as int && edge_b(tri_idx(t), 2) == t.a as int);
            }
            assert(mesh_wf(gv));
        }
        let m = Mesh { vertices, triangles: out };
        assert(m@ == gv);
        Ok(m)
    }
}

/// A scan that finds `j` finds it within range and on the edge.
proof fn lemma_first_occ_bounds(s: Seq<(int, int, int)>, x: int, y: int, k: int)
    ensures
        first_occ_from(s, x, y, k) matches Some(j) ==> k <= j < s.len() && tri_has_edge(
            s[j],
            x,
            y,
        ),
    decreases s.len() - k,
{
    if 0 <= k < s.len() && !tri_has_edge(s[k], x, y) {
        lemma_first_occ_bounds(s, x, y, k + 1);
    }
}

/// A scan from `k` cannot miss a triangle at `i >= k` that touches the edge.
proof fn lemma_first_occ_finds(s: Seq<(int, int, int)>, x: int, y: int, k: int, i: int)
    requires
        0 <= k <= i < s.len(),
        tri_has_edge(s[i], x, y),
    ensures
        first_occ_from(s, x, y, k) matches Some(j) && j <= i,
    decreases i - k,
{
    if !tri_has_edge(s[k], x, y) {
        lemma_first_occ_finds(s, x, y, k + 1, i);
    }
}

/// The scan does not care in which order the edge endpoints are given.
proof fn lemma_first_occ_swap(s: Seq<(int, int, int)>, x: int, y: int, k: int)
    ensures
        first_occ_from(s, x, y, k) == first_occ_from(s, y, x, k),
    decreases s.len() - k,
{
    if 0 <= k < s.len() && !tri_has_edge(s[k], x, y) {
        lemma_first_occ_swap(s, x, y, k + 1);
    }
}

/// Adjacency symmetry: in a well-formed mesh, if triangle `i` has `j` as its
/// neighbor across edge slot `e`, then `j` lists `i` back as its neighbor
/// across its own slot that carries the same undirected edge.
pub proof fn lemma_adjacency_symmetric(v: MeshView, i: int, e: int)
    requires
        mesh_wf(v),
        0 <= i < v.tris.len(),
        0 <= e < 3,
        nbr(v.tris[i], e) is Some,
    ensures
        ({
            let j = nbr(v.tris[i], e)->Some_0 as int;
            &&& 0 <= j < v.tris.len()
            &&& j != i
            &&& exists|e2: int|
                0 <= e2 < 3 && #[trigger] nbr(v.tris[j], e2) == Some(i as usize) && edge_matches(
                    idxs(v.tris)[j],
                    e2,
                    edge_a(idxs(v.tris)[i], e),
                    edge_b(idxs(v.tris)[i], e),
                )
        }),
{
    let s = idxs(v.tris);
    let x = edge_a(s[i], e);
    let y = edge_b(s[i], e);
    assert(tri_wf(v, i));
    assert(s[i] == tri_idx(v.tris[i]));
    assert(nbr(v.tris[i], e) == spec_neighbor_xy(s, i, x, y));
    assert(tri_has_edge(s[i], x, y));
    lemma_first_occ_finds(s, x, y, 0, i);
    lemma_first_occ_bounds(s, x, y, 0);
    let f = first_occ_from(s, x, y, 0)->Some_0;
    lemma_first_occ_bounds(s, x, y, i + 1);
    lemma_first_occ_bounds(s, x, y, f + 1);
    let j = nbr(v.tris[i], e)->Some_0 as int;
    assert(0 <= j < v.tris.len() && j != i);
    assert(tri_has_edge(s[j], x, y));
    assert(tri_wf(v, j));
    assert(s[j] == tri_idx(v.tris[j]));
    let e2: int = if edge_matches(s[j], 0, x, y) {
        0
    } else if edge_matches(s[j], 1, x, y) {
        1
    } else {
        2
    };
    assert(edge_matches(s[j], e2, x, y));
    let x2 = edge_a(s[j], e2);
    let y2 = edge_b(s[j], e2);
    lemma_first_occ_swap(s, x, y, 0);
    lemma_first_occ_swap(s, x, y, i + 1);
    lemma_first_occ_swap(s, x, y, j + 1);
    assert(nbr(v.tris[j], e2) == spec_neighbor_xy(s, j, x2, y2));
    assert(nbr(v.tris[j], e2) == Some(i as usize));
}

/// The first triangle at position `>= from` touching the undirected edge
/// `{x, y}`, by a linear scan.
fn find_occ(tris: &Vec<Triangle>, x: usize, y: usize, from: usize) -> (r: Option<usize>)
    ensures
        match r {
            Some(j) => Some(j as int) == first_occ_from(idxs(tris@), x as int, y as int, from as int)
                && from <= j < tris@.len(),
            None => first_occ_from(idxs(tris@), x as int, y as int, from as int) is None,
        },
{
    let n: usize = tris.len();
    let mut k: usize = from;
    while k < n
        invariant
            n == tris@.len(),
            from <= k,
            first_occ_from(idxs(tris@), x as int, y as int, from as int) == first_occ_from(
                idxs(tris@),
                x as int,
                y as int,
                k as int,
            ),
        decreases n - k,
    {
        let t = tris[k];
        if (t.a == x && t.b == y) || (t.a == y && t.b == x) || (t.b == x && t.c == y) || (t.b == y
            && t.c == x) || (t.c == x && t.a == y) || (t.c == y && t.a == x) {
            assert(tri_has_edge(idxs(tris@)[k as int], x as int, y as int));
            return Some(k);
        }
        assert(!tri_has_edge(idxs(tris@)[k as int], x as int, y as int));
        k += 1;
    }
    None
}

/// The neighbor of triangle `i` across its undirected edge `{x, y}` under the
/// first-two-encountered policy.
fn neighbor_for(base: &Vec<Triangle>, i: usize, x: usize, y: usize) -> (r: Option<usize>)
    requires
        i < base@.len(),
    ensures
        r == spec_neighbor_xy(idxs(base@), i as int, x as int, y as int),
{
    let n: usize = base.len();
    let f = find_occ(base, x, y, 0);
    match f {
        None => None,
        Some(fi) => {
            if fi == i {
                match find_occ(base, x, y, i + 1) {
                    Some(s) => Some(s),
                    None => None,
                }
            } else {
                let s = find_occ(base, x, y, fi + 1);
                match s {
                    Some(sv) => if sv == i {
                        Some(fi)
                    } else {
                        None
                    },
                    None => None,
                }
            }
        },
    }
}

} // verus!
