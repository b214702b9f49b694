use pathfinder::geom::Point;
use pathfinder::mesh::{Mesh, MeshError};
use pathfinder::query::Pathfinder;

fn quad_vertices() -> Vec<Point> {
    vec![
        Point { x: 0, y: 0, z: 0 },
        Point { x: 4, y: 0, z: 0 },
        Point { x: 4, y: 0, z: 4 },
        Point { x: 0, y: 0, z: 4 },
    ]
}

fn quad_triangles() -> Vec<(u32, u32, u32)> {
    vec![(0, 1, 2), (0, 2, 3)]
}

#[test]
fn valid_mesh_builds() {
    let m = Mesh::new(quad_vertices(), quad_triangles());
    assert!(m.is_ok());
    let m = m.unwrap();
    assert_eq!(m.vertex_count(), 4);
    assert_eq!(m.triangle_count(), 2);
}

#[test]
fn out_of_range_index_is_rejected() {
    let m = Mesh::new(quad_vertices(), vec![(0, 1, 2), (0, 2, 7)]);
    assert_eq!(m.err(), Some(MeshError::InvalidIndex));
}

#[test]
fn degenerate_triangle_is_rejected() {
    // Three collinear points.
    let verts = vec![
        Point { x: 0, y: 0, z: 0 },
        Point { x: 1, y: 0, z: 0 },
        Point { x: 2, y: 0, z: 0 },
    ];
    let m = Mesh::new(verts, vec![(0, 1, 2)]);
    assert_eq!(m.err(), Some(MeshError::DegenerateTriangle));
}

#[test]
fn coincident_vertices_are_rejected() {
    let verts = vec![
        Point { x: 0, y: 0, z: 0 },
        Point { x: 0, y: 0, z: 0 },
        Point { x: 2, y: 1, z: 0 },
    ];
    let m = Mesh::new(verts, vec![(0, 1, 2)]);
    assert_eq!(m.err(), Some(MeshError::DegenerateTriangle));
}

#[test]
fn out_of_range_coordinate_is_rejected() {
    let verts = vec![
        Point { x: 2_000_000, y: 0, z: 0 },
        Point { x: 1, y: 0, z: 0 },
        Point { x: 0, y: 1, z: 0 },
    ];
    let m = Mesh::new(verts, vec![(0, 1, 2)]);
    assert_eq!(m.err(), Some(MeshError::CoordinateOutOfBounds));
}

#[test]
fn index_error_takes_precedence_over_degeneracy() {
    // Both a degenerate triangle and an out-of-range index: the index check
    // runs over the whole buffer first.
    let verts = vec![
        Point { x: 0, y: 0, z: 0 },
        Point { x: 1, y: 0, z: 0 },
        Point { x: 2, y: 0, z: 0 },
    ];
    let m = Mesh::new(verts, vec![(0, 1, 2), (0, 1, 9)]);
    assert_eq!(m.err(), Some(MeshError::InvalidIndex));
}

#[test]
fn adjacency_of_shared_edge_is_mutual() {
    let m = Mesh::new(quad_vertices(), quad_triangles()).unwrap();
    let t0 = m.triangle(0);
    let t1 = m.triangle(1);
    // Triangle 0 = (0, 1, 2): the shared edge {0, 2} is its (c, a) edge.
    assert_eq!(t0.nab, None);
    assert_eq!(t0.nbc, None);
    assert_eq!(t0.nca, Some(1));
    // Triangle 1 = (0, 2, 3): the shared edge {0, 2} is its (a, b) edge.
    assert_eq!(t1.nab, Some(0));
    assert_eq!(t1.nbc, None);
    assert_eq!(t1.nca, None);
}

#[test]
fn non_manifold_edge_pairs_first_two_only() {
    // Three triangles share the edge {0, 1}: the first two become mutual
    // neighbors, the third sees a boundary there.
    let verts = vec![
        Point { x: 0, y: 0, z: 0 },
        Point { x: 2, y: 0, z: 0 },
        Point { x: 1, y: 1, z: 0 },
        Point { x: 1, y: -1, z: 0 },
        Point { x: 1, y: 0, z: 2 },
    ];
    let tris = vec![(0, 1, 2), (0, 1, 3), (0, 1, 4)];
    let m = Mesh::new(verts, tris).unwrap();
    assert_eq!(m.triangle(0).nab, Some(1));
    assert_eq!(m.triangle(1).nab, Some(0));
    assert_eq!(m.triangle(2).nab, None);
}

#[test]
fn pathfinder_records_construction_outcome() {
    let good = Pathfinder::new(
        &vec![0, 0, 0, 4, 0, 0, 4, 0, 4, 0, 0, 4],
        &vec![0, 1, 2, 0, 2, 3],
    );
    assert_eq!(good.build_error(), None);
    assert!(good.mesh().is_some());

    let bad = Pathfinder::new(&vec![0, 0, 0, 4, 0, 0, 4, 0, 4], &vec![0, 1, 9]);
    assert_eq!(bad.build_error(), Some(MeshError::InvalidIndex));
    assert!(bad.mesh().is_none());
}

#[test]
fn incomplete_trailing_triples_are_ignored() {
    // One stray coordinate and one stray index do not change the mesh.
    let pf = Pathfinder::new(
        &vec![0, 0, 0, 4, 0, 0, 4, 0, 4, 0, 0, 4, 7],
        &vec![0, 1, 2, 0, 2, 3, 1],
    );
    assert_eq!(pf.build_error(), None);
    let m = pf.mesh().unwrap();
    assert_eq!(m.vertex_count(), 4);
    assert_eq!(m.triangle_count(), 2);
}
