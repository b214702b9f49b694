use pathfinder::geom::{isqrt, Point};
use pathfinder::mesh::QueryMode;
use pathfinder::query::Pathfinder;

fn pt(x: i64, y: i64, z: i64) -> Point {
    Point { x, y, z }
}

/// The planar quad: vertices (0,0,0), (4,0,0), (4,0,4), (0,0,4), split into
/// triangles (0,1,2) and (0,2,3).
fn quad() -> Pathfinder {
    Pathfinder::new(
        &vec![0, 0, 0, 4, 0, 0, 4, 0, 4, 0, 0, 4],
        &vec![0, 1, 2, 0, 2, 3],
    )
}

fn path_length(path: &[Point]) -> f64 {
    let mut total: f64 = 0.0;
    for w in path.windows(2) {
        let dx = (w[1].x - w[0].x) as f64;
        let dy = (w[1].y - w[0].y) as f64;
        let dz = (w[1].z - w[0].z) as f64;
        total += (dx * dx + dy * dy + dz * dz).sqrt();
    }
    total
}

#[test]
fn planar_quad_diagonal_path() {
    let pf = quad();
    let path = pf.search_path(pt(0, 0, 0), pt(4, 0, 4), QueryMode::Accuracy);
    assert_eq!(path, vec![pt(0, 0, 0), pt(4, 0, 4)]);
    let expected = 4.0_f64 * 2.0_f64.sqrt();
    assert!((path_length(&path) - expected).abs() < 1e-9);
}

#[test]
fn planar_quad_sample_on_surface() {
    let pf = quad();
    assert_eq!(pf.sample(pt(2, 0, 2), QueryMode::Accuracy), Some(pt(2, 0, 2)));
    assert_eq!(pf.sample(pt(2, 0, 2), QueryMode::Performance), Some(pt(2, 0, 2)));
}

#[test]
fn sample_projects_onto_surface() {
    let pf = quad();
    assert_eq!(pf.sample(pt(2, 5, 2), QueryMode::Accuracy), Some(pt(2, 0, 2)));
    assert_eq!(pf.sample(pt(-3, -7, -3), QueryMode::Accuracy), Some(pt(0, 0, 0)));
}

#[test]
fn path_endpoints_are_projections() {
    let pf = quad();
    // Raw inputs hover above the surface; the path must start and end at
    // their projections, never at the raw points.
    let path = pf.search_path(pt(0, 5, 0), pt(4, 5, 4), QueryMode::Accuracy);
    assert_eq!(path.first(), Some(&pt(0, 0, 0)));
    assert_eq!(path.last(), Some(&pt(4, 0, 4)));
}

#[test]
fn same_triangle_gives_two_point_path() {
    let pf = quad();
    let path = pf.search_path(pt(1, 0, 1), pt(3, 0, 3), QueryMode::Accuracy);
    assert_eq!(path.len(), 2);
    assert_eq!(path, vec![pt(1, 0, 1), pt(3, 0, 3)]);
}

#[test]
fn disconnected_mesh_gives_empty_path() {
    // Two quads with no shared edges, far apart along x.
    let pf = Pathfinder::new(
        &vec![
            0, 0, 0, 4, 0, 0, 4, 0, 4, 0, 0, 4, //
            100, 0, 0, 104, 0, 0, 104, 0, 4, 100, 0, 4,
        ],
        &vec![0, 1, 2, 0, 2, 3, 4, 5, 6, 4, 6, 7],
    );
    assert_eq!(pf.build_error(), None);
    let path = pf.search_path(pt(0, 0, 0), pt(104, 0, 4), QueryMode::Accuracy);
    assert!(path.is_empty());
    // Within one group a route still exists.
    let path = pf.search_path(pt(0, 0, 0), pt(4, 0, 4), QueryMode::Accuracy);
    assert!(!path.is_empty());
}

#[test]
fn empty_mesh_gives_empty_results() {
    let pf = Pathfinder::new(&vec![], &vec![]);
    assert_eq!(pf.build_error(), None);
    assert!(pf.search_path(pt(0, 0, 0), pt(1, 0, 1), QueryMode::Accuracy).is_empty());
    assert_eq!(pf.sample(pt(0, 0, 0), QueryMode::Accuracy), None);
}

#[test]
fn failed_construction_gives_empty_results() {
    let pf = Pathfinder::new(&vec![0, 0, 0, 4, 0, 0, 4, 0, 4], &vec![0, 1, 9]);
    assert!(pf.build_error().is_some());
    assert!(pf.search_path(pt(0, 0, 0), pt(4, 0, 4), QueryMode::Accuracy).is_empty());
    assert_eq!(pf.sample(pt(1, 0, 1), QueryMode::Accuracy), None);
}

#[test]
fn out_of_range_query_gives_empty_results() {
    let pf = quad();
    assert!(pf.search_path(pt(2_000_000, 0, 0), pt(4, 0, 4), QueryMode::Accuracy).is_empty());
    assert_eq!(pf.sample(pt(0, 2_000_000, 0), QueryMode::Accuracy), None);
}

/// A strip of four coplanar triangles forming a 2 x 4 rectangle.
fn strip() -> Pathfinder {
    Pathfinder::new(
        &vec![
            0, 0, 0, 2, 0, 0, 0, 0, 2, 2, 0, 2, //
            0, 0, 4, 2, 0, 4,
        ],
        &vec![0, 1, 2, 1, 3, 2, 2, 3, 4, 3, 5, 4],
    )
}

#[test]
fn corridor_path_crosses_portal_vertices() {
    let pf = strip();
    assert_eq!(pf.build_error(), None);
    let path = pf.search_path(pt(0, 0, 0), pt(2, 0, 4), QueryMode::Accuracy);
    assert!(path.len() >= 2);
    assert_eq!(path.first(), Some(&pt(0, 0, 0)));
    assert_eq!(path.last(), Some(&pt(2, 0, 4)));
    // Every intermediate point is a portal vertex of the strip.
    let portal_vertices = [pt(2, 0, 0), pt(0, 0, 2), pt(2, 0, 2), pt(0, 0, 4)];
    for p in &path[1..path.len() - 1] {
        assert!(portal_vertices.contains(p));
    }
}

#[test]
fn bent_corridor_commits_a_portal_vertex() {
    // Three quads forming an L: right along x, then up along z. The taut
    // path must bend at the inner corner (2, 0, 2), a portal vertex.
    let pf = Pathfinder::new(
        &vec![
            0, 0, 0, 2, 0, 0, 2, 0, 2, 0, 0, 2, //
            4, 0, 0, 4, 0, 2, 4, 0, 4, 2, 0, 4,
        ],
        &vec![0, 1, 2, 0, 2, 3, 1, 4, 5, 1, 5, 2, 2, 5, 6, 2, 6, 7],
    );
    assert_eq!(pf.build_error(), None);
    let path = pf.search_path(pt(0, 0, 0), pt(3, 0, 4), QueryMode::Accuracy);
    assert_eq!(path.first(), Some(&pt(0, 0, 0)));
    assert_eq!(path.last(), Some(&pt(3, 0, 4)));
    assert!(path.len() >= 3);
    let portal_vertices = [pt(2, 0, 0), pt(2, 0, 2), pt(4, 0, 2), pt(4, 0, 4), pt(0, 0, 0)];
    for p in &path[1..path.len() - 1] {
        assert!(portal_vertices.contains(p));
    }
    assert!(path.contains(&pt(2, 0, 2)));
}

#[test]
fn repeated_queries_are_identical() {
    let pf = strip();
    let a = pf.search_path(pt(0, 0, 0), pt(2, 0, 4), QueryMode::Accuracy);
    let b = pf.search_path(pt(0, 0, 0), pt(2, 0, 4), QueryMode::Accuracy);
    assert_eq!(a, b);
    let c = pf.search_path(pt(0, 0, 0), pt(2, 0, 4), QueryMode::Performance);
    let d = pf.search_path(pt(0, 0, 0), pt(2, 0, 4), QueryMode::Performance);
    assert_eq!(c, d);
    let s1 = pf.sample(pt(1, 3, 3), QueryMode::Accuracy);
    let s2 = pf.sample(pt(1, 3, 3), QueryMode::Accuracy);
    assert_eq!(s1, s2);
}

#[test]
fn sample_clamps_to_nearest_vertex() {
    let pf = quad();
    // Far beyond the corner, the nearest surface point is the corner itself.
    assert_eq!(pf.sample(pt(10, 0, -10), QueryMode::Accuracy), Some(pt(4, 0, 0)));
}

#[test]
fn integer_square_root_is_exact() {
    assert_eq!(isqrt(0), 0);
    assert_eq!(isqrt(1), 1);
    assert_eq!(isqrt(35), 5);
    assert_eq!(isqrt(36), 6);
    assert_eq!(isqrt(u64::MAX), 4_294_967_295);
}

#[test]
fn point_range_check_matches_limit() {
    assert!(pt(1_000_000, -1_000_000, 0).in_range());
    assert!(!pt(1_000_001, 0, 0).in_range());
    assert!(!pt(0, 0, -1_000_001).in_range());
}
