//! A navigation-mesh pathfinding engine.
//!
//! The library ingests a triangulated 3D surface mesh given as flat vertex and
//! index buffers, validates it and computes shared-edge adjacency between its
//! triangles, and answers two kinds of queries over the immutable result:
//! shortest-path search between two world points (nearest-triangle resolution,
//! best-first corridor search over the adjacency graph, then funnel
//! string-pulling of the corridor into a polyline) and closest-point-on-surface
//! sampling.
//!
//! Coordinates are fixed-point: every coordinate is an `i64` holding a scaled
//! world coordinate chosen by the caller, bounded by [`geom::COORD_LIMIT`] so
//! that all geometric arithmetic stays exact and free of overflow.

pub mod funnel;
pub mod geom;
pub mod locate;
pub mod mesh;
pub mod query;
pub mod search;
