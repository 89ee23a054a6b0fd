//! Exact collision queries on an integer grid.
//!
//! Shapes live on a lattice of 32-bit integer coordinates and are placed by
//! rigid motions of that lattice. Derived quantities that need a division
//! (times of impact, interpolated attributes) are exact fractions; Euclidean
//! lengths are rounded down to whole units. Bounding volumes are organised in
//! a static binary tree that prunes ray casts, point queries and
//! closest-point queries over meshes and compound shapes.
pub mod bounding_volume;
pub mod math;
pub mod partitioning;
pub mod procedural;
pub mod query;
pub mod shape;
