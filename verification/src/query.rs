//! Queries: ray casts, point queries and closest points, on shapes and
//! through the bounding-volume tree.
pub mod ray;
pub mod ray_search;
pub mod ray_mesh;
pub mod ray_compound;
pub mod ray_cuboid;
pub mod point;
pub mod closest_points;
pub mod composite_shape_against_shape;
pub mod closest_points_cuboid;
pub mod visitors;
