//! Shapes: primitives, meshes and compounds.
pub mod mesh;
pub mod trimesh;
pub mod compound;
pub mod plane;
pub mod cuboid;
pub mod triangle;
