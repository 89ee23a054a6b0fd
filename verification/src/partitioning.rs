//! The bounding-volume tree, its construction and its two traversals.
pub mod bvt;
pub mod bvt_build;
pub mod bvt_visit;
pub mod bvt_search;
