//! A verified spatial-index library: axis-aligned bounding boxes in 2D and
//! 3D, an AABB tree for 2D collision queries, and an octree for 3D point
//! decimation.
//!
//! Coordinates are fixed-point values held in `i64` and bounded by
//! [`COORD_MAX`](point_2d::COORD_MAX), so every geometric test in this crate
//! is exact and free of overflow.

pub mod aa_bb_tree_2d;
pub mod bounding_box_2d;
pub mod bounding_box_3d;
pub mod functions;
pub mod oc_tree;
pub mod point_2d;
pub mod point_3d;
pub mod point_cloud_3d;
pub mod result;
pub mod traits;
