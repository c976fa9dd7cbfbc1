//! Adaptive right-triangulated irregular network (RTIN) terrain meshing.
//!
//! A square heightmap whose side is a power of two is covered by a complete
//! binary tree of right isosceles triangles.  A bottom-up pass records, for
//! every triangle, the worst linear-interpolation error over its subtree; a
//! top-down pass then keeps a triangle whole when its error is acceptable and
//! otherwise descends into its two children.  The selected triangles are
//! assembled into a deduplicated vertex/index mesh.

pub mod addressing;
pub mod errors;
pub mod heightmap;
pub mod mesh;
pub mod powers;
pub mod select;
