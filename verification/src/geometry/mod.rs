//! Triangles, meshes and objects, and the boxes that bound them.
pub mod bounding_box;
pub mod laws;
pub mod obj3d;
pub mod obj_parser;
pub mod placement;
