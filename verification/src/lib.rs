//! The core of an offline ray tracer on exact arithmetic: vectors, rays and
//! their intersections with planes, triangles and bounding boxes, samplers,
//! reconstruction filters, and the partition of an image into blocks.
pub mod algebra;
pub mod angle;
pub mod color;
pub mod exact;
pub mod filter;
pub mod geometry;
pub mod img;
pub mod light;
pub mod material;
pub mod math;
pub mod ray;
pub mod renderer;
pub mod sampler;
pub mod scene;
