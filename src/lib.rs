//! Verified core of an offline Monte-Carlo path tracer.
//!
//! The modules hold the parts of the renderer that are decided on integers:
//! the coordinate axes, the index-linked layout of the bounding-volume
//! hierarchy, the sequential/parallel dispatch of a pixel's samples and the
//! plain-text image encoding.
pub mod aabb;
pub mod bvh;
pub mod ppm;
pub mod render;
