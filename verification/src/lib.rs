//! An offline ray-traced renderer, verified with Verus.
//!
//! Geometry is modelled in fixed-point arithmetic: every coordinate is an
//! `i64` holding `SCALE` units per world unit, and ray parameters are exact
//! rationals.  The crate provides axis-aligned bounding volumes, a spatial
//! partition tree over object indices, recursive shading with stochastic
//! soft shadows, and the chunked work dispatcher of the parallel renderer.

pub mod math;
pub mod vec3;
pub mod axis;
pub mod dist;
pub mod ray;
pub mod bbox;
pub mod material;
pub mod intersect;
pub mod projectable;
pub mod boundable;
pub mod raylover;
pub mod light;
pub mod camera;
pub mod kdtree;
pub mod scene;
pub mod shade;
pub mod render;
