//! An offline Monte Carlo path tracer, verified end to end over
//! fixed-point arithmetic.
//!
//! Every scalar is an `i128` carrying a real number scaled by `fx::SCALE`;
//! each executable operation is pinned to a spec-level counterpart that
//! states its result exactly, so the geometry, material, and renderer
//! contracts can speak precisely about what is computed.  Randomness
//! enters only through the narrow wrappers in `utils`; everything
//! downstream of them is verified for every value they may return.
//!
//! The modules follow the data flow: scalar arithmetic (`fx`, `trig`),
//! vectors and rays (`vec3`, `ray`), bounding boxes (`aabb`), procedural
//! noise and textures (`perlin`, `texture`), materials (`material`),
//! geometry and the scene (`collider`), the BVH correctness laws (`bvh`),
//! sampling densities (`pdf`), the camera (`camera`), and the integrator
//! with the accumulation renderer (`render`).

pub mod fx;
pub mod utils;
pub mod vec3;
pub mod ray;
pub mod aabb;
pub mod trig;
pub mod perlin;
pub mod texture;
pub mod material;
pub mod collider;
pub mod camera;
pub mod render;
pub mod pdf;
pub mod bvh;
