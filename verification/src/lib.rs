//! The core of a path tracer: a bounding-volume hierarchy over the primitives
//! of a scene, nearest-hit queries through it, and the recursive gathering of
//! colour along scattered rays.
//!
//! The library does no floating-point arithmetic. It holds every number as a
//! [`scalar::Scalar`], the bit pattern of a single-precision number, which it
//! can store, hand on and order. Whatever needs arithmetic comes from the
//! caller: the primitives through the trait [`hittable::Hittable`], and the
//! box test, the cost of a cut and the arithmetic of colour as functions
//! handed to the calls that need them. The contracts say what is returned
//! whatever those answer; the laws say what follows where they answer as
//! geometry demands.

pub mod aabb;
pub mod bvh;
pub mod construct;
pub mod frame;
pub mod hittable;
pub mod integrator;
pub mod laws;
pub mod material;
pub mod mesh;
pub mod nearest;
pub mod ordering;
pub mod primitive;
pub mod purity;
pub mod raster;
pub mod ray;
pub mod scalar;
pub mod scene;
pub mod split;
pub mod texture;
pub mod traversal;
pub mod vec3;
