//! Spatial indexing and collision resolution for many moving bodies in a
//! voxel (block) world.
//!
//! Every tick the simulation moves bodies according to their forces, stops or
//! redirects them when they strike static terrain, and detects overlaps
//! between moving bodies.  The crate provides:
//!
//! * a bulk-built bounding volume hierarchy over axis-aligned boxes with
//!   range (overlap) and nearest-point queries ([`bvh`]),
//! * a registry of named BVH instances ([`registry`]),
//! * a swept AABB narrowphase that finds the earliest time of impact of a
//!   moving box against a static box ([`swept`]),
//! * a terrain broadphase that enumerates the candidate cells a moving box
//!   can reach this tick ([`broadphase`]),
//! * the per-body physics step that integrates drag, acceleration and speed
//!   limits and resolves terrain and body-vs-body collisions ([`step`]).
//!
//! All geometry uses exact fixed-point arithmetic: a coordinate is an `i64`
//! counting thousandths of a block ([`num::SCALE`]), so every contract states
//! the result of an operation exactly, with no rounding ambiguity.

pub mod num;
pub mod vec3;
pub mod aabb;
pub mod swept;
pub mod bvh;
pub mod registry;
pub mod broadphase;
pub mod step;
pub mod enchant;
pub mod laws;
