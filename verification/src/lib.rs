//! Core of a 2D rigid-body physics simulator.
//!
//! The library detects and resolves contacts between convex polygonal bodies
//! and advances their motion each tick.  All quantities are fixed-point
//! numbers: an `i64` holds a real value scaled by `fxp::SCALE`, so every
//! operation has an exact integer meaning that the contracts state.
//!
//! Pipeline per step: apply external forces, integrate each body
//! (semi-implicit Euler), bucket bodies into a uniform grid and emit
//! candidate pairs (broad phase), confirm overlap and build a contact
//! manifold per pair by the separating-axis test (narrow phase), then apply
//! one pass of sequential impulses with friction and positional correction.

pub mod fxp;
pub mod vec2;
pub mod body;
pub mod detector;
pub mod resolver;
pub mod engine;
pub mod ssm;
pub mod collection;
pub mod tree;
