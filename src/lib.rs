//! Fixed-point physics core of a voxel-world client: swept collision of boxes
//! against a chunked block world, chunk residency, relevance distance, ray
//! casting and client-side prediction reconciled against server snapshots.
//!
//! Continuous positions are fixed-point integers: one block is
//! `UNITS_PER_BLOCK` units along each axis.

pub mod arith;
pub mod coords;
pub mod render_distance;
pub mod world;
pub mod aabb;
pub mod player;
pub mod simulation;
pub mod messages;

