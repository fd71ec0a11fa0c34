//! Chunk streaming, face culling, and instance aggregation for a voxel world.
//!
//! The crate keeps an effectively infinite world populated around a moving
//! viewpoint: it decides which chunks must exist near the viewer, derives
//! which block faces are visible inside each chunk, and packs the visible
//! faces into a flat instance list for an external renderer.  Generation of
//! chunk contents is designed to run on worker threads; the cache here is
//! the single source of truth for which coordinates are materialized or in
//! flight, and never requests the same coordinate twice.

pub mod block;
pub mod boxworld;
pub mod capped_deque;
pub mod chunk;
pub mod config;
pub mod coords;
pub mod face;
pub mod streaming;
