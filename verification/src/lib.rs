//! Deterministic generation and streaming of an unbounded tiled world.
//!
//! The world is a grid of tiles grouped into fixed-size chunks. Every function
//! here works in exact integer arithmetic: world positions are points of the
//! lattice of whole world units, noise samples are fixed-point numbers, and
//! random draws are words of a seeded stream.

pub mod coords;
pub mod geometry;
pub mod hash;
pub mod sampling;
pub mod terrain;
pub mod chunking;
pub mod scheduler;
mod seqs;
pub mod streaming;
pub mod props;
pub mod quota;
pub mod building;
