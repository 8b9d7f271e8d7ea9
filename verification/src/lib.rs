//! Brute-force search engine for block formations whose deterministic
//! per-block texture rotations match a requested pattern.
//!
//! The crate provides the pure texture-rotation oracles (three interchangeable
//! algorithm variants), the formation/placement data model, a partitioner that
//! splits the X domain across worker threads, a windowed biome cache used to
//! pre-filter candidate columns, and the matching scan loop itself.

pub mod biome_cache;
pub mod config;
pub mod partition;
pub mod texture_finder;
pub mod placement;
pub mod rotation_info;
pub mod texture_provider;
