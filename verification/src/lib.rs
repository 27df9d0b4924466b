//! Verified core of a raster-elevation indexing pipeline.
//!
//! NASADEM `.hgt` raster tiles are parsed (or memory-mapped), reduced to
//! (hex cell, elevation) records at a chosen hexagonal-grid resolution,
//! merged into a single sorted disk index, and queried by binary search.

pub mod codec;
pub mod combine;
pub mod coord;
pub mod disktree;
pub mod mapping;
pub mod tile;
pub mod error;
pub mod cells;
pub mod records;
pub mod serial;
pub mod tess;
