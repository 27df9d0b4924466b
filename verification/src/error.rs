//! Error taxonomy of the library.

use vstd::prelude::*;

verus! {

/// Everything that can go wrong in the verified core.
///
/// I/O failures are not represented here: reading and writing files is the
/// caller's business, and the caller maps its own I/O errors.
#[derive(Debug, Clone, PartialEq, Eq)]
pub enum HError {
    /// A raster file's byte length matches no supported grid size.
    HgtLen(u64),
    /// A raster file's name does not follow the `[N|S]DD[E|W]DDD` grammar.
    HgtName(String),
    /// A raster (x, y) or geographic position falls outside the tile.
    OutOfRange,
    /// The requested aggregate query is not implemented for memory-mapped
    /// sample storage.
    UnsupportedStorage,
    /// A combine input's resolution is coarser than the build target:
    /// finer detail cannot be synthesized.
    ResolutionTooCoarse { have: u8, want: u8 },
    /// A tessellation or disk-index byte image fails validation: bad magic,
    /// version, truncation, or records out of order.
    CorruptIndex,
    /// A cell identifier the hex grid library rejects.
    InvalidCell(u64),
    /// A hex-grid resolution outside the supported range.
    InvalidResolution(u8),
}

} // verus!
