//! Geographic coordinates in exact fixed-point form.
//!
//! Latitude and longitude are held in deci-arcseconds (tenths of an
//! arcsecond, 1/36000 of a degree). Every raster sample center and every
//! coordinate the transforms work on is exactly representable, so the
//! geographic-to-raster transform is exact integer arithmetic.

use vstd::prelude::*;

verus! {

/// Deci-arcseconds in one degree.
pub const DAS_PER_DEG: i64 = 36000;

/// A geographic position: longitude and latitude in deci-arcseconds.
#[derive(Debug, Clone, Copy, PartialEq, Eq, Structural)]
pub struct Coord {
    /// Longitude east of the prime meridian, in deci-arcseconds.
    pub lon_das: i64,
    /// Latitude north of the equator, in deci-arcseconds.
    pub lat_das: i64,
}

impl Coord {
    /// A coordinate on the globe: longitude within +/-180 degrees,
    /// latitude within +/-90 degrees.
    pub open spec fn valid(self) -> bool {
        &&& -6480000 <= self.lon_das <= 6480000
        &&& -3240000 <= self.lat_das <= 3240000
    }
}

/// A tile corner in whole degrees, as parsed from a raster file name.
#[derive(Debug, Clone, Copy, PartialEq, Eq, Structural)]
pub struct DegCorner {
    /// Longitude in whole degrees.
    pub lon: i16,
    /// Latitude in whole degrees.
    pub lat: i16,
}

} // verus!
