//! Geographic positions in fixed-point degrees.

use vstd::prelude::*;

verus! {

/// Number of fixed-point units in one degree of latitude or longitude.
pub const UNITS_PER_DEGREE: i64 = 1_000_000;

/// A geographic coordinate. Latitude and longitude are stored in fixed-point
/// units of one millionth of a degree.
#[derive(Clone, Copy, PartialEq, Eq, Structural, Debug)]
pub struct Position {
    /// Latitude in millionths of a degree; valid range is [-90e6, 90e6].
    pub lat: i64,
    /// Longitude in millionths of a degree; valid range is [-180e6, 180e6].
    pub lon: i64,
}

/// Largest valid latitude, in millionths of a degree.
pub const LAT_MAX: i64 = 90_000_000;
/// Largest valid longitude, in millionths of a degree.
pub const LON_MAX: i64 = 180_000_000;

impl Position {
    /// A position is valid when both coordinates lie in their geographic range.
    pub open spec fn is_valid(self) -> bool {
        -(LAT_MAX as int) <= self.lat <= LAT_MAX as int
            && -(LON_MAX as int) <= self.lon <= LON_MAX as int
    }

    /// Build a position from latitude and longitude given in millionths of a
    /// degree.
    pub fn new(lat: i64, lon: i64) -> (r: Position)
        ensures
            r.lat == lat,
            r.lon == lon,
    {
        Position { lat, lon }
    }
}

/// Build a position from latitude and longitude, in that order.
pub fn lat_lon(lat: i64, lon: i64) -> (r: Position)
    ensures
        r.lat == lat,
        r.lon == lon,
{
    Position { lat, lon }
}

/// Build a position from longitude and latitude, in that order.
pub fn lon_lat(lon: i64, lat: i64) -> (r: Position)
    ensures
        r.lat == lat,
        r.lon == lon,
{
    Position { lat, lon }
}

} // verus!
