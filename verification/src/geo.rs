//! Integer grid coordinates and the Manhattan distance metric used uniformly
//! for fares and for historical path-length statistics.

use vstd::prelude::*;

verus! {

/// A point on the integer grid.
#[derive(Clone, Copy, Debug, PartialEq, Eq, Structural)]
pub struct Coordinate {
    pub latitude: i32,
    pub longitude: i32,
}

/// Distance between two scalars on one axis.
pub open spec fn axis_distance(a: int, b: int) -> int {
    if a <= b {
        b - a
    } else {
        a - b
    }
}

/// Grid (Manhattan) distance: `|a.lat - b.lat| + |a.lon - b.lon|`.
pub open spec fn grid_distance(a: Coordinate, b: Coordinate) -> int {
    axis_distance(a.latitude as int, b.latitude as int)
        + axis_distance(a.longitude as int, b.longitude as int)
}

impl Coordinate {
    pub fn new(latitude: i32, longitude: i32) -> (c: Coordinate)
        ensures
            c.latitude == latitude,
            c.longitude == longitude,
    {
        Coordinate { latitude, longitude }
    }
}

/// Grid distance between two coordinates; always fits in `i64`.
pub fn manhattan_distance(a: Coordinate, b: Coordinate) -> (d: i64)
    ensures
        d == grid_distance(a, b),
        0 <= d,
        d < 0x2_0000_0000,
{
    let lat_a = a.latitude as i64;
    let lat_b = b.latitude as i64;
    let lon_a = a.longitude as i64;
    let lon_b = b.longitude as i64;
    let d_lat = if lat_a <= lat_b {
        lat_b - lat_a
    } else {
        lat_a - lat_b
    };
    let d_lon = if lon_a <= lon_b {
        lon_b - lon_a
    } else {
        lon_a - lon_b
    };
    d_lat + d_lon
}

} // verus!
