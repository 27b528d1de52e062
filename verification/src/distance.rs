use vstd::prelude::*;

use crate::geom::{ChargerLocation, TrialPoint};

verus! {

/// Names the great-circle distance, in whole meters, between two coordinates
/// given in microdegrees. The value is fixed by the four arguments alone.
pub uninterp spec fn crow_distance_m(lat_a: int, lon_a: int, lat_b: int, lon_b: int) -> u64;

/// Great-circle distance from a trial point to a charger, in meters.
pub open spec fn crow_to(p: TrialPoint, c: ChargerLocation) -> u64 {
    crow_distance_m(p.latitude as int, p.longitude as int, c.latitude as int, c.longitude as int)
}

/// Relies on geo's `HaversineMeasure::distance`: the haversine formula over
/// the two points at an earth radius of 6,371,000 meters, in meters. The
/// formula is symmetric in its two points, and every term vanishes for
/// identical points, so the call returns the named distance read in either
/// direction and zero for a point paired with itself. The central angle is
/// twice an arcsine, at most half a turn, so the distance is at most half
/// the sphere's circumference (the radius times half a turn, just under
/// 20,015,087 meters); where near-antipodal rounding drives the arcsine's
/// argument past one, the float result is not a number and the saturating
/// cast returns zero.
#[verifier::external_body]
fn haversine_meters(lat_a: i64, lon_a: i64, lat_b: i64, lon_b: i64) -> (r: u64)
    ensures
        r == crow_distance_m(lat_a as int, lon_a as int, lat_b as int, lon_b as int),
        r == crow_distance_m(lat_b as int, lon_b as int, lat_a as int, lon_a as int),
        lat_a == lat_b && lon_a == lon_b ==> r == 0,
        r <= 20_015_086,
{
    let m: geo::HaversineMeasure = geo::HaversineMeasure::new(6_371_000_i64 as _);
    let a: geo::Point = geo::Point::new(lon_a as _, lat_a as _) / (1_000_000_i64 as _);
    let b: geo::Point = geo::Point::new(lon_b as _, lat_b as _) / (1_000_000_i64 as _);
    geo::Distance::distance(&m, a, b) as u64
}

/// Names the coordinate, in microdegrees, reached from an origin after
/// travelling the given number of meters along a compass bearing (degrees,
/// north zero, east ninety). The value is fixed by the arguments alone.
pub uninterp spec fn dest_coords(lat: int, lon: int, bearing_deg: int, meters: int) -> (int, int);

/// Relies on geo's `HaversineMeasure::destination`: the point reached by
/// travelling `meters` along the great circle leaving the origin at
/// `bearing_deg`, on the sphere of radius 6,371,000 meters.
#[verifier::external_body]
fn haversine_destination(lat_udeg: i64, lon_udeg: i64, bearing_deg: u64, meters: u64) -> (r: (
    i64,
    i64,
))
    ensures
        r.0 == dest_coords(lat_udeg as int, lon_udeg as int, bearing_deg as int, meters as int).0,
        r.1 == dest_coords(lat_udeg as int, lon_udeg as int, bearing_deg as int, meters as int).1,
{
    let o: geo::Point = geo::Point::new(lon_udeg as _, lat_udeg as _) / (1_000_000_i64 as _);
    let m: geo::HaversineMeasure = geo::HaversineMeasure::new(6_371_000_i64 as _);
    let d: geo::Point = geo::Destination::destination(&m, o, bearing_deg as _, meters as _);
    let s: geo::Point = d * (1_000_000_i64 as _);
    (s.y() as i64, s.x() as i64)
}

/// The coordinate `meters` north and `meters` east of the given one (south
/// and west for negative `meters`), in microdegrees: the latitude of the
/// great-circle destination due north and the longitude of the one due east.
pub open spec fn coords_plus_meters(meters: int, lat: int, lon: int) -> (int, int) {
    if meters >= 0 {
        (dest_coords(lat, lon, 0, meters).0, dest_coords(lat, lon, 90, meters).1)
    } else {
        (dest_coords(lat, lon, 180, -meters).0, dest_coords(lat, lon, 270, -meters).1)
    }
}

/// Offsets a `(latitude, longitude)` pair by the given distance on both axes:
/// north and east for positive `meters`, south and west for negative. Used to
/// build the corners of the padded search rectangle around a trial point.
pub fn add_meters_to_coords(meters: i64, coords: (i64, i64)) -> (r: (i64, i64))
    requires
        meters > i64::MIN,
    ensures
        r.0 == coords_plus_meters(meters as int, coords.0 as int, coords.1 as int).0,
        r.1 == coords_plus_meters(meters as int, coords.0 as int, coords.1 as int).1,
{
    let (lat, lon) = coords;
    if meters >= 0 {
        let north = haversine_destination(lat, lon, 0, meters as u64);
        let east = haversine_destination(lat, lon, 90, meters as u64);
        (north.0, east.1)
    } else {
        let south = haversine_destination(lat, lon, 180, (-meters) as u64);
        let west = haversine_destination(lat, lon, 270, (-meters) as u64);
        (south.0, west.1)
    }
}

impl TrialPoint {
    /// Great-circle distance in meters from this point to the given charger.
    ///
    /// The distance is a function of the two coordinates alone, read the same
    /// in either direction, zero when the charger sits exactly at this
    /// point, and never more than half the earth's circumference.
    pub fn distance_to(&self, charger: &ChargerLocation) -> (r: u64)
        ensures
            r == crow_to(*self, *charger),
            r == crow_distance_m(
                charger.latitude as int,
                charger.longitude as int,
                self.latitude as int,
                self.longitude as int,
            ),
            self.latitude == charger.latitude && self.longitude == charger.longitude ==> r == 0,
            r <= 20_015_086,
    {
        haversine_meters(self.latitude, self.longitude, charger.latitude, charger.longitude)
    }
}

} // verus!
