//! Finds charging deserts: regions where an electric vehicle of bounded
//! range can reach no charging station. A spatial index over charger
//! locations feeds a tiered classifier (certainly reachable, certainly not,
//! or decided by an external routing oracle consulted with capped backoff), a
//! region is cut into grid points and parallel chunks, and the points found
//! unreachable are reduced to a boundary polygon. Coordinates are held in
//! microdegrees and distances in whole meters, so the geometry of every
//! decision is exact integer arithmetic; the great-circle distances
//! themselves come from the geo crate's haversine formula at an earth
//! radius of 6,371,000 meters.

use vstd::prelude::*;

pub mod geom;
pub mod distance;
pub mod ingest;
pub mod index;
pub mod classify;
pub mod oracle;
pub mod gaps;

verus! {

/// Assumed EV maximum driving range, in meters.
pub const MAX_RANGE_METERS: u64 = 400_000;

/// Straight-line distance below which the nearest charger is assumed
/// reachable by road without consulting the routing oracle: a tenth of the
/// maximum range (the crow-flies ratio of the classification policy).
pub const CROW_FLIES_THRESHOLD_METERS: u64 = MAX_RANGE_METERS / 10;

/// Padding added to the index search radius, in meters, so that the flat
/// search rectangle is a superset of the true great-circle disc.
pub const QUERY_PADDING_METERS: u64 = 25_000;

/// Cap on the number of candidates the oracle confirms as too far before a
/// point is given up as unreachable.
pub const MAX_CANDIDATES_TRIED: u64 = 50;

/// Base URL of the public routing service consulted by default.
pub const DEFAULT_OSRM_URL: &'static str = "https://router.project-osrm.org";

} // verus!
