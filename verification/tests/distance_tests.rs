use ev_charging_gaps::geom::{ChargerLocation, TrialPoint};
use ev_charging_gaps::distance::add_meters_to_coords;

#[test]
fn distance_ny_to_la() {
    let ny = TrialPoint {
        latitude: 40_730_610,
        longitude: -73_935_242,
    };
    let la = ChargerLocation {
        latitude: 34_052_235,
        longitude: -118_243_683,
        id: 1,
    };
    let distance = ny.distance_to(&la);
    let error = (3_950_000i64 - distance as i64).abs();
    // Assert that we're within 50km as a sanity check
    assert!(error < 50_000);
}

#[test]
fn distance_symmetric_and_zero_for_identical_points() {
    let a = TrialPoint {
        latitude: 40_730_610,
        longitude: -73_935_242,
    };
    let b = TrialPoint {
        latitude: 34_052_235,
        longitude: -118_243_683,
    };
    let as_charger = |p: &TrialPoint, id: u64| ChargerLocation {
        latitude: p.latitude,
        longitude: p.longitude,
        id,
    };
    assert_eq!(a.distance_to(&as_charger(&b, 1)), b.distance_to(&as_charger(&a, 2)));
    assert_eq!(a.distance_to(&as_charger(&a, 3)), 0);
    assert_eq!(b.distance_to(&as_charger(&b, 4)), 0);
}

#[test]
fn one_degree_of_latitude_is_about_111_km() {
    let equator = TrialPoint { latitude: 0, longitude: 0 };
    let one_north = ChargerLocation { latitude: 1_000_000, longitude: 0, id: 1 };
    let d = equator.distance_to(&one_north);
    assert!((110_000..113_000).contains(&d), "distance {d}");
}

#[test]
fn add_meters_moves_north_and_east() {
    let (lat, lon) = add_meters_to_coords(111_195, (0, 0));
    // About one degree north and one degree east of the origin.
    assert!((900_000..1_100_000).contains(&lat), "lat {lat}");
    assert!((900_000..1_100_000).contains(&lon), "lon {lon}");
    let (lat_s, lon_w) = add_meters_to_coords(-111_195, (0, 0));
    assert!((-1_100_000..-900_000).contains(&lat_s), "lat {lat_s}");
    assert!((-1_100_000..-900_000).contains(&lon_w), "lon {lon_w}");
}
