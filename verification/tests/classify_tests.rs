use ev_charging_gaps::classify::CheckResult;
use ev_charging_gaps::geom::{ChargerLocation, TrialPoint};
use ev_charging_gaps::index::AllChargerLocations;
use ev_charging_gaps::ingest::{filter_rows, network_has_marker, CsvRow};
use ev_charging_gaps::oracle::{CandidateSession, SessionOutcome};
use ev_charging_gaps::MAX_RANGE_METERS;

fn row(latitude: i64, longitude: i64, id: u64, network: &str) -> CsvRow {
    CsvRow { latitude, longitude, id, network: network.to_string() }
}

fn charger_set(rows: Vec<CsvRow>) -> AllChargerLocations {
    AllChargerLocations::from_records(rows)
}

#[test]
fn station_five_km_away_is_reachable_without_the_oracle() {
    let point = TrialPoint { latitude: 40_730_610, longitude: -73_935_242 };
    // About 5 km north of the point: far under the 40 km crow-flies
    // threshold, so the oracle is never needed.
    let chargers = charger_set(vec![row(point.latitude + 45_000, point.longitude, 7, "GridCharge")]);
    let verdict = point.check_charger(&chargers);
    assert_eq!(verdict, CheckResult::Yes);
}

#[test]
fn nearest_station_at_forty_five_km_defers_to_the_oracle_and_ends_unreachable() {
    let point = TrialPoint { latitude: 40_730_610, longitude: -73_935_242 };
    // About 45 km north: beyond the 40 km short-circuit, within range as
    // the crow flies, so the verdict defers to the oracle.
    let chargers = charger_set(vec![row(point.latitude + 404_700, point.longitude, 9, "GridCharge")]);
    let verdict = point.check_charger(&chargers);
    let candidates = match verdict {
        CheckResult::Maybe { candidates } => candidates,
        other => panic!("expected Maybe, got {other:?}"),
    };
    assert!(!candidates.is_empty());
    assert!(candidates[0].1 > 40_000 && candidates[0].1 < MAX_RANGE_METERS);

    // The oracle reports every candidate beyond driving range.
    let mut session = CandidateSession::new(candidates);
    let mut oracle_calls = 0;
    while session.current_candidate().is_some() {
        session.record_response(Some(500_000));
        oracle_calls += 1;
        assert!(oracle_calls <= 1_000, "session failed to terminate");
    }
    assert_eq!(session.outcome, SessionOutcome::Unreachable);
}

#[test]
fn no_station_within_reach_is_unreachable_with_zero_oracle_calls() {
    let point = TrialPoint { latitude: 40_730_610, longitude: -73_935_242 };
    // About 900 km north: outside even the padded search rectangle.
    let chargers = charger_set(vec![row(point.latitude + 8_100_000, point.longitude, 4, "GridCharge")]);
    let verdict = point.check_charger(&chargers);
    // `No` short-circuits the orchestration: no candidate session is ever
    // opened, so the oracle is consulted zero times.
    assert_eq!(verdict, CheckResult::No);
}

#[test]
fn candidate_beyond_crow_flies_range_is_discarded_without_the_oracle() {
    let point = TrialPoint { latitude: 40_730_610, longitude: -73_935_242 };
    // About 410 km north: inside the padded search rectangle, so the index
    // yields it as a candidate, but a straight line is never longer than a
    // road, so it is discarded and the verdict is No without an oracle call.
    let chargers = charger_set(vec![row(point.latitude + 3_687_000, point.longitude, 5, "GridCharge")]);
    let candidates = point.nearest_chargers(&chargers);
    assert_eq!(candidates.len(), 1);
    assert!(candidates[0].1 >= MAX_RANGE_METERS);
    assert_eq!(point.check_charger(&chargers), CheckResult::No);
}

#[test]
fn classifying_twice_yields_the_same_verdict() {
    let point = TrialPoint { latitude: 40_730_610, longitude: -73_935_242 };
    let chargers = charger_set(vec![
        row(40_750_000, -73_900_000, 1, "GridCharge"),
        row(41_200_000, -74_500_000, 2, "VoltHub"),
        row(43_000_000, -76_000_000, 3, "GridCharge"),
    ]);
    let first = point.check_charger(&chargers);
    let second = point.check_charger(&chargers);
    assert_eq!(first, second);
}

#[test]
fn indexed_result_is_prefix_compatible_with_the_slow_scan() {
    let point = TrialPoint { latitude: 40_000_000, longitude: -75_000_000 };
    let rows = vec![
        row(40_100_000, -75_100_000, 1, "GridCharge"),
        row(40_000_000, -74_000_000, 2, "VoltHub"),
        row(42_000_000, -75_000_000, 3, "GridCharge"),
        row(43_500_000, -78_000_000, 4, "GridCharge"),
        row(36_500_000, -75_000_000, 5, "VoltHub"),
        row(40_000_000, -75_000_123, 6, "GridCharge"),
        row(49_000_000, -75_000_000, 7, "GridCharge"),
        row(40_000_000, -60_000_000, 8, "GridCharge"),
    ];
    let all: Vec<ChargerLocation> = rows
        .iter()
        .map(|r| ChargerLocation { latitude: r.latitude, longitude: r.longitude, id: r.id })
        .collect();
    let chargers = charger_set(rows);

    let slow = point.nearest_chargers_slow(&all);
    let indexed = point.nearest_chargers(&chargers);

    assert!(!slow.is_empty());
    assert!(
        indexed.len() >= slow.len(),
        "nearest chargers must be at least as long as the expected nearest chargers"
    );
    for (i, expected) in slow.iter().enumerate() {
        assert_eq!(expected.1, indexed[i].1);
    }
    // Every slow-scan entry is within range; the indexed result found each
    // of them.
    for entry in &slow {
        assert!(entry.1 < MAX_RANGE_METERS);
        assert!(indexed.iter().any(|e| e.0 == entry.0 && e.1 == entry.1));
    }
}

#[test]
fn slow_scan_filters_beyond_range_and_sorts_ascending() {
    let point = TrialPoint { latitude: 40_000_000, longitude: -75_000_000 };
    let all = vec![
        // About 111 km north.
        ChargerLocation { latitude: 41_000_000, longitude: -75_000_000, id: 1 },
        // About 11 km north.
        ChargerLocation { latitude: 40_100_000, longitude: -75_000_000, id: 2 },
        // About 555 km north: beyond range, dropped.
        ChargerLocation { latitude: 45_000_000, longitude: -75_000_000, id: 3 },
    ];
    let slow = point.nearest_chargers_slow(&all);
    let ids: Vec<u64> = slow.iter().map(|e| e.0.id).collect();
    assert_eq!(ids, vec![2, 1]);
    assert!(slow[0].1 < slow[1].1);
    assert!(slow[1].1 < MAX_RANGE_METERS);
}

#[test]
fn many_stations_at_one_position_still_index_and_classify() {
    let point = TrialPoint { latitude: 40_730_610, longitude: -73_935_242 };
    // Six stations at one street address: they share one position cell of
    // the index, whose one point stands for all of them; a query expands
    // the cell back to every station.
    let rows: Vec<CsvRow> = (0..6)
        .map(|i| row(point.latitude + 45_000, point.longitude, 100 + i, "GridCharge"))
        .collect();
    let chargers = charger_set(rows);
    assert_eq!(chargers.chargers_by_id.len(), 6);
    let candidates = point.nearest_chargers(&chargers);
    assert_eq!(candidates.len(), 6);
    let mut ids: Vec<u64> = candidates.iter().map(|e| e.0.id).collect();
    ids.sort();
    assert_eq!(ids, vec![100, 101, 102, 103, 104, 105]);
    assert_eq!(point.check_charger(&chargers), CheckResult::Yes);
}

#[test]
fn returned_candidates_are_stored_chargers_with_distinct_ids() {
    let point = TrialPoint { latitude: 40_000_000, longitude: -75_000_000 };
    let chargers = charger_set(vec![
        row(40_100_000, -75_100_000, 11, "GridCharge"),
        // One microdegree from the row above: the same position cell, so
        // only one of the pair enters the quadtree.
        row(40_100_001, -75_100_000, 12, "GridCharge"),
        row(40_000_000, -74_000_000, 13, "VoltHub"),
    ]);
    assert_eq!(chargers.chargers_by_id.len(), 3);
    let result = point.nearest_chargers(&chargers);
    // The co-located pair shares one index cell, and both of its chargers
    // come back.
    let mut ids: Vec<u64> = result.iter().map(|e| e.0.id).collect();
    let before = ids.len();
    ids.sort();
    ids.dedup();
    assert_eq!(ids.len(), before, "no id may appear twice");
    assert_eq!(ids, vec![11, 12, 13]);
    for entry in &result {
        let stored = chargers.chargers_by_id.get(&entry.0.id).expect("entry must be stored");
        assert_eq!(*stored, entry.0);
    }
}

#[test]
fn excluded_vendor_rows_are_dropped() {
    let rows = vec![
        row(1, 1, 1, "Tesla Supercharger"),
        row(2, 2, 2, "GridCharge"),
        row(3, 3, 3, "city Tesla destination"),
        row(4, 4, 4, "Tes la"),
        row(5, 5, 5, "teslaville"),
    ];
    let kept = filter_rows(rows);
    let ids: Vec<u64> = kept.iter().map(|r| r.id).collect();
    assert_eq!(ids, vec![2, 4, 5]);
}

#[test]
fn marker_match_is_case_sensitive_substring() {
    assert!(network_has_marker("Tesla"));
    assert!(network_has_marker("xxTeslaxx"));
    assert!(!network_has_marker("tesla"));
    assert!(!network_has_marker("Tesl"));
    assert!(!network_has_marker(""));
}

#[test]
fn index_holds_only_kept_records() {
    let chargers = charger_set(vec![
        row(1, 1, 1, "Tesla Supercharger"),
        row(2, 2, 2, "GridCharge"),
        row(3, 3, 3, "VoltHub"),
    ]);
    assert_eq!(chargers.chargers_by_id.len(), 2);
    assert!(chargers.chargers_by_id.contains_key(&2));
    assert!(chargers.chargers_by_id.contains_key(&3));
    assert!(!chargers.chargers_by_id.contains_key(&1));
}
