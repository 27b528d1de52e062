use ev_charging_gaps::classify::CheckResult;
use ev_charging_gaps::gaps::{gap_polygon, GapRun};
use ev_charging_gaps::geom::{ChargerLocation, TrialPoint};
use ev_charging_gaps::oracle::SessionOutcome;

fn p(latitude: i64, longitude: i64) -> TrialPoint {
    TrialPoint { latitude, longitude }
}

#[test]
fn fewer_than_two_points_give_an_empty_ring() {
    assert!(gap_polygon(&vec![]).is_empty());
    assert!(gap_polygon(&vec![p(1, 2)]).is_empty());
}

#[test]
fn two_points_give_the_degenerate_segment() {
    let ring = gap_polygon(&vec![p(1, 2), p(3, 4)]);
    assert_eq!(ring, vec![(1, 2), (3, 4)]);
}

#[test]
fn hull_of_a_square_is_a_closed_ring_of_its_corners() {
    let corners = vec![
        p(0, 0),
        p(0, 10_000_000),
        p(10_000_000, 10_000_000),
        p(10_000_000, 0),
    ];
    let ring = gap_polygon(&corners);
    assert!(ring.len() >= 5, "ring {ring:?}");
    assert_eq!(ring.first(), ring.last());
    for vertex in &ring {
        assert!(
            corners.iter().any(|c| (c.latitude, c.longitude) == *vertex),
            "vertex {vertex:?} is not a corner"
        );
    }
    // Every corner is on the hull.
    for corner in &corners {
        assert!(ring.contains(&(corner.latitude, corner.longitude)));
    }
}

#[test]
fn hull_keeps_an_interior_point_off_the_ring() {
    let points = vec![
        p(0, 0),
        p(0, 10_000_000),
        p(10_000_000, 10_000_000),
        p(10_000_000, 0),
        p(5_000_000, 5_000_000),
    ];
    let ring = gap_polygon(&points);
    assert!(!ring.contains(&(5_000_000, 5_000_000)));
}

#[test]
fn only_a_maybe_verdict_opens_an_oracle_session() {
    let mut run = GapRun::new();
    assert!(run.record_verdict(p(1, 1), CheckResult::Yes).is_none());
    assert!(run.record_verdict(p(2, 2), CheckResult::No).is_none());
    let candidates = vec![(ChargerLocation { latitude: 9, longitude: 9, id: 1 }, 60_000)];
    let session = run
        .record_verdict(p(3, 3), CheckResult::Maybe { candidates: candidates.clone() })
        .expect("a Maybe verdict must hand back a session");
    assert_eq!(session.outcome, SessionOutcome::Pending);
    assert_eq!(session.candidates, candidates);
    assert_eq!(run.reachable, 1);
    assert_eq!(run.unreachable, 1);
    assert_eq!(run.maybe_reachable, 0);
    assert_eq!(run.not_reachable_points, vec![p(2, 2)]);
}

#[test]
fn gap_run_tallies_verdicts_and_collects_unreachable_points() {
    let mut run = GapRun::new();
    run.record_yes();
    run.record_yes();
    run.record_no(p(1, 1));
    run.record_maybe_resolved(p(2, 2), true);
    run.record_maybe_resolved(p(3, 3), false);
    assert_eq!(run.reachable, 3);
    assert_eq!(run.unreachable, 2);
    assert_eq!(run.maybe_reachable, 2);
    assert_eq!(run.not_reachable_points, vec![p(1, 1), p(3, 3)]);
}
