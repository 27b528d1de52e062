use ev_charging_gaps::geom::ChargerLocation;
use ev_charging_gaps::oracle::{
    consultation_step, retry_backoff_seconds, CandidateSession, ConsultAction, ExchangeOutcome,
    Json, Route, SessionOutcome,
};

fn candidates(n: u64) -> Vec<(ChargerLocation, u64)> {
    (0..n)
        .map(|i| {
            (
                ChargerLocation { latitude: 41_000_000 + i as i64, longitude: -75_000_000, id: i },
                50_000 + i,
            )
        })
        .collect()
}

#[test]
fn backoff_grows_linearly_and_caps_at_a_minute() {
    assert_eq!(retry_backoff_seconds(0), 0);
    assert_eq!(retry_backoff_seconds(1), 1);
    assert_eq!(retry_backoff_seconds(5), 5);
    assert_eq!(retry_backoff_seconds(60), 60);
    assert_eq!(retry_backoff_seconds(61), 60);
    assert_eq!(retry_backoff_seconds(100_000), 60);
}

#[test]
fn payload_distance_is_the_first_route() {
    let empty = Json { routes: vec![] };
    assert_eq!(empty.first_route_distance(), None);
    let full = Json { routes: vec![Route { distance: 123_456 }, Route { distance: 1 }] };
    assert_eq!(full.first_route_distance(), Some(123_456));
}

#[test]
fn transport_failures_are_retried_with_growing_backoff() {
    assert_eq!(
        consultation_step(ExchangeOutcome::TransportFailed, 0),
        ConsultAction::RetryAfter(1)
    );
    assert_eq!(
        consultation_step(ExchangeOutcome::TransportFailed, 41),
        ConsultAction::RetryAfter(42)
    );
    assert_eq!(
        consultation_step(ExchangeOutcome::TransportFailed, 1000),
        ConsultAction::RetryAfter(60)
    );
}

#[test]
fn arrived_payloads_decide_at_once_without_retry() {
    assert_eq!(
        consultation_step(ExchangeOutcome::Payload(None), 3),
        ConsultAction::Decide(None)
    );
    let routeless = Json { routes: vec![] };
    assert_eq!(
        consultation_step(ExchangeOutcome::Payload(Some(routeless)), 3),
        ConsultAction::Decide(None)
    );
    let routed = Json { routes: vec![Route { distance: 250_000 }] };
    assert_eq!(
        consultation_step(ExchangeOutcome::Payload(Some(routed)), 3),
        ConsultAction::Decide(Some(250_000))
    );
}

#[test]
fn session_with_no_candidates_is_unreachable_at_once() {
    let session = CandidateSession::new(vec![]);
    assert_eq!(session.outcome, SessionOutcome::Unreachable);
    assert_eq!(session.current_candidate(), None);
}

#[test]
fn first_in_range_answer_ends_the_session_reachable() {
    let mut session = CandidateSession::new(candidates(3));
    assert_eq!(session.current_candidate().unwrap().id, 0);
    session.record_response(Some(399_999));
    assert_eq!(session.outcome, SessionOutcome::Reachable);
    assert_eq!(session.current_candidate(), None);
}

#[test]
fn answer_exactly_at_the_range_bound_is_reachable() {
    let mut session = CandidateSession::new(candidates(1));
    session.record_response(Some(400_000));
    assert_eq!(session.outcome, SessionOutcome::Reachable);
}

#[test]
fn no_route_answers_move_on_without_counting_against_the_cap() {
    let mut session = CandidateSession::new(candidates(3));
    session.record_response(None);
    assert_eq!(session.outcome, SessionOutcome::Pending);
    assert_eq!(session.tried, 0);
    assert_eq!(session.current_candidate().unwrap().id, 1);
    session.record_response(None);
    session.record_response(None);
    assert_eq!(session.outcome, SessionOutcome::Unreachable);
    assert_eq!(session.tried, 0);
}

#[test]
fn exhausting_all_candidates_beyond_range_is_unreachable() {
    let mut session = CandidateSession::new(candidates(4));
    for _ in 0..4 {
        assert_eq!(session.outcome, SessionOutcome::Pending);
        session.record_response(Some(500_000));
    }
    assert_eq!(session.outcome, SessionOutcome::Unreachable);
    assert_eq!(session.tried, 4);
}

#[test]
fn fifty_beyond_range_answers_cap_the_session() {
    let mut session = CandidateSession::new(candidates(60));
    for _ in 0..50 {
        assert_eq!(session.outcome, SessionOutcome::Pending);
        session.record_response(Some(500_000));
    }
    assert_eq!(session.outcome, SessionOutcome::Unreachable);
    assert_eq!(session.tried, 50);
    // Candidates remained untried: the cap, not exhaustion, ended it.
    assert!((session.next_index as usize) < 60);
}
