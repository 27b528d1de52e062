use vstd::prelude::*;

use crate::geom::ChargerLocation;
use crate::{MAX_CANDIDATES_TRIED, MAX_RANGE_METERS};

verus! {

/// One route of a decoded oracle response; distance in whole meters.
#[derive(Clone, Copy, Debug, PartialEq, Eq, Structural)]
pub struct Route {
    pub distance: u64,
}

/// The decoded payload of an oracle response: the routes found.
#[derive(Clone, Debug, PartialEq)]
pub struct Json {
    pub routes: Vec<Route>,
}

impl Json {
    /// The driving distance a response carries: that of its first route, or
    /// nothing when the response holds no route, which is treated as "no
    /// route exists" like any other unusable payload.
    pub fn first_route_distance(&self) -> (r: Option<u64>)
        ensures
            r == if self.routes@.len() == 0 {
                Option::<u64>::None
            } else {
                Option::<u64>::Some(self.routes@[0].distance)
            },
    {
        if self.routes.len() == 0 {
            None
        } else {
            Some(self.routes[0].distance)
        }
    }
}

/// Seconds to wait before the next retry of a failed oracle transport
/// exchange: linear in the number of retries so far, capped at one minute.
pub fn retry_backoff_seconds(retries: u64) -> (r: u64)
    ensures
        r == if retries > 60 {
            60u64
        } else {
            retries
        },
{
    if retries > 60 {
        60
    } else {
        retries
    }
}

/// What one exchange with the oracle produced, as the caller decoded it.
#[derive(Debug, PartialEq)]
pub enum ExchangeOutcome {
    /// The transport failed: no response arrived.
    TransportFailed,
    /// A response arrived; `None` when its payload could not be decoded.
    Payload(Option<Json>),
}

/// What the consultation does after one exchange.
#[derive(Debug, PartialEq)]
pub enum ConsultAction {
    /// Wait this many seconds, then repeat the exchange.
    RetryAfter(u64),
    /// The consultation is decided: a driving distance, or no route.
    Decide(Option<u64>),
}

/// Decides one exchange of an oracle consultation. A transport failure is
/// retried after the capped linear backoff — the retry count is unbounded,
/// as the reference behavior has it. A response that arrived decides the
/// candidate at once: its first route's distance, or "no route" for a
/// malformed or routeless payload, which is never retried.
pub fn consultation_step(outcome: ExchangeOutcome, retries: u64) -> (r: ConsultAction)
    requires
        retries < u64::MAX,
    ensures
        outcome == ExchangeOutcome::TransportFailed ==> r == ConsultAction::RetryAfter(
            if retries + 1 > 60 {
                60u64
            } else {
                (retries + 1) as u64
            },
        ),
        outcome matches ExchangeOutcome::Payload(p) ==> r == ConsultAction::Decide(
            match p {
                Option::Some(json) => {
                    if json.routes@.len() == 0 {
                        Option::<u64>::None
                    } else {
                        Option::<u64>::Some(json.routes@[0].distance)
                    }
                },
                Option::None => Option::<u64>::None,
            },
        ),
{
    match outcome {
        ExchangeOutcome::TransportFailed => ConsultAction::RetryAfter(
            retry_backoff_seconds(retries + 1),
        ),
        ExchangeOutcome::Payload(None) => ConsultAction::Decide(None),
        ExchangeOutcome::Payload(Some(json)) => ConsultAction::Decide(json.first_route_distance()),
    }
}

/// Where a candidate session stands.
#[derive(Clone, Copy, Debug, PartialEq, Eq, Structural)]
pub enum SessionOutcome {
    /// More candidates remain to consult.
    Pending,
    /// The oracle confirmed a candidate within driving range.
    Reachable,
    /// The candidates were exhausted, or the try cap was reached, without a
    /// confirmation.
    Unreachable,
}

/// What one oracle consultation does to a session: a confirmed distance
/// within range ends it reachable; a confirmed distance beyond range counts
/// against the try cap and moves on; an undetermined response (no route)
/// moves on without counting; running out of candidates or of tries ends it
/// unreachable.
pub open spec fn session_step(
    len: int,
    next_index: int,
    tried: int,
    response: Option<u64>,
) -> (int, int, SessionOutcome) {
    match response {
        Option::Some(d) => {
            if d <= MAX_RANGE_METERS {
                (next_index, tried, SessionOutcome::Reachable)
            } else if tried + 1 >= MAX_CANDIDATES_TRIED {
                (next_index, tried + 1, SessionOutcome::Unreachable)
            } else if next_index + 1 >= len {
                (next_index + 1, tried + 1, SessionOutcome::Unreachable)
            } else {
                (next_index + 1, tried + 1, SessionOutcome::Pending)
            }
        },
        Option::None => {
            if next_index + 1 >= len {
                (next_index + 1, tried, SessionOutcome::Unreachable)
            } else {
                (next_index + 1, tried, SessionOutcome::Pending)
            }
        },
    }
}

/// The oracle consultation for one `Maybe` point: the candidates are tried
/// nearest first, and each oracle answer is recorded until the session ends
/// reachable or unreachable. The caller performs the network exchange and
/// hands in only the decoded outcome of each consultation.
pub struct CandidateSession {
    /// The candidates, nearest first.
    pub candidates: Vec<(ChargerLocation, u64)>,
    /// Index of the next candidate to consult.
    pub next_index: usize,
    /// How many candidates the oracle confirmed as beyond range.
    pub tried: u64,
    /// Where the session stands.
    pub outcome: SessionOutcome,
}

impl CandidateSession {
    /// Validity: while pending, a candidate remains and the try cap is not
    /// yet reached.
    pub open spec fn wf(self) -> bool {
        self.outcome == SessionOutcome::Pending ==> self.next_index < self.candidates@.len()
            && self.tried < MAX_CANDIDATES_TRIED
    }

    /// Opens a session over the given candidates; with none to try the
    /// session is unreachable from the start.
    pub fn new(candidates: Vec<(ChargerLocation, u64)>) -> (s: CandidateSession)
        ensures
            s.wf(),
            s.candidates@ == candidates@,
            s.next_index == 0,
            s.tried == 0,
            s.outcome == if candidates@.len() == 0 {
                SessionOutcome::Unreachable
            } else {
                SessionOutcome::Pending
            },
    {
        let outcome = if candidates.len() == 0 {
            SessionOutcome::Unreachable
        } else {
            SessionOutcome::Pending
        };
        CandidateSession { candidates, next_index: 0, tried: 0, outcome }
    }

    /// The candidate to consult next, while the session is pending.
    pub fn current_candidate(&self) -> (r: Option<ChargerLocation>)
        requires
            self.wf(),
        ensures
            r == if self.outcome == SessionOutcome::Pending {
                Option::Some(self.candidates@[self.next_index as int].0)
            } else {
                Option::<ChargerLocation>::None
            },
    {
        match self.outcome {
            SessionOutcome::Pending => Some(self.candidates[self.next_index].0),
            _ => None,
        }
    }

    /// Records the decoded outcome of consulting the current candidate:
    /// `Some` carries a confirmed driving distance in meters, `None` means
    /// the oracle found no route (not retried).
    pub fn record_response(&mut self, response: Option<u64>)
        requires
            old(self).wf(),
            old(self).outcome == SessionOutcome::Pending,
        ensures
            final(self).wf(),
            final(self).candidates@ == old(self).candidates@,
            (
                final(self).next_index as int,
                final(self).tried as int,
                final(self).outcome,
            ) == session_step(
                old(self).candidates@.len() as int,
                old(self).next_index as int,
                old(self).tried as int,
                response,
            ),
    {
        match response {
            Some(d) => {
                if d <= MAX_RANGE_METERS {
                    self.outcome = SessionOutcome::Reachable;
                } else {
                    self.tried = self.tried + 1;
                    if self.tried >= MAX_CANDIDATES_TRIED {
                        self.outcome = SessionOutcome::Unreachable;
                    } else if self.next_index >= self.candidates.len() - 1 {
                        self.next_index = self.next_index + 1;
                        self.outcome = SessionOutcome::Unreachable;
                    } else {
                        self.next_index = self.next_index + 1;
                    }
                }
            },
            None => {
                if self.next_index >= self.candidates.len() - 1 {
                    self.next_index = self.next_index + 1;
                    self.outcome = SessionOutcome::Unreachable;
                } else {
                    self.next_index = self.next_index + 1;
                }
            },
        }
    }
}

/// A response that confirms no candidate within range never ends a session
/// reachable: a pending session fed only undetermined responses and
/// beyond-range distances can only stay pending or end unreachable.
pub proof fn lemma_unhelpful_response_never_reachable(
    len: int,
    next_index: int,
    tried: int,
    response: Option<u64>,
)
    requires
        response matches Option::Some(d) ==> d > MAX_RANGE_METERS,
    ensures
        session_step(len, next_index, tried, response).2 != SessionOutcome::Reachable,
{
}

} // verus!
