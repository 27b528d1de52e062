use vstd::prelude::*;

use crate::classify::{CheckResult, CheckView};
use crate::geom::TrialPoint;
use crate::oracle::{CandidateSession, SessionOutcome};

verus! {

/// Shape-tightness knob of the concave hull; the crate documents two as a
/// relatively detailed shape, and that tuning is kept.
pub const HULL_CONCAVITY: u64 = 2;

/// Names the concave hull of a point sequence at a given concavity: the
/// exterior ring, first vertex repeated at the end, as `(latitude,
/// longitude)` pairs in microdegrees. The ring is fixed by the points and
/// the concavity alone.
pub uninterp spec fn hull_of(points: Seq<TrialPoint>, concavity: int) -> Seq<(i64, i64)>;

/// Relies on geo's `ConcaveHull::concave_hull_with_options` over a
/// multipoint: the returned polygon's exterior ring is the hull that
/// `hull_of` names, and `geo_types::Polygon::new` closes the ring, so a
/// nonempty ring ends where it begins.
#[verifier::external_body]
fn concave_hull_ring(points: &Vec<TrialPoint>, concavity: u64) -> (r: Vec<(i64, i64)>)
    requires
        points@.len() >= 3,
    ensures
        r@ == hull_of(points@, concavity as int),
        r@.len() > 0 ==> r@[0] == r@[r@.len() - 1],
{
    let pts: Vec<geo::Point> = points
        .iter()
        .map(|p| geo::Point::new(p.longitude as _, p.latitude as _))
        .collect();
    let mp = geo::MultiPoint(pts);
    let poly: geo::Polygon = geo::ConcaveHull::concave_hull_with_options(
        &mp,
        geo::concave_hull::ConcaveHullOptions { concavity: concavity as _, length_threshold: 0 as _ },
    );
    poly.exterior().0.iter().map(|c| (c.y as i64, c.x as i64)).collect()
}

/// The boundary ring derived from a set of unreachable points: fewer than
/// two points give an empty ring, exactly two give the degenerate segment
/// as the pair itself (the caller decides whether to emit it), and three or
/// more give the concave hull ring at the fixed concavity.
pub open spec fn gap_polygon_spec(points: Seq<TrialPoint>) -> Seq<(i64, i64)> {
    if points.len() < 2 {
        Seq::empty()
    } else if points.len() == 2 {
        seq![
            (points[0].latitude, points[0].longitude),
            (points[1].latitude, points[1].longitude),
        ]
    } else {
        hull_of(points, HULL_CONCAVITY as int)
    }
}

/// Reduces the collected unreachable points to a single boundary ring.
pub fn gap_polygon(points: &Vec<TrialPoint>) -> (r: Vec<(i64, i64)>)
    ensures
        r@ == gap_polygon_spec(points@),
        points@.len() >= 3 && r@.len() > 0 ==> r@[0] == r@[r@.len() - 1],
{
    if points.len() < 2 {
        Vec::new()
    } else if points.len() == 2 {
        let mut ring: Vec<(i64, i64)> = Vec::new();
        ring.push((points[0].latitude, points[0].longitude));
        ring.push((points[1].latitude, points[1].longitude));
        proof {
            assert(ring@ =~= gap_polygon_spec(points@));
        }
        ring
    } else {
        concave_hull_ring(points, HULL_CONCAVITY)
    }
}

/// The running totals of one orchestrated pass over a grid: how many points
/// each verdict covered, and the points found unreachable.
pub struct GapRun {
    /// Points with a charger certainly in range.
    pub reachable: u64,
    /// Points with no charger in range.
    pub unreachable: u64,
    /// Points that needed the oracle.
    pub maybe_reachable: u64,
    /// Every point classified unreachable, directly or after the oracle.
    pub not_reachable_points: Vec<TrialPoint>,
}

impl GapRun {
    /// An empty tally.
    pub fn new() -> (r: GapRun)
        ensures
            r.reachable == 0,
            r.unreachable == 0,
            r.maybe_reachable == 0,
            r.not_reachable_points@ =~= Seq::<TrialPoint>::empty(),
    {
        GapRun { reachable: 0, unreachable: 0, maybe_reachable: 0, not_reachable_points: Vec::new() }
    }

    /// Records a point whose verdict was `Yes`.
    pub fn record_yes(&mut self)
        requires
            old(self).reachable < u64::MAX,
        ensures
            final(self).reachable == old(self).reachable + 1,
            final(self).unreachable == old(self).unreachable,
            final(self).maybe_reachable == old(self).maybe_reachable,
            final(self).not_reachable_points@ == old(self).not_reachable_points@,
    {
        self.reachable = self.reachable + 1;
    }

    /// Records a point whose verdict was `No`: it is counted and collected
    /// as unreachable.
    pub fn record_no(&mut self, point: TrialPoint)
        requires
            old(self).unreachable < u64::MAX,
        ensures
            final(self).reachable == old(self).reachable,
            final(self).unreachable == old(self).unreachable + 1,
            final(self).maybe_reachable == old(self).maybe_reachable,
            final(self).not_reachable_points@ == old(self).not_reachable_points@.push(point),
    {
        self.unreachable = self.unreachable + 1;
        self.not_reachable_points.push(point);
    }

    /// Feeds one classified point into the tally. `Yes` and `No` settle the
    /// point at once — `No` collects it as unreachable — so the oracle is
    /// consulted exactly for the `Maybe` verdicts: only those hand back a
    /// candidate session, which the caller drives to its outcome and then
    /// settles with `record_maybe_resolved`.
    pub fn record_verdict(&mut self, point: TrialPoint, verdict: CheckResult) -> (session: Option<
        CandidateSession,
    >)
        requires
            old(self).reachable < u64::MAX,
            old(self).unreachable < u64::MAX,
        ensures
            final(self).maybe_reachable == old(self).maybe_reachable,
            verdict@ == CheckView::Yes ==> {
                &&& session is None
                &&& final(self).reachable == old(self).reachable + 1
                &&& final(self).unreachable == old(self).unreachable
                &&& final(self).not_reachable_points@ == old(self).not_reachable_points@
            },
            verdict@ == CheckView::No ==> {
                &&& session is None
                &&& final(self).reachable == old(self).reachable
                &&& final(self).unreachable == old(self).unreachable + 1
                &&& final(self).not_reachable_points@ == old(self).not_reachable_points@.push(
                    point,
                )
            },
            verdict@ matches CheckView::Maybe { candidates } ==> {
                &&& *final(self) == *old(self)
                &&& session matches Some(s) && s.wf() && s.candidates@ == candidates
                    && s.next_index == 0 && s.tried == 0 && s.outcome == (if candidates.len()
                    == 0 {
                    SessionOutcome::Unreachable
                } else {
                    SessionOutcome::Pending
                })
            },
    {
        match verdict {
            CheckResult::Yes => {
                self.record_yes();
                None
            },
            CheckResult::No => {
                self.record_no(point);
                None
            },
            CheckResult::Maybe { candidates } => Some(CandidateSession::new(candidates)),
        }
    }

    /// Records a point whose verdict was `Maybe`, after the oracle session
    /// settled it: the point counts as consulting the oracle, and as
    /// reachable or unreachable by the session's outcome — collected only
    /// when unreachable.
    pub fn record_maybe_resolved(&mut self, point: TrialPoint, reachable: bool)
        requires
            old(self).maybe_reachable < u64::MAX,
            old(self).reachable < u64::MAX,
            old(self).unreachable < u64::MAX,
        ensures
            final(self).maybe_reachable == old(self).maybe_reachable + 1,
            reachable ==> {
                &&& final(self).reachable == old(self).reachable + 1
                &&& final(self).unreachable == old(self).unreachable
                &&& final(self).not_reachable_points@ == old(self).not_reachable_points@
            },
            !reachable ==> {
                &&& final(self).reachable == old(self).reachable
                &&& final(self).unreachable == old(self).unreachable + 1
                &&& final(self).not_reachable_points@ == old(self).not_reachable_points@.push(
                    point,
                )
            },
    {
        self.maybe_reachable = self.maybe_reachable + 1;
        if reachable {
            self.reachable = self.reachable + 1;
        } else {
            self.unreachable = self.unreachable + 1;
            self.not_reachable_points.push(point);
        }
    }
}

} // verus!
