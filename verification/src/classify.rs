use vstd::prelude::*;
use vstd::multiset::Multiset;
use vstd::relations::{sorted_by, total_ordering};
use vstd::seq_lib::lemma_sorted_unique;

use crate::distance::{add_meters_to_coords, coords_plus_meters, crow_to};
use crate::geom::{ChargerLocation, TrialPoint};
use crate::index::{cell_in_rect, charger_cell, f32_bits, packed_cell, qt_cells, qt_query, AllChargerLocations};
use crate::{CROW_FLIES_THRESHOLD_METERS, MAX_RANGE_METERS, QUERY_PADDING_METERS};

verus! {

broadcast use vstd::seq_lib::group_to_multiset_ensures, vstd::multiset::group_multiset_axioms, vstd::std_specs::hash::group_hash_axioms;

/// Candidate order: by distance, ties broken by identifier and then by
/// position, so that the order is total and the sorted sequence of any
/// candidate multiset is unique.
pub open spec fn cand_le(a: (ChargerLocation, u64), b: (ChargerLocation, u64)) -> bool {
    ||| a.1 < b.1
    ||| (a.1 == b.1 && (a.0.id < b.0.id || (a.0.id == b.0.id && (a.0.latitude < b.0.latitude || (
    a.0.latitude == b.0.latitude && a.0.longitude <= b.0.longitude)))))
}

/// The candidate order as a relation value.
pub open spec fn cand_leq() -> spec_fn((ChargerLocation, u64), (ChargerLocation, u64)) -> bool {
    |a: (ChargerLocation, u64), b: (ChargerLocation, u64)| cand_le(a, b)
}

/// The candidate order is a total ordering.
pub proof fn lemma_cand_leq_total()
    ensures
        total_ordering(cand_leq()),
{
    assert forall|x: (ChargerLocation, u64), y: (ChargerLocation, u64)|
        #[trigger] cand_leq()(x, y) && #[trigger] cand_leq()(y, x) implies x == y by {
        assert(x.0 == y.0 && x.1 == y.1);
    }
}

/// Executable candidate comparison.
fn cand_before(a: &(ChargerLocation, u64), b: &(ChargerLocation, u64)) -> (r: bool)
    ensures
        r == cand_le(*a, *b),
{
    a.1 < b.1 || (a.1 == b.1 && (a.0.id < b.0.id || (a.0.id == b.0.id && (a.0.latitude
        < b.0.latitude || (a.0.latitude == b.0.latitude && a.0.longitude <= b.0.longitude)))))
}

/// Sorts candidates into the candidate order by repeatedly extracting a
/// least remaining element.
fn sort_candidates(v: Vec<(ChargerLocation, u64)>) -> (r: Vec<(ChargerLocation, u64)>)
    ensures
        r@ == v@.sort_by(cand_leq()),
        sorted_by(r@, cand_leq()),
        r@.to_multiset() == v@.to_multiset(),
        r@.len() == v@.len(),
{
    let ghost orig = v@;
    let mut v = v;
    let mut out: Vec<(ChargerLocation, u64)> = Vec::new();
    proof {
        assert(out@.to_multiset().add(v@.to_multiset()) =~= orig.to_multiset());
    }
    while v.len() > 0
        invariant
            out@.to_multiset().add(v@.to_multiset()) == orig.to_multiset(),
            sorted_by(out@, cand_leq()),
            forall|i: int, j: int|
                0 <= i < out@.len() && 0 <= j < v@.len() ==> cand_le(
                    #[trigger] out@[i],
                    #[trigger] v@[j],
                ),
        decreases v@.len(),
    {
        let mut m: usize = 0;
        let mut k: usize = 1;
        while k < v.len()
            invariant
                v@.len() > 0,
                0 <= m < k <= v@.len(),
                forall|t: int| 0 <= t < k ==> cand_le(v@[m as int], #[trigger] v@[t]),
            decreases v@.len() - k,
        {
            if cand_before(&v[k], &v[m]) {
                m = k;
            }
            k += 1;
        }
        let ghost out_before = out@;
        let ghost v_before = v@;
        let x = v.remove(m);
        out.push(x);
        proof {
            assert(v_before.remove(m as int).to_multiset() == v_before.to_multiset().remove(x));
            assert(out_before.push(x).to_multiset() == out_before.to_multiset().insert(x));
            assert(v_before.to_multiset().contains(x));
            assert(out@.to_multiset().add(v@.to_multiset()) =~= orig.to_multiset());
            assert forall|i: int, j: int|
                0 <= i < out@.len() && 0 <= j < v@.len() implies cand_le(
                #[trigger] out@[i],
                #[trigger] v@[j],
            ) by {
                assert(v@[j] == v_before[if j < m { j } else { j + 1 }]);
                if i < out_before.len() {
                    assert(cand_le(out_before[i], v_before[if j < m { j } else { j + 1 }]));
                } else {
                    assert(out@[i] == x);
                    assert(cand_le(v_before[m as int], v_before[if j < m { j } else { j + 1 }]));
                }
            }
            assert(sorted_by(out@, cand_leq())) by {
                assert forall|i: int, j: int| 0 <= i < j < out@.len() implies #[trigger] cand_leq()(
                    out@[i],
                    out@[j],
                ) by {
                    if j < out_before.len() {
                        assert(cand_leq()(out_before[i], out_before[j]));
                    } else {
                        assert(out@[j] == x);
                        assert(cand_le(out_before[i], v_before[m as int]));
                    }
                }
            }
        }
    }
    proof {
        assert(v@.to_multiset() =~= Multiset::empty());
        assert(out@.to_multiset() =~= orig.to_multiset());
        lemma_cand_leq_total();
        orig.lemma_sort_by_ensures(cand_leq());
        lemma_sorted_unique(out@, orig.sort_by(cand_leq()), cand_leq());
        assert(out@ == orig.sort_by(cand_leq()));
        assert(out@.to_multiset().len() == out@.len());
        assert(orig.to_multiset().len() == orig.len());
    }
    out
}

/// Whether a candidate's crow-flies distance is within the maximum range.
pub open spec fn in_range_fn() -> spec_fn((ChargerLocation, u64)) -> bool {
    |e: (ChargerLocation, u64)| e.1 < MAX_RANGE_METERS
}

/// The complement of `in_range_fn`.
pub open spec fn out_range_fn() -> spec_fn((ChargerLocation, u64)) -> bool {
    |e: (ChargerLocation, u64)| !(e.1 < MAX_RANGE_METERS)
}

/// Pairs a charger with its crow-flies distance from the trial point.
pub open spec fn entry_fn(p: TrialPoint) -> spec_fn(ChargerLocation) -> (ChargerLocation, u64) {
    |c: ChargerLocation| (c, crow_to(p, c))
}

/// Looks an identifier up in the charger map and pairs the charger with its
/// crow-flies distance from the trial point.
pub open spec fn id_entry_fn(p: TrialPoint, s: AllChargerLocations) -> spec_fn(u64) -> (
    ChargerLocation,
    u64,
) {
    |id: u64| (s.chargers_by_id@[id], crow_to(p, s.chargers_by_id@[id]))
}

/// The search rectangle around a trial point, as `(lat_min, lat_max,
/// lon_min, lon_max)` in microdegrees: the maximum range plus the padding,
/// carried north, east, south and west of the point.
pub open spec fn search_rect(p: TrialPoint) -> (int, int, int, int) {
    let m = (MAX_RANGE_METERS + QUERY_PADDING_METERS) as int;
    let hi = coords_plus_meters(m, p.latitude as int, p.longitude as int);
    let lo = coords_plus_meters(-m, p.latitude as int, p.longitude as int);
    (lo.0, hi.0, lo.1, hi.1)
}

/// Whether an identifier the index returns has a charger record: the
/// frame's identifier, and nothing else a well-formed index yields, lacks
/// one.
pub open spec fn known_id_fn(s: AllChargerLocations) -> spec_fn(u64) -> bool {
    |id: u64| s.chargers_by_id@.contains_key(id)
}

/// Expands an identifier the index returns to every charger of its
/// position cell: the cell list of the returned charger's cell.
pub open spec fn expand_id_fn(s: AllChargerLocations) -> spec_fn(u64) -> Seq<u64> {
    |id: u64| s.chargers_by_cell@[packed_cell(charger_cell(s.chargers_by_id@[id]))]@
}

/// The charger identifiers the spatial index yields for a trial point:
/// the identifiers the padded rectangle query returns (those with a
/// record; the query also reports the index's frame), each expanded to
/// all the chargers of its position cell, in query order.
pub open spec fn candidate_ids(p: TrialPoint, s: AllChargerLocations) -> Seq<u64> {
    qt_query(
        s.quadtree,
        search_rect(p).0,
        search_rect(p).1,
        search_rect(p).2,
        search_rect(p).3,
    ).filter(known_id_fn(s)).flat_map(expand_id_fn(s))
}

/// The candidates the spatial index yields for a trial point: each
/// candidate identifier's charger, paired with its crow-flies distance.
pub open spec fn candidate_entries(p: TrialPoint, s: AllChargerLocations) -> Seq<
    (ChargerLocation, u64),
> {
    candidate_ids(p, s).map_values(id_entry_fn(p, s))
}

/// Whether a charger's position cell lies within the search rectangle of
/// a trial point, at the index's f32 resolution.
pub open spec fn charger_in_search_rect(p: TrialPoint, s: AllChargerLocations, id: u64) -> bool {
    cell_in_rect(
        charger_cell(s.chargers_by_id@[id]),
        f32_bits(search_rect(p).0),
        f32_bits(search_rect(p).1),
        f32_bits(search_rect(p).2),
        f32_bits(search_rect(p).3),
    )
}

/// An element's expansion lands in the flat map.
proof fn lemma_flat_map_contains<A, B>(s: Seq<A>, f: spec_fn(A) -> Seq<B>, k: int, x: B)
    requires
        0 <= k < s.len(),
        f(s[k]).contains(x),
    ensures
        s.flat_map(f).contains(x),
    decreases s.len(),
{
    s.drop_last().lemma_flat_map_push(f, s.last());
    assert(s.drop_last().push(s.last()) =~= s);
    let fk = f(s[k]);
    if k == s.len() - 1 {
        let j = choose|j: int| 0 <= j < fk.len() && #[trigger] fk[j] == x;
        assert(s.flat_map(f)[s.drop_last().flat_map(f).len() + j] == x);
    } else {
        lemma_flat_map_contains(s.drop_last(), f, k, x);
        let front = s.drop_last().flat_map(f);
        let j = choose|j: int| 0 <= j < front.len() && #[trigger] front[j] == x;
        assert(s.flat_map(f)[j] == x);
    }
}

/// An element of a flat map comes from some element's expansion.
proof fn lemma_flat_map_mem<A, B>(s: Seq<A>, f: spec_fn(A) -> Seq<B>, x: B)
    requires
        s.flat_map(f).contains(x),
    ensures
        exists|k: int| 0 <= k < s.len() && f(#[trigger] s[k]).contains(x),
    decreases s.len(),
{
    if s.len() > 0 {
        s.drop_last().lemma_flat_map_push(f, s.last());
        assert(s.drop_last().push(s.last()) =~= s);
        if f(s.last()).contains(x) {
            assert(f(s[s.len() - 1]).contains(x));
        } else {
            assert(s.drop_last().flat_map(f).contains(x)) by {
                let j = choose|j: int| 0 <= j < s.flat_map(f).len() && s.flat_map(f)[j] == x;
                assert(s.flat_map(f) =~= s.drop_last().flat_map(f) + f(s.last()));
                if j >= s.drop_last().flat_map(f).len() {
                    assert(f(s.last()).contains(x));
                }
            }
            lemma_flat_map_mem(s.drop_last(), f, x);
            let k = choose|k: int|
                0 <= k < s.drop_last().len() && f(#[trigger] s.drop_last()[k]).contains(x);
            assert(f(s[k]).contains(x));
        }
    }
}

/// Expanding a distinct list of stored quadtree identifiers yields every
/// charger identifier at most once: distinct tree points sit in distinct
/// cells, cell lists are duplicate-free, and lists of distinct cells are
/// disjoint.
proof fn lemma_expand_no_duplicates(s: AllChargerLocations, ids: Seq<u64>)
    requires
        s.wf(),
        ids.no_duplicates(),
        forall|k: int|
            0 <= k < ids.len() ==> s.chargers_by_id@.contains_key(#[trigger] ids[k]) && qt_cells(
                s.quadtree,
            ).dom().contains(ids[k]),
    ensures
        ids.flat_map(expand_id_fn(s)).no_duplicates(),
    decreases ids.len(),
{
    if ids.len() > 0 {
        let front = ids.drop_last();
        let last = ids.last();
        assert(front.no_duplicates());
        lemma_expand_no_duplicates(s, front);
        front.lemma_flat_map_push(expand_id_fn(s), last);
        assert(front.push(last) =~= ids);
        let fm = front.flat_map(expand_id_fn(s));
        let lst = expand_id_fn(s)(last);
        let pc_last = packed_cell(charger_cell(s.chargers_by_id@[last]));
        assert(s.chargers_by_cell@.contains_key(pc_last));
        assert(lst.no_duplicates());
        assert forall|x: u64| fm.contains(x) implies !lst.contains(x) by {
            if lst.contains(x) {
                lemma_flat_map_mem(front, expand_id_fn(s), x);
                let k = choose|k: int|
                    0 <= k < front.len() && expand_id_fn(s)(#[trigger] front[k]).contains(x);
                let other = front[k];
                let pc_other = packed_cell(charger_cell(s.chargers_by_id@[other]));
                assert(s.chargers_by_cell@.contains_key(pc_other));
                // x's own cell word equals both lists' words, so the cells
                // and their heads coincide; only the head of a list is a
                // tree point, so the two tree identifiers are one.
                assert(packed_cell(charger_cell(s.chargers_by_id@[x])) == pc_last);
                assert(packed_cell(charger_cell(s.chargers_by_id@[x])) == pc_other);
                let l_last = s.chargers_by_cell@[pc_last]@;
                assert(qt_cells(s.quadtree)[last] == charger_cell(s.chargers_by_id@[last]));
                assert(l_last.contains(last)) by {
                    assert(s.chargers_by_id@.contains_key(last));
                }
                let jl = choose|j: int| 0 <= j < l_last.len() && l_last[j] == last;
                assert(jl == 0) by {
                    if jl > 0 {
                        assert(!qt_cells(s.quadtree).dom().contains(l_last[jl]));
                    }
                }
                assert(l_last[0] == last);
                let l_other = s.chargers_by_cell@[pc_other]@;
                assert(l_other.contains(other));
                let jo = choose|j: int| 0 <= j < l_other.len() && l_other[j] == other;
                assert(jo == 0) by {
                    if jo > 0 {
                        assert(!qt_cells(s.quadtree).dom().contains(l_other[jo]));
                    }
                }
                assert(l_other[0] == other);
                assert(pc_last == pc_other);
                assert(last == other);
                assert(ids[ids.len() - 1] == last && ids[k] == other && k < ids.len() - 1);
            }
        }
        assert forall|j1: int, j2: int|
            0 <= j1 < ids.flat_map(expand_id_fn(s)).len() && 0 <= j2 < ids.flat_map(
                expand_id_fn(s),
            ).len() && j1 != j2 implies ids.flat_map(expand_id_fn(s))[j1] != ids.flat_map(
            expand_id_fn(s),
        )[j2] by {
            let whole = ids.flat_map(expand_id_fn(s));
            assert(whole =~= fm + lst);
            let a = if j1 < j2 {
                j1
            } else {
                j2
            };
            let b = if j1 < j2 {
                j2
            } else {
                j1
            };
            if b < fm.len() {
                assert(whole[a] == fm[a] && whole[b] == fm[b]);
            } else if a >= fm.len() {
                assert(whole[a] == lst[a - fm.len()] && whole[b] == lst[b - fm.len()]);
            } else {
                assert(whole[a] == fm[a] && whole[b] == lst[b - fm.len()]);
                assert(fm.contains(fm[a]));
                if whole[a] == whole[b] {
                    assert(lst.contains(fm[a]));
                }
            }
        }
    }
}

/// Filtering keeps a distinct sequence distinct, and adds nothing.
proof fn lemma_filter_no_duplicates<A>(s: Seq<A>, pred: spec_fn(A) -> bool)
    requires
        s.no_duplicates(),
    ensures
        s.filter(pred).no_duplicates(),
        forall|x: A| #[trigger] s.filter(pred).contains(x) ==> s.contains(x),
    decreases s.len(),
{
    reveal(Seq::filter);
    if s.len() > 0 {
        let rest = s.drop_last();
        assert(rest.no_duplicates());
        lemma_filter_no_duplicates(rest, pred);
        assert forall|x: A| #[trigger] s.filter(pred).contains(x) implies s.contains(x) by {
            if rest.filter(pred).contains(x) {
                let j = choose|j: int| 0 <= j < rest.len() && rest[j] == x;
                assert(s[j] == x);
            } else {
                assert(x == s.last());
            }
        }
        if pred(s.last()) {
            assert(s.filter(pred) == rest.filter(pred).push(s.last()));
            assert(!rest.filter(pred).contains(s.last())) by {
                if rest.filter(pred).contains(s.last()) {
                    assert(rest.contains(s.last()));
                    let j = choose|j: int| 0 <= j < rest.len() && rest[j] == s.last();
                    assert(s[j] == s[s.len() - 1]);
                }
            }
            assert forall|a: int, b: int|
                0 <= a < s.filter(pred).len() && 0 <= b < s.filter(pred).len() && a
                    != b implies s.filter(pred)[a] != s.filter(pred)[b] by {
                let f = s.filter(pred);
                let g = rest.filter(pred);
                if a < g.len() && b < g.len() {
                    assert(f[a] == g[a] && f[b] == g[b]);
                } else if a < g.len() {
                    assert(f[b] == s.last() && f[a] == g[a]);
                    assert(g.contains(g[a]));
                } else {
                    assert(f[a] == s.last() && f[b] == g[b]);
                    assert(g.contains(g[b]));
                }
            }
        }
    }
}

/// The indexed nearest-charger result: the candidates in candidate order.
pub open spec fn nearest_spec(p: TrialPoint, s: AllChargerLocations) -> Seq<
    (ChargerLocation, u64),
> {
    candidate_entries(p, s).sort_by(cand_leq())
}

/// The slow-scan reference result: every charger of the full set paired
/// with its distance, those at or beyond the maximum range dropped, the
/// rest in candidate order.
pub open spec fn slow_scan_spec(p: TrialPoint, all: Seq<ChargerLocation>) -> Seq<
    (ChargerLocation, u64),
> {
    all.map_values(entry_fn(p)).filter(in_range_fn()).sort_by(cand_leq())
}

impl TrialPoint {
    /// The chargers the spatial index considers candidates for this point,
    /// each with its crow-flies distance, nearest first.
    ///
    /// The index query uses a rectangle padded beyond the maximum range, so
    /// the result is a superset filter: it may hold chargers beyond range,
    /// and the exact distances computed here are what callers decide by.
    /// Every entry is a charger stored in the set, under its own
    /// identifier; no identifier appears twice; and every stored charger
    /// whose position cell lies within the search rectangle appears.
    pub fn nearest_chargers(&self, chargers: &AllChargerLocations) -> (r: Vec<
        (ChargerLocation, u64),
    >)
        requires
            chargers.wf(),
        ensures
            r@ == nearest_spec(*self, *chargers),
            sorted_by(r@, cand_leq()),
            r@.to_multiset() == candidate_entries(*self, *chargers).to_multiset(),
            forall|k: int|
                0 <= k < r@.len() ==> {
                    let e = #[trigger] r@[k];
                    &&& chargers.chargers_by_id@.contains_key(e.0.id)
                    &&& e.0 == chargers.chargers_by_id@[e.0.id]
                    &&& e.1 == crow_to(*self, e.0)
                },
            forall|a: int, b: int| 0 <= a < b < r@.len() ==> r@[a].0.id != r@[b].0.id,
            forall|id: u64|
                #[trigger] chargers.chargers_by_id@.contains_key(id) && charger_in_search_rect(
                    *self,
                    *chargers,
                    id,
                ) ==> exists|k: int| 0 <= k < r@.len() && (#[trigger] r@[k]).0.id == id,
    {
        let pad: i64 = (MAX_RANGE_METERS + QUERY_PADDING_METERS) as i64;
        let (max_lat, max_lon) = add_meters_to_coords(pad, (self.latitude, self.longitude));
        let (min_lat, min_lon) = add_meters_to_coords(-pad, (self.latitude, self.longitude));
        let ids = crate::index::qt_overlap_ids(
            &chargers.quadtree,
            min_lat,
            max_lat,
            min_lon,
            max_lon,
        );
        let ghost idseq = ids@;
        let ghost known = known_id_fn(*chargers);
        let ghost expand = expand_id_fn(*chargers);
        let ghost entryf = id_entry_fn(*self, *chargers);
        let mut cands: Vec<(ChargerLocation, u64)> = Vec::new();
        let ghost mut done_ids: Seq<u64> = Seq::empty();
        let mut i: usize = 0;
        proof {
            assert(idseq == qt_query(
                chargers.quadtree,
                search_rect(*self).0,
                search_rect(*self).1,
                search_rect(*self).2,
                search_rect(*self).3,
            ));
            reveal(Seq::filter);
            assert(idseq.subrange(0, 0) =~= Seq::<u64>::empty());
            assert(idseq.subrange(0, 0).filter(known).flat_map(expand) =~= Seq::<u64>::empty());
            assert(cands@ =~= done_ids.map_values(entryf));
        }
        while i < ids.len()
            invariant
                chargers.wf(),
                known == known_id_fn(*chargers),
                expand == expand_id_fn(*chargers),
                entryf == id_entry_fn(*self, *chargers),
                ids@ == idseq,
                0 <= i <= idseq.len(),
                done_ids == idseq.subrange(0, i as int).filter(known).flat_map(expand),
                cands@ == done_ids.map_values(entryf),
                forall|j: int|
                    0 <= j < done_ids.len() ==> chargers.chargers_by_id@.contains_key(
                        #[trigger] done_ids[j],
                    ),
            decreases idseq.len() - i,
        {
            let id = ids[i];
            proof {
                reveal(Seq::filter);
                let sub = idseq.subrange(0, i as int);
                let ext = idseq.subrange(0, i + 1);
                assert(ext =~= sub.push(idseq[i as int]));
                assert(ext.drop_last() =~= sub);
                assert(ext.last() == idseq[i as int]);
                assert(ext.filter(known) == if known(idseq[i as int]) {
                    sub.filter(known).push(idseq[i as int])
                } else {
                    sub.filter(known)
                });
                if known(idseq[i as int]) {
                    sub.filter(known).lemma_flat_map_push(expand, idseq[i as int]);
                }
            }
            match chargers.chargers_by_id.get(&id) {
                Some(charger) => {
                    let c = *charger;
                    let cell = (crate::index::f32_bits_of(c.latitude) & 0xffff_fffe,
                        crate::index::f32_bits_of(c.longitude) & 0xffff_fffe);
                    proof {
                        assert(cell == charger_cell(chargers.chargers_by_id@[id]));
                    }
                    let packed = crate::index::pack_cell(cell);
                    let ghost lst = expand(id);
                    proof {
                        assert(chargers.chargers_by_cell@.contains_key(packed));
                    }
                    match chargers.chargers_by_cell.get(&packed) {
                        Some(members) => {
                            let ghost members_seq = members@;
                            proof {
                                assert(members_seq == lst);
                            }
                            let mut j: usize = 0;
                            let ghost done_before = done_ids;
                            while j < members.len()
                                invariant
                                    chargers.wf(),
                                    entryf == id_entry_fn(*self, *chargers),
                                    members@ == members_seq,
                                    chargers.chargers_by_cell@.contains_key(packed),
                                    chargers.chargers_by_cell@[packed]@ == members_seq,
                                    0 <= j <= members_seq.len(),
                                    done_ids == done_before + members_seq.subrange(0, j as int),
                                    cands@ == done_ids.map_values(entryf),
                                    forall|t: int|
                                        0 <= t < done_ids.len()
                                            ==> chargers.chargers_by_id@.contains_key(
                                            #[trigger] done_ids[t],
                                        ),
                                decreases members_seq.len() - j,
                            {
                                let member = members[j];
                                proof {
                                    assert(members_seq[j as int] == member);
                                    assert(chargers.chargers_by_id@.contains_key(member));
                                }
                                match chargers.chargers_by_id.get(&member) {
                                    Some(mc) => {
                                        let mcv = *mc;
                                        let d = self.distance_to(&mcv);
                                        cands.push((mcv, d));
                                    },
                                    None => {
                                        proof {
                                            assert(false);
                                        }
                                    },
                                }
                                proof {
                                    done_ids = done_ids.push(member);
                                    assert(done_ids =~= done_before + members_seq.subrange(
                                        0,
                                        j + 1,
                                    ));
                                    assert(cands@ =~= done_ids.map_values(entryf));
                                }
                                j += 1;
                            }
                            proof {
                                assert(members_seq.subrange(0, members_seq.len() as int)
                                    =~= members_seq);
                                assert(done_ids =~= done_before + lst);
                                assert(done_ids =~= idseq.subrange(0, i + 1).filter(
                                    known,
                                ).flat_map(expand));
                            }
                        },
                        None => {
                            proof {
                                assert(false);
                            }
                        },
                    }
                },
                None => {
                    proof {
                        assert(!known(idseq[i as int]));
                        assert(done_ids =~= idseq.subrange(0, i + 1).filter(known).flat_map(
                            expand,
                        ));
                    }
                },
            }
            i += 1;
        }
        proof {
            assert(idseq.subrange(0, idseq.len() as int) =~= idseq);
            assert(done_ids == candidate_ids(*self, *chargers));
            assert(cands@ == candidate_entries(*self, *chargers));
        }
        let r = sort_candidates(cands);
        proof {
            let entries = candidate_entries(*self, *chargers);
            let cids = candidate_ids(*self, *chargers);
            let filtered = idseq.filter(known);
            assert(idseq.no_duplicates());
            lemma_filter_no_duplicates(idseq, known);
            assert forall|k: int| 0 <= k < filtered.len() implies chargers.chargers_by_id@.contains_key(
                #[trigger] filtered[k],
            ) && qt_cells(chargers.quadtree).dom().contains(filtered[k]) by {
                idseq.lemma_filter_pred(known, k);
                assert(filtered.contains(filtered[k]));
                assert(idseq.contains(filtered[k]));
                let t = choose|t: int| 0 <= t < idseq.len() && idseq[t] == filtered[k];
                assert(crate::index::qt_ids(chargers.quadtree).contains(idseq[t]));
                assert(filtered[k] != crate::index::frame_id());
            }
            lemma_expand_no_duplicates(*chargers, filtered);
            assert(cids.no_duplicates());
            // Each candidate identifier is a stored charger's.
            assert forall|j: int| 0 <= j < cids.len() implies chargers.chargers_by_id@.contains_key(
                #[trigger] cids[j],
            ) by {
                assert(cids.contains(cids[j]));
                lemma_flat_map_mem(filtered, expand, cids[j]);
                let k = choose|k: int|
                    0 <= k < filtered.len() && expand(#[trigger] filtered[k]).contains(cids[j]);
                idseq.lemma_filter_pred(known, k);
            }
            assert forall|j1: int, j2: int|
                0 <= j1 < entries.len() && 0 <= j2 < entries.len() && j1 != j2 implies entries[j1]
                != entries[j2] by {
                assert(entries[j1].0.id == cids[j1] && entries[j2].0.id == cids[j2]);
            }
            assert(entries.no_duplicates());
            entries.lemma_multiset_has_no_duplicates();
            assert(forall|x: (ChargerLocation, u64)|
                r@.to_multiset().contains(x) ==> r@.to_multiset().count(x) == 1);
            r@.lemma_multiset_has_no_duplicates_conv();
            assert forall|k: int| 0 <= k < r@.len() implies {
                let e = #[trigger] r@[k];
                &&& chargers.chargers_by_id@.contains_key(e.0.id)
                &&& e.0 == chargers.chargers_by_id@[e.0.id]
                &&& e.1 == crow_to(*self, e.0)
            } by {
                assert(r@.to_multiset().contains(r@[k]));
                assert(entries.to_multiset().contains(r@[k]));
                assert(entries.contains(r@[k]));
                let j = choose|j: int| 0 <= j < entries.len() && entries[j] == r@[k];
                assert(entries[j].0 == chargers.chargers_by_id@[cids[j]]);
                assert(entries[j].0.id == cids[j]);
            }
            assert forall|a: int, b: int| 0 <= a < b < r@.len() implies r@[a].0.id
                != r@[b].0.id by {
                if r@[a].0.id == r@[b].0.id {
                    let d = r@[a].0.id;
                    assert(r@[a].0 == chargers.chargers_by_id@[d]);
                    assert(r@[b].0 == chargers.chargers_by_id@[d]);
                    assert(r@[a] == r@[b]);
                    assert(r@.no_duplicates());
                }
            }
            // Completeness: a stored charger whose cell lies in the search
            // rectangle is listed under its cell, whose head point the
            // query returns, and the head's expansion lists the charger.
            assert forall|id: u64|
                #[trigger] chargers.chargers_by_id@.contains_key(id) && charger_in_search_rect(
                    *self,
                    *chargers,
                    id,
                ) implies exists|k: int| 0 <= k < r@.len() && (#[trigger] r@[k]).0.id == id by {
                let pc = packed_cell(charger_cell(chargers.chargers_by_id@[id]));
                assert(chargers.chargers_by_cell@.contains_key(pc));
                let lst2 = chargers.chargers_by_cell@[pc]@;
                assert(lst2.contains(id));
                let head = lst2[0];
                assert(qt_cells(chargers.quadtree).dom().contains(head));
                assert(packed_cell(qt_cells(chargers.quadtree)[head]) == pc);
                crate::index::lemma_pack_injective(
                    qt_cells(chargers.quadtree)[head],
                    charger_cell(chargers.chargers_by_id@[id]),
                );
                assert(idseq.contains(head));
                let hk = choose|hk: int| 0 <= hk < idseq.len() && idseq[hk] == head;
                assert(known(idseq[hk]));
                idseq.lemma_filter_contains(known, hk);
                assert(filtered.contains(head));
                let fk = choose|fk: int| 0 <= fk < filtered.len() && filtered[fk] == head;
                assert(expand(filtered[fk]).contains(id)) by {
                    assert(qt_cells(chargers.quadtree)[head] == charger_cell(
                        chargers.chargers_by_id@[head],
                    ));
                }
                lemma_flat_map_contains(filtered, expand, fk, id);
                assert(cids.contains(id));
                let cj = choose|cj: int| 0 <= cj < cids.len() && cids[cj] == id;
                assert(entries[cj].0.id == id);
                assert(entries.contains(entries[cj]));
                assert(entries.to_multiset().contains(entries[cj]));
                assert(r@.to_multiset().contains(entries[cj]));
                assert(r@.contains(entries[cj]));
                let rk = choose|rk: int| 0 <= rk < r@.len() && r@[rk] == entries[cj];
                assert(r@[rk].0.id == id);
            }
        }
        r
    }

    /// The slow linear-scan reference: the distance to every charger of the
    /// full set is recomputed, chargers at or beyond the maximum range are
    /// dropped, and the survivors are sorted nearest first.
    pub fn nearest_chargers_slow(&self, chargers: &Vec<ChargerLocation>) -> (r: Vec<
        (ChargerLocation, u64),
    >)
        ensures
            r@ == slow_scan_spec(*self, chargers@),
            sorted_by(r@, cand_leq()),
    {
        let ghost all = chargers@;
        let mut entries: Vec<(ChargerLocation, u64)> = Vec::new();
        let mut i: usize = 0;
        proof {
            reveal(Seq::filter);
            assert(all.subrange(0, 0).map_values(entry_fn(*self)) =~= Seq::<
                (ChargerLocation, u64),
            >::empty());
            assert(entries@ =~= all.subrange(0, 0).map_values(entry_fn(*self)).filter(
                in_range_fn(),
            ));
        }
        while i < chargers.len()
            invariant
                all == chargers@,
                0 <= i <= all.len(),
                entries@ == all.subrange(0, i as int).map_values(entry_fn(*self)).filter(
                    in_range_fn(),
                ),
            decreases all.len() - i,
        {
            let c = chargers[i];
            let d = self.distance_to(&c);
            proof {
                reveal(Seq::filter);
                let pre = all.subrange(0, i as int).map_values(entry_fn(*self));
                let ext = all.subrange(0, i + 1).map_values(entry_fn(*self));
                assert(ext =~= pre.push(entry_fn(*self)(all[i as int])));
                assert(ext.drop_last() =~= pre);
                assert(ext.filter(in_range_fn()) == if in_range_fn()(
                    entry_fn(*self)(all[i as int]),
                ) {
                    pre.filter(in_range_fn()).push(entry_fn(*self)(all[i as int]))
                } else {
                    pre.filter(in_range_fn())
                });
            }
            if d < MAX_RANGE_METERS {
                entries.push((c, d));
            }
            i += 1;
        }
        proof {
            assert(all.subrange(0, all.len() as int) =~= all);
        }
        sort_candidates(entries)
    }

    /// Classifies this point against the charger set. Candidates at or
    /// beyond the maximum range as the crow flies are discarded first: a
    /// straight line is never longer than a road, so such a charger cannot
    /// be reachable. `No` when no candidate survives, `Yes` when the
    /// nearest survivor is within the crow-flies threshold, `Maybe` with
    /// the surviving candidates otherwise.
    pub fn check_charger(&self, chargers: &AllChargerLocations) -> (r: CheckResult)
        requires
            chargers.wf(),
        ensures
            r@ == check_spec(*self, *chargers),
            r@ matches CheckView::Maybe { candidates } ==> sorted_by(candidates, cand_leq()),
            (forall|id: u64|
                #[trigger] chargers.chargers_by_id@.contains_key(id) ==> crow_to(
                    *self,
                    chargers.chargers_by_id@[id],
                ) >= MAX_RANGE_METERS) ==> r@ == CheckView::No,
            (exists|id: u64|
                #[trigger] chargers.chargers_by_id@.contains_key(id) && charger_in_search_rect(
                    *self,
                    *chargers,
                    id,
                ) && crow_to(*self, chargers.chargers_by_id@[id])
                    < CROW_FLIES_THRESHOLD_METERS) ==> r@ == CheckView::Yes,
            r@ == CheckView::No ==> forall|id: u64|
                #[trigger] chargers.chargers_by_id@.contains_key(id) && charger_in_search_rect(
                    *self,
                    *chargers,
                    id,
                ) ==> crow_to(*self, chargers.chargers_by_id@[id]) >= MAX_RANGE_METERS,
    {
        let nearest_chargers = self.nearest_chargers(chargers);
        let ghost sorted = nearest_chargers@;

        // The list is sorted nearest first, so the candidates within range
        // form its head: keep entries until the first one at or beyond the
        // maximum range.
        let mut kept: Vec<(ChargerLocation, u64)> = Vec::new();
        let mut i: usize = 0;
        while i < nearest_chargers.len() && nearest_chargers[i].1 < MAX_RANGE_METERS
            invariant
                sorted == nearest_chargers@,
                sorted_by(sorted, cand_leq()),
                0 <= i <= sorted.len(),
                kept@ =~= sorted.subrange(0, i as int),
                forall|k: int| 0 <= k < i ==> (#[trigger] sorted[k]).1 < MAX_RANGE_METERS,
            decreases sorted.len() - i,
        {
            kept.push(nearest_chargers[i]);
            i += 1;
        }
        proof {
            assert forall|k: int| i <= k < sorted.len() implies !in_range_fn()(
                #[trigger] sorted[k],
            ) by {
                if i < sorted.len() {
                    if k > i {
                        assert(cand_leq()(sorted[i as int], sorted[k]));
                    }
                }
            }
            lemma_filter_of_sorted_prefix(sorted, i as int);
            assert(kept@ == sorted.filter(in_range_fn()));
            // A straight line is never longer than a road: with every
            // stored charger at or beyond the maximum range as the crow
            // flies, nothing survives the range filter.
            if forall|id: u64|
                #[trigger] chargers.chargers_by_id@.contains_key(id) ==> crow_to(
                    *self,
                    chargers.chargers_by_id@[id],
                ) >= MAX_RANGE_METERS {
                assert forall|k: int| 0 <= k < sorted.len() implies !in_range_fn()(
                    #[trigger] sorted[k],
                ) by {
                    assert(sorted[k].0 == chargers.chargers_by_id@[sorted[k].0.id]);
                    assert(sorted[k].1 == crow_to(*self, sorted[k].0));
                }
                sorted.lemma_all_neg_filter_empty(in_range_fn());
                assert(kept@.len() == 0);
            }
            // A stored charger whose cell lies in the search rectangle is
            // among the candidates; within crow-flies range it survives the
            // filter, and nearer than the threshold it puts the sorted
            // list's head under the threshold too.
            assert forall|id: u64|
                #[trigger] chargers.chargers_by_id@.contains_key(id) && charger_in_search_rect(
                    *self,
                    *chargers,
                    id,
                ) && crow_to(*self, chargers.chargers_by_id@[id]) < MAX_RANGE_METERS implies kept@.len()
                > 0 && kept@[0].1 <= crow_to(*self, chargers.chargers_by_id@[id]) by {
                let k = choose|k: int|
                    0 <= k < sorted.len() && (#[trigger] sorted[k]).0.id == id;
                assert(sorted[k].0 == chargers.chargers_by_id@[id]);
                assert(sorted[k].1 == crow_to(*self, chargers.chargers_by_id@[id]));
                assert(in_range_fn()(sorted[k]));
                assert(k < i as int);
                assert(kept@[k] == sorted[k]);
                if k > 0 {
                    assert(cand_leq()(sorted[0], sorted[k]));
                }
                assert(kept@[0] == sorted[0]);
            }
        }

        // With no candidate within crow-flies range, no charger can be
        // within driving range.
        if kept.is_empty() {
            return CheckResult::No;
        }
        let nearest_charger_distance = kept[0].1;

        if nearest_charger_distance < CROW_FLIES_THRESHOLD_METERS {
            // Close enough as a straight line that driving there is assumed
            // to be in range: skip the oracle.
            CheckResult::Yes
        } else {
            CheckResult::Maybe { candidates: kept }
        }
    }
}

/// In a sorted candidate sequence whose first `i` entries are within range
/// and whose remainder is not, the in-range entries are exactly that prefix.
proof fn lemma_filter_of_sorted_prefix(s: Seq<(ChargerLocation, u64)>, i: int)
    requires
        0 <= i <= s.len(),
        forall|k: int| 0 <= k < i ==> in_range_fn()(#[trigger] s[k]),
        forall|k: int| i <= k < s.len() ==> !in_range_fn()(#[trigger] s[k]),
    ensures
        s.filter(in_range_fn()) == s.subrange(0, i),
{
    let head = s.subrange(0, i);
    let tail = s.subrange(i, s.len() as int);
    assert(s =~= head + tail);
    Seq::filter_distributes_over_add(head, tail, in_range_fn());
    lemma_filter_of_satisfying(head, in_range_fn());
    tail.lemma_all_neg_filter_empty(in_range_fn());
    assert(head.filter(in_range_fn()) + tail.filter(in_range_fn()) =~= head);
}

/// Filtering keeps a sequence whole when every entry satisfies the
/// predicate.
proof fn lemma_filter_of_satisfying<A>(s: Seq<A>, pred: spec_fn(A) -> bool)
    requires
        forall|k: int| 0 <= k < s.len() ==> pred(#[trigger] s[k]),
    ensures
        s.filter(pred) == s,
    decreases s.len(),
{
    reveal(Seq::filter);
    if s.len() > 0 {
        lemma_filter_of_satisfying(s.drop_last(), pred);
        assert(s.drop_last().push(s.last()) =~= s);
    }
}

/// The verdict of the reachability classifier for one trial point.
#[derive(Debug, PartialEq)]
pub enum CheckResult {
    /// A charger is certainly reachable.
    Yes,
    /// No charger can be reachable.
    No,
    /// The routing oracle must decide, trying the candidates nearest first.
    Maybe { candidates: Vec<(ChargerLocation, u64)> },
}

/// The mathematical value of a verdict.
pub enum CheckView {
    Yes,
    No,
    Maybe { candidates: Seq<(ChargerLocation, u64)> },
}

impl View for CheckResult {
    type V = CheckView;

    open spec fn view(&self) -> CheckView {
        match self {
            CheckResult::Yes => CheckView::Yes,
            CheckResult::No => CheckView::No,
            CheckResult::Maybe { candidates } => CheckView::Maybe { candidates: candidates@ },
        }
    }
}

/// The verdict for a trial point, as a function of the point and the
/// charger set alone: decided over the in-range candidates, nearest first.
pub open spec fn check_spec(p: TrialPoint, s: AllChargerLocations) -> CheckView {
    let cands = nearest_spec(p, s).filter(in_range_fn());
    if cands.len() == 0 {
        CheckView::No
    } else if cands[0].1 < CROW_FLIES_THRESHOLD_METERS {
        CheckView::Yes
    } else {
        CheckView::Maybe { candidates: cands }
    }
}

/// Classification is deterministic: the verdict is a function of the trial
/// point and the charger set alone, so classifying the same point against
/// an unchanged index twice yields the same verdict.
pub proof fn lemma_classification_idempotent(
    p: TrialPoint,
    s: AllChargerLocations,
    r1: CheckView,
    r2: CheckView,
)
    requires
        r1 == check_spec(p, s),
        r2 == check_spec(p, s),
    ensures
        r1 == r2,
{
}

/// Splits a sequence's multiset by a predicate: the elements satisfying it
/// and those refuting it together make up the whole.
proof fn lemma_filter_partition<A>(s: Seq<A>, pred: spec_fn(A) -> bool, co: spec_fn(A) -> bool)
    requires
        forall|x: A| #[trigger] co(x) == !pred(x),
    ensures
        s.to_multiset() == s.filter(pred).to_multiset().add(s.filter(co).to_multiset()),
    decreases s.len(),
{
    reveal(Seq::filter);
    if s.len() == 0 {
        assert(s.to_multiset() =~= s.filter(pred).to_multiset().add(s.filter(co).to_multiset()));
    } else {
        let rest = s.drop_last();
        let x = s.last();
        lemma_filter_partition(rest, pred, co);
        assert(rest.push(x) =~= s);
        assert(s.to_multiset() == rest.to_multiset().insert(x));
        if pred(x) {
            assert(s.filter(pred) == rest.filter(pred).push(x));
            assert(s.filter(co) == rest.filter(co));
            assert(s.filter(pred).to_multiset() == rest.filter(pred).to_multiset().insert(x));
            assert(s.to_multiset() =~= s.filter(pred).to_multiset().add(
                s.filter(co).to_multiset(),
            ));
        } else {
            assert(co(x));
            assert(s.filter(co) == rest.filter(co).push(x));
            assert(s.filter(pred) == rest.filter(pred));
            assert(s.filter(co).to_multiset() == rest.filter(co).to_multiset().insert(x));
            assert(s.to_multiset() =~= s.filter(pred).to_multiset().add(
                s.filter(co).to_multiset(),
            ));
        }
    }
}

/// Core of the prefix-compatibility argument: a sorted sequence whose
/// multiset is a sorted in-range sequence plus extra entries at or beyond
/// the range bound begins with that in-range sequence, entry for entry.
pub proof fn lemma_sorted_superset_prefix(
    indexed: Seq<(ChargerLocation, u64)>,
    slow: Seq<(ChargerLocation, u64)>,
    extra: Multiset<(ChargerLocation, u64)>,
)
    requires
        sorted_by(indexed, cand_leq()),
        sorted_by(slow, cand_leq()),
        forall|i: int| 0 <= i < slow.len() ==> (#[trigger] slow[i]).1 < MAX_RANGE_METERS,
        forall|e: (ChargerLocation, u64)| extra.contains(e) ==> e.1 >= MAX_RANGE_METERS,
        indexed.to_multiset() == slow.to_multiset().add(extra),
    ensures
        indexed.len() >= slow.len(),
        forall|i: int| 0 <= i < slow.len() ==> indexed[i] == slow[i],
    decreases slow.len(),
{
    assert(indexed.to_multiset().len() == indexed.len());
    assert(slow.to_multiset().len() == slow.len());
    if slow.len() > 0 {
        assert(indexed.len() > 0);
        let x = indexed[0];
        let y = slow[0];
        assert(slow.to_multiset().contains(y));
        assert(indexed.to_multiset().contains(y));
        let j = choose|j: int| 0 <= j < indexed.len() && indexed[j] == y;
        assert(cand_le(x, y)) by {
            if j > 0 {
                assert(cand_leq()(indexed[0], indexed[j]));
            }
        }
        assert(indexed.to_multiset().contains(x));
        if extra.contains(x) {
            assert(x.1 >= MAX_RANGE_METERS);
            assert(x.1 <= y.1);
            assert(false);
        } else {
            assert(slow.to_multiset().count(x) + extra.count(x) == indexed.to_multiset().count(x));
            assert(slow.to_multiset().contains(x));
        }
        let t = choose|t: int| 0 <= t < slow.len() && slow[t] == x;
        assert(cand_le(y, x)) by {
            if t > 0 {
                assert(cand_leq()(slow[0], slow[t]));
            }
        }
        assert(x == y);
        let ind1 = indexed.drop_first();
        let slow1 = slow.drop_first();
        assert(indexed.remove(0) =~= ind1);
        assert(slow.remove(0) =~= slow1);
        assert(ind1.to_multiset() == indexed.to_multiset().remove(x));
        assert(slow1.to_multiset() == slow.to_multiset().remove(y));
        assert(ind1.to_multiset() =~= slow1.to_multiset().add(extra));
        assert(sorted_by(ind1, cand_leq())) by {
            assert(forall|a: int, b: int|
                0 <= a < b < ind1.len() ==> cand_leq()(indexed[a + 1], indexed[b + 1]) && ind1[a]
                    == indexed[a + 1] && ind1[b] == indexed[b + 1]);
        }
        assert(sorted_by(slow1, cand_leq())) by {
            assert(forall|a: int, b: int|
                0 <= a < b < slow1.len() ==> cand_leq()(slow[a + 1], slow[b + 1]) && slow1[a]
                    == slow[a + 1] && slow1[b] == slow[b + 1]);
        }
        lemma_sorted_superset_prefix(ind1, slow1, extra);
        assert forall|i: int| 0 <= i < slow.len() implies indexed[i] == slow[i] by {
            if i > 0 {
                assert(ind1[i - 1] == slow1[i - 1]);
                assert(indexed[i] == ind1[i - 1]);
                assert(slow[i] == slow1[i - 1]);
            }
        }
    }
}

/// Prefix compatibility of the indexed result with the slow scan: wherever
/// the padded rectangle query is complete for a point — the in-range part
/// of its candidates matches the in-range chargers of the full set — the
/// indexed result is at least as long as the slow scan and agrees with it
/// entry for entry over the slow scan's whole length.
pub proof fn lemma_nearest_prefix_of_slow_scan(
    p: TrialPoint,
    s: AllChargerLocations,
    all: Seq<ChargerLocation>,
)
    requires
        candidate_entries(p, s).filter(in_range_fn()).to_multiset() == all.map_values(
            entry_fn(p),
        ).filter(in_range_fn()).to_multiset(),
    ensures
        nearest_spec(p, s).len() >= slow_scan_spec(p, all).len(),
        forall|i: int|
            0 <= i < slow_scan_spec(p, all).len() ==> nearest_spec(p, s)[i] == slow_scan_spec(
                p,
                all,
            )[i],
{
    lemma_cand_leq_total();
    let cands = candidate_entries(p, s);
    let base = all.map_values(entry_fn(p));
    let slow_unsorted = base.filter(in_range_fn());
    let indexed = nearest_spec(p, s);
    let slow = slow_scan_spec(p, all);
    cands.lemma_sort_by_ensures(cand_leq());
    slow_unsorted.lemma_sort_by_ensures(cand_leq());
    lemma_filter_partition(cands, in_range_fn(), out_range_fn());
    let extra = cands.filter(out_range_fn()).to_multiset();
    assert(indexed.to_multiset() =~= slow.to_multiset().add(extra));
    assert(forall|i: int| 0 <= i < slow.len() ==> (#[trigger] slow[i]).1 < MAX_RANGE_METERS) by {
        assert forall|i: int| 0 <= i < slow.len() implies (#[trigger] slow[i]).1
            < MAX_RANGE_METERS by {
            assert(slow.to_multiset().contains(slow[i]));
            assert(slow_unsorted.to_multiset().contains(slow[i]));
            let k = choose|k: int| 0 <= k < slow_unsorted.len() && slow_unsorted[k] == slow[i];
            base.lemma_filter_pred(in_range_fn(), k);
        }
    }
    assert(forall|e: (ChargerLocation, u64)| extra.contains(e) ==> e.1 >= MAX_RANGE_METERS) by {
        assert forall|e: (ChargerLocation, u64)| extra.contains(e) implies e.1
            >= MAX_RANGE_METERS by {
            let co = cands.filter(out_range_fn());
            assert(co.to_multiset().contains(e));
            let k = choose|k: int| 0 <= k < co.len() && co[k] == e;
            cands.lemma_filter_pred(out_range_fn(), k);
        }
    }
    lemma_sorted_superset_prefix(indexed, slow, extra);
}

} // verus!
