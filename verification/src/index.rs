use vstd::prelude::*;
use std::collections::HashMap;
use std::collections::HashSet;

use crate::geom::ChargerLocation;
use crate::ingest::{row_kept, CsvRow};

verus! {

broadcast use vstd::std_specs::hash::group_hash_axioms;

/// quadtree_f32's spatial index, held opaquely: contracts speak of it only
/// through the names below.
#[verifier::external_type_specification]
#[verifier::external_body]
pub struct ExQuadTree(quadtree_f32::QuadTree);

/// Names the set of identifiers stored in a quadtree.
pub uninterp spec fn qt_ids(q: quadtree_f32::QuadTree) -> Set<u64>;

/// Names the position cells of the point items stored in a quadtree, keyed
/// by their identifiers (the frame rectangle of `qt_build` has no cell).
pub uninterp spec fn qt_cells(q: quadtree_f32::QuadTree) -> Map<u64, (u32, u32)>;

/// Names the identifier sequence that a rectangle query on a quadtree
/// returns, for a rectangle given as microdegree edges. The sequence is
/// fixed by the tree value and the four edges alone.
pub uninterp spec fn qt_query(
    q: quadtree_f32::QuadTree,
    lat_min: int,
    lat_max: int,
    lon_min: int,
    lon_max: int,
) -> Seq<u64>;

/// Names the bit pattern of a microdegree coordinate converted to the
/// index's f32 resolution. The conversion rounds to nearest and is defined
/// by the language for every value, so the pattern is fixed by the argument
/// alone.
pub uninterp spec fn f32_bits(x: int) -> u32;

/// Relies on the language's integer-to-float conversion, read back with
/// `to_bits`: the bit pattern of the coordinate at the index's resolution.
#[verifier::external_body]
pub(crate) fn f32_bits_of(x: i64) -> (r: u32)
    ensures
        r == f32_bits(x as int),
{
    quadtree_f32::Point::new(x as _, x as _).x.to_bits()
}

/// Value order on the bit patterns of finite floats as they arise here
/// (coordinates converted from integers, so negative zero never occurs):
/// among patterns with the sign bit clear the float order is the pattern
/// order, among patterns with it set the reverse, and every negative value
/// precedes every nonnegative one.
pub open spec fn f32_le(a: u32, b: u32) -> bool {
    if a >= 0x8000_0000 && b >= 0x8000_0000 {
        a >= b
    } else if a < 0x8000_0000 && b < 0x8000_0000 {
        a <= b
    } else {
        a >= 0x8000_0000
    }
}

/// Whether a position cell lies within a rectangle, all given as bit
/// patterns, under the float value order: the index compares positions as
/// floats, boundaries inclusive.
pub open spec fn cell_in_rect(
    cell: (u32, u32),
    lat_min: u32,
    lat_max: u32,
    lon_min: u32,
    lon_max: u32,
) -> bool {
    &&& f32_le(lat_min, cell.0)
    &&& f32_le(cell.0, lat_max)
    &&& f32_le(lon_min, cell.1)
    &&& f32_le(cell.1, lon_max)
}

/// A position cell at the index's resolution: the coordinate's bit pattern
/// with the lowest mantissa bit cleared, for each axis. Two coordinates in
/// one cell are indistinguishable to the index; cells are at least two
/// float steps apart, which is what keeps the quadtree's subdivision
/// terminating (see `qt_build`).
pub open spec fn pos_cell(lat: int, lon: int) -> (u32, u32) {
    (f32_bits(lat) & 0xffff_fffe, f32_bits(lon) & 0xffff_fffe)
}

/// The position cell of a charger's coordinates.
pub open spec fn charger_cell(c: ChargerLocation) -> (u32, u32) {
    pos_cell(c.latitude as int, c.longitude as int)
}

/// The identifier under which `qt_build` stores the frame rectangle that
/// fixes the tree's bounds; reserved, never a charger's.
pub open spec fn frame_id() -> u64 {
    usize::MAX as u64
}

/// Relies on quadtree_f32's `QuadTree::new` and `insert`. The wrapper
/// builds the whole index in one sweep: first a frame rectangle spanning
/// all world coordinates, then one point item per entry, placed at the
/// entry's position cell (x the latitude, y the longitude).
///
/// The preconditions are what make the calls return and store everything,
/// and the crate's source is the warrant for each:
/// - the frame is inserted first and every cell position lies inside it, so
///   the tree's bounding box never grows and no insert rebuilds the tree
///   (a rebuild re-inserts collected copies of boundary-straddling items
///   and can pile five co-located copies into one leaf);
/// - cell positions are snapped to even bit patterns and pairwise distinct,
///   so any point-sized leaf box holds at most one point beside the frame,
///   below the crate's five-item split threshold; subdividing a box that
///   still spans float values strictly shrinks it, so insertion cannot
///   recurse without progress (the crate's own tests record the stack
///   overflow that co-located items otherwise cause);
/// - every stored position lies inside the frame, so the descent always
///   finds an overlapping quadrant and no item is dropped.
/// Under them, the stored identifiers are exactly the frame's and the
/// entries' own, and each entry's point sits at its given cell.
#[verifier::external_body]
fn qt_build(items: &Vec<(u64, i64, i64)>, cells: &Vec<(u32, u32)>) -> (t: quadtree_f32::QuadTree)
    requires
        items@.len() == cells@.len(),
        forall|i: int| 0 <= i < items@.len() ==> (#[trigger] items@[i]).0 < usize::MAX as u64,
        forall|i: int, j: int| 0 <= i < j < items@.len() ==> items@[i].0 != items@[j].0,
        forall|i: int|
            0 <= i < items@.len() ==> -90_000_000 <= (#[trigger] items@[i]).1 <= 90_000_000
                && -180_000_000 <= items@[i].2 <= 180_000_000,
        forall|i: int|
            0 <= i < cells@.len() ==> #[trigger] cells@[i] == pos_cell(
                items@[i].1 as int,
                items@[i].2 as int,
            ),
        forall|i: int, j: int| 0 <= i < j < cells@.len() ==> cells@[i] != cells@[j],
    ensures
        forall|x: u64|
            #[trigger] qt_ids(t).contains(x) <==> (x == frame_id() || exists|i: int|
                0 <= i < items@.len() && (#[trigger] items@[i]).0 == x),
        forall|x: u64|
            #[trigger] qt_cells(t).dom().contains(x) <==> (qt_ids(t).contains(x) && x
                != frame_id()),
        forall|i: int|
            0 <= i < items@.len() ==> qt_cells(t).contains_pair(
                (#[trigger] items@[i]).0,
                cells@[i],
            ),
{
    let mut t = quadtree_f32::QuadTree::new();
    let (wx, wy) = (95_000_000_i64, 190_000_000_i64);
    let world = quadtree_f32::Rect { max_x: wx as _, max_y: wy as _, min_x: (-wx) as _, min_y: (-wy) as _ };
    t.insert(quadtree_f32::ItemId(usize::MAX), quadtree_f32::Item::Rect(world));
    for i in 0..items.len() {
        let p = quadtree_f32::Point {
            x: quadtree_f32::Float::from_bits(cells[i].0),
            y: quadtree_f32::Float::from_bits(cells[i].1),
        };
        t.insert(quadtree_f32::ItemId(items[i].0 as usize), quadtree_f32::Item::Point(p));
    }
    t
}

/// Relies on quadtree_f32's `QuadTree::get_ids_that_overlap`: the call
/// returns identifiers of stored items only, sorted ascending and
/// deduplicated, and its result is the function of the tree and the
/// rectangle that `qt_query` names. Every stored point lies in each leaf
/// box holding it and boxes nest, so the descent reaches every stored
/// point item whose position lies within the query rectangle under the
/// float order, boundaries inclusive, and returns its identifier; and a
/// returned point item's position lies within the rectangle, because the
/// query tests each item's box against the rectangle before taking it.
#[verifier::external_body]
pub(crate) fn qt_overlap_ids(
    t: &quadtree_f32::QuadTree,
    lat_min: i64,
    lat_max: i64,
    lon_min: i64,
    lon_max: i64,
) -> (r: Vec<u64>)
    ensures
        r@ == qt_query(*t, lat_min as int, lat_max as int, lon_min as int, lon_max as int),
        forall|i: int| 0 <= i < r@.len() ==> qt_ids(*t).contains(#[trigger] r@[i]),
        forall|i: int, j: int| 0 <= i < j < r@.len() ==> r@[i] < r@[j],
        forall|x: u64|
            #[trigger] qt_cells(*t).dom().contains(x) && cell_in_rect(
                qt_cells(*t)[x],
                f32_bits(lat_min as int),
                f32_bits(lat_max as int),
                f32_bits(lon_min as int),
                f32_bits(lon_max as int),
            ) ==> r@.contains(x),
        forall|i: int|
            0 <= i < r@.len() && qt_cells(*t).dom().contains(#[trigger] r@[i]) ==> cell_in_rect(
                qt_cells(*t)[r@[i]],
                f32_bits(lat_min as int),
                f32_bits(lat_max as int),
                f32_bits(lon_min as int),
                f32_bits(lon_max as int),
            ),
{
    let rect = quadtree_f32::Rect {
        max_x: lat_max as _,
        max_y: lon_max as _,
        min_x: lat_min as _,
        min_y: lon_min as _,
    };
    t.get_ids_that_overlap(&rect).into_iter().map(|id| id.0 as u64).collect()
}

/// A position cell as one word, for keying the cell map.
pub open spec fn packed_cell(cell: (u32, u32)) -> u64 {
    (cell.0 * 0x1_0000_0000 + cell.1) as u64
}

/// Packs a position cell into one word.
pub(crate) fn pack_cell(cell: (u32, u32)) -> (r: u64)
    ensures
        r == packed_cell(cell),
{
    proof {
        assert(cell.0 * 0x1_0000_0000 + cell.1 < 0x1_0000_0000_0000_0000) by (nonlinear_arith)
            requires
                cell.0 < 0x1_0000_0000,
                cell.1 < 0x1_0000_0000,
        ;
    }
    (cell.0 as u64) * 0x1_0000_0000 + (cell.1 as u64)
}

/// Two cells with one packed word are the same cell.
pub proof fn lemma_pack_injective(a: (u32, u32), b: (u32, u32))
    requires
        packed_cell(a) == packed_cell(b),
    ensures
        a == b,
{
    assert(a.0 == b.0 && a.1 == b.1) by (nonlinear_arith)
        requires
            packed_cell(a) == packed_cell(b),
            a.0 < 0x1_0000_0000,
            a.1 < 0x1_0000_0000,
            b.0 < 0x1_0000_0000,
            b.1 < 0x1_0000_0000,
    ;
}

/// The full charger set: a quadtree over the charger position cells for
/// rectangle queries, the charger records keyed by identifier, and for
/// each occupied position cell the identifiers of every charger in it —
/// the quadtree holds one point per cell, and a query expands each
/// returned cell to all of its chargers through this map.
pub struct AllChargerLocations {
    pub quadtree: quadtree_f32::QuadTree,
    pub chargers_by_id: HashMap<u64, ChargerLocation>,
    pub chargers_by_cell: HashMap<u64, Vec<u64>>,
}

impl AllChargerLocations {
    /// Validity: quadtree identifiers are the frame's or have charger
    /// records, and the tree's point cells are exactly its non-frame
    /// identifiers, each point sitting at the cell of its own charger;
    /// every stored charger carries its key as its identifier and is
    /// listed under its position cell; and every cell list is a nonempty,
    /// duplicate-free list of stored chargers of that cell, headed by the
    /// cell's one point in the quadtree and holding no other tree point.
    pub open spec fn wf(self) -> bool {
        &&& !self.chargers_by_id@.contains_key(frame_id())
        &&& forall|id: u64|
            #[trigger] qt_ids(self.quadtree).contains(id) ==> id == frame_id()
                || self.chargers_by_id@.contains_key(id)
        &&& forall|id: u64|
            #[trigger] qt_cells(self.quadtree).dom().contains(id) <==> (qt_ids(
                self.quadtree,
            ).contains(id) && id != frame_id())
        &&& forall|id: u64|
            #[trigger] qt_cells(self.quadtree).dom().contains(id)
                ==> self.chargers_by_id@.contains_key(id) && qt_cells(self.quadtree)[id]
                == charger_cell(self.chargers_by_id@[id])
        &&& forall|id: u64|
            #[trigger] self.chargers_by_id@.contains_key(id) ==> self.chargers_by_id@[id].id == id
        &&& forall|id: u64|
            #[trigger] self.chargers_by_id@.contains_key(id) ==> {
                let pc = packed_cell(charger_cell(self.chargers_by_id@[id]));
                &&& self.chargers_by_cell@.contains_key(pc)
                &&& self.chargers_by_cell@[pc]@.contains(id)
            }
        &&& forall|pc: u64|
            #[trigger] self.chargers_by_cell@.contains_key(pc) ==> {
                let lst = self.chargers_by_cell@[pc]@;
                &&& lst.len() > 0
                &&& lst.no_duplicates()
                &&& (forall|i: int|
                    0 <= i < lst.len() ==> self.chargers_by_id@.contains_key(#[trigger] lst[i])
                        && packed_cell(charger_cell(self.chargers_by_id@[lst[i]])) == pc)
                &&& qt_cells(self.quadtree).dom().contains(lst[0])
                &&& packed_cell(qt_cells(self.quadtree)[lst[0]]) == pc
                &&& (forall|i: int|
                    0 < i < lst.len() ==> !qt_cells(self.quadtree).dom().contains(
                        #[trigger] lst[i],
                    ))
            }
    }

    /// The charger map that indexing a record sequence produces: each kept
    /// row's position under its identifier.
    pub open spec fn map_of_rows(rows: Seq<CsvRow>) -> Map<u64, ChargerLocation>
        decreases rows.len(),
    {
        if rows.len() == 0 {
            Map::empty()
        } else {
            let prefix = Self::map_of_rows(rows.drop_last());
            let row = rows.last();
            if row_kept(row) {
                prefix.insert(
                    row.id,
                    ChargerLocation {
                        latitude: row.latitude,
                        longitude: row.longitude,
                        id: row.id,
                    },
                )
            } else {
                prefix
            }
        }
    }

    /// The identifiers and position cells that indexing a record sequence
    /// stores in the quadtree: the kept rows in order, the first row of
    /// each position cell standing for it, later rows of an occupied cell
    /// listed beside it in the cell map.
    pub open spec fn index_fold(rows: Seq<CsvRow>) -> (Set<u64>, Set<(u32, u32)>)
        decreases rows.len(),
    {
        if rows.len() == 0 {
            (Set::empty(), Set::empty())
        } else {
            let prefix = Self::index_fold(rows.drop_last());
            let row = rows.last();
            let cell = pos_cell(row.latitude as int, row.longitude as int);
            if row_kept(row) && !prefix.1.contains(cell) {
                (prefix.0.insert(row.id), prefix.1.insert(cell))
            } else {
                prefix
            }
        }
    }

    /// Every identifier the index fold stores is a key of the row map, and
    /// it maps to a charger carrying that identifier.
    proof fn lemma_index_fold_ids_in_map(rows: Seq<CsvRow>)
        ensures
            forall|x: u64|
                Self::index_fold(rows).0.contains(x) ==> #[trigger] Self::map_of_rows(
                    rows,
                ).contains_key(x),
            forall|x: u64|
                #[trigger] Self::map_of_rows(rows).contains_key(x) ==> Self::map_of_rows(
                    rows,
                )[x].id == x,
        decreases rows.len(),
    {
        if rows.len() > 0 {
            Self::lemma_index_fold_ids_in_map(rows.drop_last());
            let row = rows.last();
            let cell = pos_cell(row.latitude as int, row.longitude as int);
            let prefix_fold = Self::index_fold(rows.drop_last());
            let prefix_map = Self::map_of_rows(rows.drop_last());
            let charger = ChargerLocation {
                latitude: row.latitude,
                longitude: row.longitude,
                id: row.id,
            };
            assert forall|x: u64| Self::index_fold(rows).0.contains(x) implies #[trigger] Self::map_of_rows(
                rows,
            ).contains_key(x) by {
                if row_kept(row) {
                    assert(Self::map_of_rows(rows) == prefix_map.insert(row.id, charger));
                    if !prefix_fold.1.contains(cell) {
                        assert(Self::index_fold(rows).0 == prefix_fold.0.insert(row.id));
                        if x != row.id {
                            assert(prefix_fold.0.contains(x));
                            assert(prefix_map.contains_key(x));
                        }
                    } else {
                        assert(Self::index_fold(rows).0 == prefix_fold.0);
                        assert(prefix_map.contains_key(x));
                    }
                } else {
                    assert(Self::index_fold(rows) == prefix_fold);
                    assert(Self::map_of_rows(rows) == prefix_map);
                    assert(prefix_map.contains_key(x));
                }
            }
            assert forall|x: u64| #[trigger] Self::map_of_rows(rows).contains_key(
                x,
            ) implies Self::map_of_rows(rows)[x].id == x by {
                if row_kept(row) {
                    assert(Self::map_of_rows(rows) == prefix_map.insert(row.id, charger));
                    if x != row.id {
                        assert(prefix_map.contains_key(x));
                    }
                } else {
                    assert(Self::map_of_rows(rows) == prefix_map);
                }
            }
        }
    }

    /// Builds the spatial index from ingested records. Records carrying the
    /// excluded-vendor marker are dropped; every remaining charger is
    /// stored in the map under its identifier and listed under its position
    /// cell, and the first charger of each cell is placed in the quadtree
    /// as the cell's point, beside the frame that fixes the tree's bounds.
    /// Identifiers are pairwise distinct — each record is the record of its
    /// identifier — and stay below the machine's word size because the
    /// index stores them as such (one value is reserved for the frame);
    /// coordinates lie in the world range the frame spans.
    pub fn from_records(rows: Vec<CsvRow>) -> (r: AllChargerLocations)
        requires
            forall|i: int| 0 <= i < rows@.len() ==> (#[trigger] rows@[i]).id < usize::MAX as u64,
            forall|i: int, j: int| 0 <= i < j < rows@.len() ==> rows@[i].id != rows@[j].id,
            forall|i: int|
                0 <= i < rows@.len() ==> -90_000_000 <= (#[trigger] rows@[i]).latitude
                    <= 90_000_000 && -180_000_000 <= rows@[i].longitude <= 180_000_000,
        ensures
            r.wf(),
            r.chargers_by_id@ == Self::map_of_rows(rows@),
            forall|x: u64|
                #[trigger] qt_ids(r.quadtree).contains(x) <==> (x == frame_id()
                    || Self::index_fold(rows@).0.contains(x)),
    {
        let ghost all = rows@;
        let mut rows = rows;
        let mut chargers_by_id: HashMap<u64, ChargerLocation> = HashMap::new();
        let mut chargers_by_cell: HashMap<u64, Vec<u64>> = HashMap::new();
        let mut items: Vec<(u64, i64, i64)> = Vec::new();
        let mut cells: Vec<(u32, u32)> = Vec::new();
        let mut seen: HashSet<u64> = HashSet::new();
        let ghost mut done: int = 0;
        proof {
            assert(all.subrange(0, 0) =~= Seq::<CsvRow>::empty());
            assert(rows@ =~= all.subrange(0, all.len() as int));
            assert(chargers_by_id@ =~= Self::map_of_rows(all.subrange(0, 0)));
        }
        while rows.len() > 0
            invariant
                0 <= done <= all.len(),
                rows@ =~= all.subrange(done, all.len() as int),
                forall|i: int| 0 <= i < all.len() ==> (#[trigger] all[i]).id < usize::MAX as u64,
                forall|i: int, j: int| 0 <= i < j < all.len() ==> all[i].id != all[j].id,
                forall|i: int|
                    0 <= i < all.len() ==> -90_000_000 <= (#[trigger] all[i]).latitude
                        <= 90_000_000 && -180_000_000 <= all[i].longitude <= 180_000_000,
                chargers_by_id@ == Self::map_of_rows(all.subrange(0, done)),
                !chargers_by_id@.contains_key(frame_id()),
                forall|j: int|
                    done <= j < all.len() ==> !chargers_by_id@.contains_key(
                        (#[trigger] all[j]).id,
                    ),
                forall|j: int, pc: u64|
                    done <= j < all.len() && #[trigger] chargers_by_cell@.contains_key(pc)
                        ==> !chargers_by_cell@[pc]@.contains((#[trigger] all[j]).id),
                items@.len() == cells@.len(),
                forall|a: int|
                    0 <= a < items@.len() ==> (#[trigger] items@[a]).0 < usize::MAX as u64
                        && -90_000_000 <= items@[a].1 <= 90_000_000 && -180_000_000 <= items@[a].2
                        <= 180_000_000,
                forall|a: int|
                    0 <= a < cells@.len() ==> #[trigger] cells@[a] == pos_cell(
                        items@[a].1 as int,
                        items@[a].2 as int,
                    ),
                forall|a: int, b: int| 0 <= a < b < cells@.len() ==> cells@[a] != cells@[b],
                forall|a: int, b: int| 0 <= a < b < items@.len() ==> items@[a].0 != items@[b].0,
                forall|a: int|
                    0 <= a < items@.len() ==> chargers_by_id@.contains_key(
                        (#[trigger] items@[a]).0,
                    ) && chargers_by_id@[items@[a].0].latitude == items@[a].1
                        && chargers_by_id@[items@[a].0].longitude == items@[a].2,
                forall|p: u64|
                    #[trigger] seen@.contains(p) <==> exists|a: int|
                        0 <= a < cells@.len() && p == packed_cell(#[trigger] cells@[a]),
                forall|p: u64| #[trigger] chargers_by_cell@.contains_key(p) <==> seen@.contains(p),
                forall|pc: u64|
                    #[trigger] chargers_by_cell@.contains_key(pc) ==> {
                        let lst = chargers_by_cell@[pc]@;
                        &&& lst.len() > 0
                        &&& lst.no_duplicates()
                        &&& (forall|i: int|
                            0 <= i < lst.len() ==> chargers_by_id@.contains_key(#[trigger] lst[i])
                                && packed_cell(charger_cell(chargers_by_id@[lst[i]])) == pc)
                        &&& (exists|a: int|
                            0 <= a < cells@.len() && packed_cell(#[trigger] cells@[a]) == pc
                                && items@[a].0 == lst[0])
                    },
                forall|id: u64|
                    #[trigger] chargers_by_id@.contains_key(id) ==> {
                        let pc = packed_cell(charger_cell(chargers_by_id@[id]));
                        &&& chargers_by_cell@.contains_key(pc)
                        &&& chargers_by_cell@[pc]@.contains(id)
                    },
                forall|pc: u64, i: int, a: int|
                    chargers_by_cell@.contains_key(pc) && 0 < i < chargers_by_cell@[pc]@.len() && 0
                        <= a < items@.len() ==> (#[trigger] chargers_by_cell@[pc]@[i]) != (
                    #[trigger] items@[a]).0,
                forall|x: u64|
                    #[trigger] Self::index_fold(all.subrange(0, done)).0.contains(x)
                        <==> exists|a: int| 0 <= a < items@.len() && (#[trigger] items@[a]).0 == x,
                forall|c: (u32, u32)|
                    #[trigger] Self::index_fold(all.subrange(0, done)).1.contains(c)
                        <==> exists|a: int| 0 <= a < cells@.len() && #[trigger] cells@[a] == c,
            decreases rows@.len(),
        {
            let row = rows.remove(0);
            proof {
                assert(row == all[done]);
                assert(rows@ =~= all.subrange(done + 1, all.len() as int));
                let ext = all.subrange(0, done).push(all[done]);
                assert(ext =~= all.subrange(0, done + 1));
                assert(ext.drop_last() =~= all.subrange(0, done));
                assert(ext.last() == all[done]);
            }
            let ghost fold_before = Self::index_fold(all.subrange(0, done));
            let ghost fold_after = Self::index_fold(all.subrange(0, done + 1));
            let kept = !crate::ingest::network_has_marker(row.network.as_str());
            if kept {
                let charger = ChargerLocation {
                    latitude: row.latitude,
                    longitude: row.longitude,
                    id: row.id,
                };
                let ghost map_before = chargers_by_id@;
                chargers_by_id.insert(row.id, charger);
                let cell = (f32_bits_of(row.latitude) & 0xffff_fffe, f32_bits_of(row.longitude)
                    & 0xffff_fffe);
                proof {
                    assert(cell == pos_cell(row.latitude as int, row.longitude as int));
                    assert(cell == charger_cell(charger));
                    assert(row_kept(all[done]));
                }
                let packed = pack_cell(cell);
                let ghost cells_before = cells@;
                let ghost items_before = items@;
                let ghost seen_before = seen@;
                let ghost members_before = chargers_by_cell@;
                if !seen.contains(&packed) {
                    proof {
                        assert forall|a: int|
                            0 <= a < cells_before.len() implies cells_before[a] != cell by {
                            if cells_before[a] == cell {
                                assert(seen_before.contains(packed_cell(cells_before[a])));
                            }
                        }
                        assert(!fold_before.1.contains(cell));
                        assert(fold_after.0 == fold_before.0.insert(all[done].id));
                        assert(fold_after.1 == fold_before.1.insert(cell));
                    }
                    seen.insert(packed);
                    items.push((row.id, row.latitude, row.longitude));
                    cells.push(cell);
                    let mut fresh_list: Vec<u64> = Vec::new();
                    fresh_list.push(row.id);
                    chargers_by_cell.insert(packed, fresh_list);
                    proof {
                        assert forall|p: u64| #[trigger] seen@.contains(p) implies exists|a: int|
                            0 <= a < cells@.len() && p == packed_cell(#[trigger] cells@[a]) by {
                            if p == packed {
                                assert(cells@[cells@.len() - 1] == cell);
                            } else {
                                assert(seen_before.contains(p));
                                let a = choose|a: int|
                                    0 <= a < cells_before.len() && p == packed_cell(
                                        #[trigger] cells_before[a],
                                    );
                                assert(cells@[a] == cells_before[a]);
                            }
                        }
                        assert forall|p: u64|
                            (exists|a: int|
                                0 <= a < cells@.len() && p == packed_cell(
                                    #[trigger] cells@[a],
                                )) implies seen@.contains(p) by {
                            let a = choose|a: int|
                                0 <= a < cells@.len() && p == packed_cell(#[trigger] cells@[a]);
                            if a < cells_before.len() {
                                assert(cells@[a] == cells_before[a]);
                                assert(seen_before.contains(p));
                            } else {
                                assert(cells@[a] == cell);
                            }
                        }
                        assert forall|x: u64| #[trigger] fold_after.0.contains(x) implies exists|
                            a: int,
                        | 0 <= a < items@.len() && items@[a].0 == x by {
                            if x == all[done].id {
                                assert(items@[items@.len() - 1].0 == x);
                            } else {
                                assert(fold_before.0.contains(x));
                                let a = choose|a: int|
                                    0 <= a < items_before.len() && (#[trigger] items_before[a]).0
                                        == x;
                                assert(items@[a].0 == x);
                            }
                        }
                        assert forall|x: u64|
                            (exists|a: int|
                                0 <= a < items@.len() && (#[trigger] items@[a]).0
                                    == x) implies fold_after.0.contains(x) by {
                            let a = choose|a: int|
                                0 <= a < items@.len() && (#[trigger] items@[a]).0 == x;
                            if a < items_before.len() {
                                assert(items@[a] == items_before[a]);
                                assert(fold_before.0.contains(x));
                            } else {
                                assert(items@[a] == (all[done].id, all[done].latitude, all[
                                done].longitude));
                            }
                        }
                        assert forall|c: (u32, u32)| #[trigger] fold_after.1.contains(c) implies exists|
                            a: int,
                        | 0 <= a < cells@.len() && cells@[a] == c by {
                            if c == cell {
                                assert(cells@[cells@.len() - 1] == c);
                            } else {
                                assert(fold_before.1.contains(c));
                                let a = choose|a: int|
                                    0 <= a < cells_before.len() && #[trigger] cells_before[a] == c;
                                assert(cells@[a] == c);
                            }
                        }
                        assert forall|c: (u32, u32)|
                            (exists|a: int|
                                0 <= a < cells@.len() && #[trigger] cells@[a]
                                    == c) implies fold_after.1.contains(c) by {
                            let a = choose|a: int| 0 <= a < cells@.len() && #[trigger] cells@[a] == c;
                            if a < cells_before.len() {
                                assert(cells@[a] == cells_before[a]);
                                assert(fold_before.1.contains(c));
                            }
                        }
                        assert forall|pc: u64|
                            #[trigger] chargers_by_cell@.contains_key(pc) implies {
                            let lst = chargers_by_cell@[pc]@;
                            &&& lst.len() > 0
                            &&& lst.no_duplicates()
                            &&& (forall|i: int|
                                0 <= i < lst.len() ==> chargers_by_id@.contains_key(
                                    #[trigger] lst[i],
                                ) && packed_cell(charger_cell(chargers_by_id@[lst[i]])) == pc)
                            &&& (exists|a: int|
                                0 <= a < cells@.len() && packed_cell(#[trigger] cells@[a]) == pc
                                    && items@[a].0 == lst[0])
                        } by {
                            if pc == packed {
                                let lst = chargers_by_cell@[pc]@;
                                assert(lst =~= seq![all[done].id]);
                                assert(cells@[cells@.len() - 1] == cell && items@[items@.len()
                                    - 1].0 == all[done].id);
                            } else {
                                assert(members_before.contains_key(pc));
                                let lst = members_before[pc]@;
                                assert(chargers_by_cell@[pc]@ == lst);
                                assert forall|i: int| 0 <= i < lst.len() implies chargers_by_id@.contains_key(
                                    #[trigger] lst[i],
                                ) && packed_cell(charger_cell(chargers_by_id@[lst[i]]))
                                    == pc by {
                                    assert(map_before.contains_key(lst[i]));
                                    assert(lst[i] != all[done].id);
                                }
                                let a = choose|a: int|
                                    0 <= a < cells_before.len() && packed_cell(
                                        #[trigger] cells_before[a],
                                    ) == pc && items_before[a].0 == lst[0];
                                assert(cells@[a] == cells_before[a] && items@[a]
                                    == items_before[a]);
                            }
                        }
                        assert forall|id: u64|
                            #[trigger] chargers_by_id@.contains_key(id) implies {
                            let pc = packed_cell(charger_cell(chargers_by_id@[id]));
                            &&& chargers_by_cell@.contains_key(pc)
                            &&& chargers_by_cell@[pc]@.contains(id)
                        } by {
                            if id == all[done].id {
                                assert(chargers_by_cell@[packed]@[0] == id);
                            } else {
                                assert(map_before.contains_key(id));
                                let pc = packed_cell(charger_cell(map_before[id]));
                                assert(members_before.contains_key(pc));
                                assert(members_before[pc]@.contains(id));
                                if pc == packed {
                                    assert(seen_before.contains(pc));
                                    assert(false);
                                }
                                assert(chargers_by_cell@[pc]@ == members_before[pc]@);
                            }
                        }
                    }
                } else {
                    proof {
                        let a = choose|a: int|
                            0 <= a < cells_before.len() && packed == packed_cell(
                                #[trigger] cells_before[a],
                            );
                        lemma_pack_injective(cells_before[a], cell);
                        assert(fold_before.1.contains(cell));
                        assert(fold_after == fold_before);
                        assert(chargers_by_cell@.contains_key(packed));
                    }
                    let appended = match chargers_by_cell.remove(&packed) {
                        Some(mut lst) => {
                            lst.push(row.id);
                            lst
                        },
                        None => {
                            // The cell was seen, so its list exists.
                            proof {
                                assert(false);
                            }
                            Vec::new()
                        },
                    };
                    let ghost appended_view = appended@;
                    chargers_by_cell.insert(packed, appended);
                    proof {
                        let old_lst = members_before[packed]@;
                        assert(appended_view =~= old_lst.push(all[done].id));
                        assert(chargers_by_cell@ =~= members_before.insert(
                            packed,
                            chargers_by_cell@[packed],
                        ));
                        assert forall|p: u64|
                            #[trigger] chargers_by_cell@.contains_key(p)
                                <==> seen_before.contains(p) by {}
                        assert forall|pc: u64|
                            #[trigger] chargers_by_cell@.contains_key(pc) implies {
                            let lst = chargers_by_cell@[pc]@;
                            &&& lst.len() > 0
                            &&& lst.no_duplicates()
                            &&& (forall|i: int|
                                0 <= i < lst.len() ==> chargers_by_id@.contains_key(
                                    #[trigger] lst[i],
                                ) && packed_cell(charger_cell(chargers_by_id@[lst[i]])) == pc)
                            &&& (exists|a: int|
                                0 <= a < cells@.len() && packed_cell(#[trigger] cells@[a]) == pc
                                    && items@[a].0 == lst[0])
                        } by {
                            if pc == packed {
                                let lst = chargers_by_cell@[pc]@;
                                assert(lst =~= old_lst.push(all[done].id));
                                assert(!old_lst.contains(all[done].id));
                                assert forall|i: int| 0 <= i < lst.len() implies chargers_by_id@.contains_key(
                                    #[trigger] lst[i],
                                ) && packed_cell(charger_cell(chargers_by_id@[lst[i]]))
                                    == pc by {
                                    if i < old_lst.len() {
                                        assert(lst[i] == old_lst[i]);
                                        assert(map_before.contains_key(old_lst[i]));
                                        assert(old_lst[i] != all[done].id);
                                    } else {
                                        assert(lst[i] == all[done].id);
                                        assert(charger_cell(chargers_by_id@[all[done].id])
                                            == cell);
                                    }
                                }
                                assert(lst[0] == old_lst[0]);
                            } else {
                                let lst = chargers_by_cell@[pc]@;
                                assert(lst == members_before[pc]@);
                                assert forall|i: int| 0 <= i < lst.len() implies chargers_by_id@.contains_key(
                                    #[trigger] lst[i],
                                ) && packed_cell(charger_cell(chargers_by_id@[lst[i]]))
                                    == pc by {
                                    assert(map_before.contains_key(lst[i]));
                                    assert(lst[i] != all[done].id);
                                }
                            }
                        }
                        assert forall|id: u64|
                            #[trigger] chargers_by_id@.contains_key(id) implies {
                            let pc = packed_cell(charger_cell(chargers_by_id@[id]));
                            &&& chargers_by_cell@.contains_key(pc)
                            &&& chargers_by_cell@[pc]@.contains(id)
                        } by {
                            if id == all[done].id {
                                let lst = chargers_by_cell@[packed]@;
                                assert(lst[lst.len() - 1] == id);
                            } else {
                                assert(map_before.contains_key(id));
                                let pc = packed_cell(charger_cell(map_before[id]));
                                assert(members_before[pc]@.contains(id));
                                if pc == packed {
                                    let j = choose|j: int|
                                        0 <= j < old_lst.len() && old_lst[j] == id;
                                    assert(chargers_by_cell@[pc]@[j] == id);
                                }
                            }
                        }
                    }
                }
            } else {
                proof {
                    assert(!row_kept(all[done]));
                    assert(fold_after == fold_before);
                }
            }
            proof {
                done = done + 1;
            }
        }
        proof {
            assert(all.subrange(0, done) =~= all);
            Self::lemma_index_fold_ids_in_map(all);
        }
        let quadtree = qt_build(&items, &cells);
        proof {
            assert forall|pc: u64| #[trigger] chargers_by_cell@.contains_key(pc) implies {
                let lst = chargers_by_cell@[pc]@;
                &&& qt_cells(quadtree).dom().contains(lst[0])
                &&& packed_cell(qt_cells(quadtree)[lst[0]]) == pc
            } by {
                let lst = chargers_by_cell@[pc]@;
                let a = choose|a: int|
                    0 <= a < cells@.len() && packed_cell(#[trigger] cells@[a]) == pc && items@[a].0
                        == lst[0];
                assert(qt_cells(quadtree)[items@[a].0] == cells@[a]);
            }
        }
        AllChargerLocations { quadtree, chargers_by_id, chargers_by_cell }
    }
}

} // verus!
