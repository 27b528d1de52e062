use vstd::prelude::*;
use vstd::string::StrSliceExecFns;

verus! {

/// One charger record as handed over by the ingestion collaborator, with the
/// position already converted to microdegrees.
#[derive(Clone, Debug, PartialEq)]
pub struct CsvRow {
    /// Latitude in microdegrees.
    pub latitude: i64,
    /// Longitude in microdegrees.
    pub longitude: i64,
    /// Station identifier.
    pub id: u64,
    /// Name of the charging network the station belongs to.
    pub network: String,
}

/// The excluded-vendor marker: records whose network name contains this
/// substring (case-sensitively) are dropped before indexing, because the
/// engine maps the gaps in the charging infrastructure open to other cars.
pub open spec fn excluded_marker() -> Seq<char> {
    seq!['T', 'e', 's', 'l', 'a']
}

/// Whether the marker occurs in `name` starting at position `i`.
pub open spec fn marker_at(name: Seq<char>, i: int) -> bool {
    &&& 0 <= i
    &&& i + excluded_marker().len() <= name.len()
    &&& name.subrange(i, i + excluded_marker().len()) =~= excluded_marker()
}

/// Whether the marker occurs anywhere in `name` as a contiguous substring.
pub open spec fn contains_marker(name: Seq<char>) -> bool {
    exists|i: int| marker_at(name, i)
}

/// A record survives ingestion when its network name lacks the marker.
pub open spec fn row_kept(row: CsvRow) -> bool {
    !contains_marker(row.network@)
}

/// Case-sensitive substring test for the excluded-vendor marker.
pub fn network_has_marker(name: &str) -> (r: bool)
    ensures
        r == contains_marker(name@),
{
    let n = name.unicode_len();
    if n < 5 {
        return false;
    }
    let mut i: usize = 0;
    while i <= n - 5
        invariant
            5 <= n,
            n == name@.len(),
            0 <= i <= n - 4,
            forall|k: int| 0 <= k < i ==> !marker_at(name@, k),
        decreases n - i,
    {
        if name.get_char(i) == 'T' && name.get_char(i + 1) == 'e' && name.get_char(i + 2) == 's'
            && name.get_char(i + 3) == 'l' && name.get_char(i + 4) == 'a' {
            proof {
                assert(marker_at(name@, i as int));
            }
            return true;
        }
        proof {
            let s = name@.subrange(i as int, i as int + 5);
            assert(s[0] == name@[i as int] && s[1] == name@[i as int + 1] && s[2] == name@[
                i as int + 2] && s[3] == name@[i as int + 3] && s[4] == name@[i as int + 4]);
            assert(!marker_at(name@, i as int));
        }
        i += 1;
    }
    false
}

/// Drops every record whose network name contains the excluded-vendor
/// marker, keeping the rest in their original order.
pub fn filter_rows(rows: Vec<CsvRow>) -> (r: Vec<CsvRow>)
    ensures
        r@ == rows@.filter(|row: CsvRow| row_kept(row)),
{
    let ghost all = rows@;
    let mut rows = rows;
    let mut kept: Vec<CsvRow> = Vec::new();
    let ghost mut done: int = 0;
    proof {
        reveal(Seq::filter);
        assert(all.subrange(0, 0) =~= Seq::<CsvRow>::empty());
        assert(rows@ =~= all.subrange(0, all.len() as int));
    }
    while rows.len() > 0
        invariant
            0 <= done <= all.len(),
            rows@ =~= all.subrange(done, all.len() as int),
            kept@ == all.subrange(0, done).filter(|row: CsvRow| row_kept(row)),
        decreases rows@.len(),
    {
        let row = rows.remove(0);
        proof {
            assert(row == all[done]);
            assert(rows@ =~= all.subrange(done + 1, all.len() as int));
        }
        let keep = !network_has_marker(row.network.as_str());
        proof {
            reveal(Seq::filter);
            let pre = all.subrange(0, done);
            let ext = pre.push(all[done]);
            assert(ext =~= all.subrange(0, done + 1));
            assert(ext.drop_last() =~= pre);
            assert(ext.last() == all[done]);
            assert(ext.filter(|row: CsvRow| row_kept(row)) == if row_kept(all[done]) {
                pre.filter(|row: CsvRow| row_kept(row)).push(all[done])
            } else {
                pre.filter(|row: CsvRow| row_kept(row))
            });
        }
        if keep {
            kept.push(row);
        }
        proof {
            done = done + 1;
        }
    }
    proof {
        assert(all.subrange(0, done) =~= all);
    }
    kept
}

} // verus!
