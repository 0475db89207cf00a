//! The replication locations: the `:`-separated list that names every
//! directory a backup is kept in. The first one is the main location; every
//! location is synchronised into every other, and each upload is written to
//! all of them.

use vstd::prelude::*;
use crate::text::{split_on, split_seq, views, under, path_under, str_eq};

verus! {

/// The replication locations that the configured list names.
pub open spec fn locations_of(list: Seq<char>) -> Seq<Seq<char>> {
    split_seq(list, ':')
}

/// The main location: the first entry of the list.
pub fn get_main_loc(replication_locations: &str) -> (r: String)
    ensures
        r@ == locations_of(replication_locations@)[0],
{
    let mut parts = split_on(replication_locations, ':');
    proof {
        crate::text::lemma_split_nonempty(replication_locations@, ':');
    }
    assert(views(parts@)[0] == parts@[0]@);
    parts.swap_remove(0)
}

/// The synchronisation jobs `(source, destination)` whose destination is
/// `dest` and whose source is one of the first `k` locations, in list order;
/// a location equal to `dest` is skipped.
pub open spec fn sync_row(locs: Seq<Seq<char>>, dest: Seq<char>, k: int) -> Seq<(Seq<char>, Seq<char>)>
    decreases k,
{
    if k <= 0 {
        Seq::empty()
    } else {
        let r = sync_row(locs, dest, k - 1);
        if locs[k - 1] != dest {
            r.push((locs[k - 1], dest))
        } else {
            r
        }
    }
}

/// The synchronisation jobs for the first `j` destinations, destination by
/// destination.
pub open spec fn sync_rows(locs: Seq<Seq<char>>, j: int) -> Seq<(Seq<char>, Seq<char>)>
    decreases j,
{
    if j <= 0 {
        Seq::empty()
    } else {
        sync_rows(locs, j - 1) + sync_row(locs, locs[j - 1], locs.len() as int)
    }
}

/// Every synchronisation job for the locations `locs`: for each destination
/// in list order, every other location as source, in list order.
pub open spec fn sync_jobs(locs: Seq<Seq<char>>) -> Seq<(Seq<char>, Seq<char>)> {
    sync_rows(locs, locs.len() as int)
}

/// The views of a sequence of string pairs.
pub open spec fn pair_views(v: Seq<(String, String)>) -> Seq<(Seq<char>, Seq<char>)> {
    v.map_values(|p: (String, String)| (p.0@, p.1@))
}

proof fn lemma_sync_row(locs: Seq<Seq<char>>, dest: Seq<char>, k: int)
    requires
        0 <= k <= locs.len(),
    ensures
        forall|a: Seq<char>, b: Seq<char>|
            #[trigger] sync_row(locs, dest, k).contains((a, b)) <==> (b == dest && a != dest
                && exists|i: int| 0 <= i < k && locs[i] == a),
    decreases k,
{
    if k > 0 {
        lemma_sync_row(locs, dest, k - 1);
        let r = sync_row(locs, dest, k - 1);
        assert forall|a: Seq<char>, b: Seq<char>|
            #[trigger] sync_row(locs, dest, k).contains((a, b)) <==> (b == dest && a != dest
                && exists|i: int| 0 <= i < k && locs[i] == a) by {
            if sync_row(locs, dest, k).contains((a, b)) {
                if !r.contains((a, b)) {
                    let w = choose|w: int| 0 <= w < sync_row(locs, dest, k).len() && sync_row(locs, dest, k)[w] == (a, b);
                    if locs[k - 1] != dest {
                        if w < r.len() {
                            assert(r[w] == (a, b));
                        }
                    } else {
                        assert(r[w] == (a, b));
                    }
                    assert(locs[k - 1] == a);
                } else {
                    let i = choose|i: int| 0 <= i < k - 1 && locs[i] == a;
                    assert(0 <= i < k && locs[i] == a);
                }
            }
            if b == dest && a != dest && exists|i: int| 0 <= i < k && locs[i] == a {
                let i = choose|i: int| 0 <= i < k && locs[i] == a;
                if i < k - 1 {
                    assert(r.contains((a, b)));
                    let w = choose|w: int| 0 <= w < r.len() && r[w] == (a, b);
                    if locs[k - 1] != dest {
                        assert(sync_row(locs, dest, k)[w] == (a, b));
                    }
                } else {
                    assert(sync_row(locs, dest, k)[r.len() as int] == (a, b));
                }
            }
        }
    }
}

proof fn lemma_sync_rows(locs: Seq<Seq<char>>, j: int)
    requires
        0 <= j <= locs.len(),
    ensures
        forall|a: Seq<char>, b: Seq<char>|
            #[trigger] sync_rows(locs, j).contains((a, b)) <==> (a != b
                && (exists|i: int| 0 <= i < locs.len() && locs[i] == a)
                && (exists|d: int| 0 <= d < j && locs[d] == b)),
    decreases j,
{
    if j > 0 {
        lemma_sync_rows(locs, j - 1);
        let prev = sync_rows(locs, j - 1);
        let row = sync_row(locs, locs[j - 1], locs.len() as int);
        lemma_sync_row(locs, locs[j - 1], locs.len() as int);
        assert forall|a: Seq<char>, b: Seq<char>|
            #[trigger] sync_rows(locs, j).contains((a, b)) <==> (a != b
                && (exists|i: int| 0 <= i < locs.len() && locs[i] == a)
                && (exists|d: int| 0 <= d < j && locs[d] == b)) by {
            let all = sync_rows(locs, j);
            assert(all == prev + row);
            if all.contains((a, b)) {
                let w = choose|w: int| 0 <= w < all.len() && all[w] == (a, b);
                if w < prev.len() {
                    assert(prev[w] == (a, b));
                    assert(prev.contains((a, b)));
                    let d = choose|d: int| 0 <= d < j - 1 && locs[d] == b;
                    assert(0 <= d < j && locs[d] == b);
                } else {
                    assert(row[w - prev.len()] == (a, b));
                    assert(row.contains((a, b)));
                    assert(0 <= j - 1 < j && locs[j - 1] == b);
                }
            }
            if a != b && (exists|i: int| 0 <= i < locs.len() && locs[i] == a) && (exists|d: int|
                0 <= d < j && locs[d] == b) {
                let d = choose|d: int| 0 <= d < j && locs[d] == b;
                if d < j - 1 {
                    assert(prev.contains((a, b)));
                    let w = choose|w: int| 0 <= w < prev.len() && prev[w] == (a, b);
                    assert(all[w] == (a, b));
                } else {
                    assert(row.contains((a, b)));
                    let w = choose|w: int| 0 <= w < row.len() && row[w] == (a, b);
                    assert(all[prev.len() + w] == (a, b));
                }
            }
        }
    }
}

/// Synchronisation covers exactly the pairs of distinct locations: a job
/// copies `a` into `b` if and only if both are configured locations and they
/// differ.
pub proof fn lemma_sync_jobs_cover_distinct_pairs(locs: Seq<Seq<char>>, a: Seq<char>, b: Seq<char>)
    ensures
        sync_jobs(locs).contains((a, b)) <==> (locs.contains(a) && locs.contains(b) && a != b),
{
    lemma_sync_rows(locs, locs.len() as int);
    assert(sync_jobs(locs).contains((a, b)) == sync_rows(locs, locs.len() as int).contains((a, b)));
}

/// The synchronisation jobs `(source, destination)` for the configured list
/// of locations (see [`sync_jobs`]).
pub fn sync_plan(replication_locations: &str) -> (r: Vec<(String, String)>)
    ensures
        pair_views(r@) == sync_jobs(locations_of(replication_locations@)),
{
    let locs = split_on(replication_locations, ':');
    let ghost l = views(locs@);
    let mut out: Vec<(String, String)> = Vec::new();
    let mut j: usize = 0;
    assert(pair_views(out@) =~= sync_rows(l, 0));
    while j < locs.len()
        invariant
            j <= locs.len(),
            l == views(locs@),
            l == locations_of(replication_locations@),
            pair_views(out@) == sync_rows(l, j as int),
        decreases locs.len() - j,
    {
        let mut i: usize = 0;
        assert(sync_rows(l, j as int) + sync_row(l, l[j as int], 0) =~= sync_rows(l, j as int));
        while i < locs.len()
            invariant
                i <= locs.len(),
                j < locs.len(),
                l == views(locs@),
                pair_views(out@) == sync_rows(l, j as int) + sync_row(l, l[j as int], i as int),
            decreases locs.len() - i,
        {
            let ghost before = pair_views(out@);
            assert(l[i as int] == locs@[i as int]@);
            assert(l[j as int] == locs@[j as int]@);
            if !(locs[i] == locs[j]) {
                out.push((locs[i].clone(), locs[j].clone()));
                assert(pair_views(out@) =~= before.push((l[i as int], l[j as int])));
            } else {
                assert(pair_views(out@) =~= before);
            }
            i = i + 1;
        }
        j = j + 1;
    }
    out
}

/// Where a file called `file_name` is written: one path under each
/// location, in list order.
pub fn replica_paths(replication_locations: &str, file_name: &str) -> (r: Vec<String>)
    ensures
        r@.len() == locations_of(replication_locations@).len(),
        forall|i: int| 0 <= i < r@.len() ==>
            #[trigger] r@[i]@ == under(locations_of(replication_locations@)[i], file_name@),
{
    let locs = split_on(replication_locations, ':');
    let mut out: Vec<String> = Vec::new();
    let mut i: usize = 0;
    while i < locs.len()
        invariant
            i <= locs.len(),
            views(locs@) == locations_of(replication_locations@),
            out@.len() == i,
            forall|k: int| 0 <= k < i ==>
                #[trigger] out@[k]@ == under(locations_of(replication_locations@)[k], file_name@),
        decreases locs.len() - i,
    {
        assert(views(locs@)[i as int] == locs@[i as int]@);
        out.push(path_under(locs[i].as_str(), file_name));
        i = i + 1;
    }
    out
}

/// What happens to one configured location when the directories are set up
/// at start.
#[derive(Debug, Clone, Copy, PartialEq, Eq, Structural)]
pub enum FolderStep {
    /// The directory is there: nothing to do.
    Keep,
    /// The directory is missing and may be created, with its parents.
    Create,
    /// The directory is missing and may not be created: start-up fails.
    Refuse,
}

/// Whether the `GENERATE_DIRS` setting allows creating missing locations:
/// only when it is set to exactly `True`.
pub open spec fn generate_dirs_enabled(setting: Option<Seq<char>>) -> bool {
    setting == Some("True"@)
}

/// Decides what to do with a location, given whether it exists and the
/// value of the `GENERATE_DIRS` setting, if set.
pub fn folder_step(exists: bool, generate_dirs: Option<&str>) -> (r: FolderStep)
    ensures
        exists ==> r == FolderStep::Keep,
        !exists && generate_dirs_enabled(match generate_dirs {
            Some(s) => Some(s@),
            None => None,
        }) ==> r == FolderStep::Create,
        !exists && !generate_dirs_enabled(match generate_dirs {
            Some(s) => Some(s@),
            None => None,
        }) ==> r == FolderStep::Refuse,
{
    if exists {
        return FolderStep::Keep;
    }
    let enabled = match generate_dirs {
        Some(s) => str_eq(s, "True"),
        None => false,
    };
    if enabled {
        FolderStep::Create
    } else {
        FolderStep::Refuse
    }
}

/// The main location is the list up to its first `:`: it holds no `:`, the
/// list starts with it, and a `:` follows it unless it is the whole list.
pub proof fn lemma_main_location_is_first_field(list: Seq<char>)
    ensures
        ({
            let m = locations_of(list)[0];
            &&& !m.contains(':')
            &&& m.len() <= list.len()
            &&& list.subrange(0, m.len() as int) == m
            &&& m.len() < list.len() ==> list[m.len() as int] == ':'
        }),
{
    crate::text::lemma_split_first_piece(list, ':');
}

} // verus!
