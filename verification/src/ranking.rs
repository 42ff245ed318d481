//! The ranked lists shown for a scan: largest files, largest directories
//! and directories with the most files.

use vstd::prelude::*;
use crate::order::{order_desc, is_perm};
use crate::paths::{path_eq, paths_equal};
use crate::scan::{
    ScanData, DirSize, DirFileCount, FileSize, ranked_desc, dir_size_views, dir_count_views,
    file_views, TOP_N_DIRS, TOP_N_FILES,
};

verus! {

/// The items whose path is not `root` (as paths compare), in order.
pub open spec fn drop_path(items: Seq<(Seq<char>, int)>, root: Seq<char>) -> Seq<(Seq<char>, int)>
    decreases items.len(),
{
    if items.len() == 0 {
        Seq::empty()
    } else {
        let r = drop_path(items.drop_last(), root);
        if path_eq(items.last().0, root) {
            r
        } else {
            r.push(items.last())
        }
    }
}

/// The first `n` of `items` once ranked largest first (stable).
pub open spec fn top_ranked(items: Seq<(Seq<char>, int)>, n: nat, out: Seq<(Seq<char>, int)>) -> bool {
    exists|full: Seq<(Seq<char>, int)>|
        ranked_desc(items, full) && out == full.take(if n < full.len() {
            n as int
        } else {
            full.len() as int
        })
}

/// The value last given for a path (as paths compare), or 0.
pub open spec fn lookup_path(items: Seq<(Seq<char>, int)>, p: Seq<char>) -> int
    decreases items.len(),
{
    if items.len() == 0 {
        0
    } else if path_eq(items.last().0, p) {
        items.last().1
    } else {
        lookup_path(items.drop_last(), p)
    }
}

/// The total size recorded for a directory path, 0 when none is.
pub fn dir_size_of(data: &ScanData, path: &String) -> (r: u64)
    ensures
        r == lookup_path(dir_size_views(data.dir_sizes@), path@),
{
    let mut i = data.dir_sizes.len();
    let ghost items = dir_size_views(data.dir_sizes@);
    assert(items.subrange(0, items.len() as int) =~= items);
    while i > 0
        invariant
            i <= items.len(),
            items == dir_size_views(data.dir_sizes@),
            lookup_path(items, path@) == lookup_path(items.subrange(0, i as int), path@),
        decreases i,
    {
        let ghost sub = items.subrange(0, i as int);
        assert(sub.drop_last() =~= items.subrange(0, i - 1));
        assert(sub.last() == (data.dir_sizes@[i - 1].path@, data.dir_sizes@[i - 1].size as int));
        if paths_equal(data.dir_sizes[i - 1].path.as_str(), path.as_str()) {
            return data.dir_sizes[i - 1].size;
        }
        i = i - 1;
    }
    assert(items.subrange(0, 0) =~= Seq::<(Seq<char>, int)>::empty());
    0
}

/// The largest directories other than the root, at most `TOP_N_DIRS`,
/// largest first.
pub fn top_dirs(data: &ScanData) -> (out: Vec<DirSize>)
    ensures
        top_ranked(
            drop_path(dir_size_views(data.dir_sizes@), data.root_path@),
            TOP_N_DIRS as nat,
            dir_size_views(out@),
        ),
{
    let ghost items = dir_size_views(data.dir_sizes@);
    let mut kept: Vec<DirSize> = Vec::new();
    let mut i: usize = 0;
    while i < data.dir_sizes.len()
        invariant
            i <= items.len(),
            items == dir_size_views(data.dir_sizes@),
            dir_size_views(kept@) == drop_path(items.subrange(0, i as int), data.root_path@),
        decreases items.len() - i,
    {
        let ghost sub = items.subrange(0, i + 1);
        assert(sub.drop_last() =~= items.subrange(0, i as int));
        assert(sub.last() == (data.dir_sizes@[i as int].path@, data.dir_sizes@[i as int].size as int));
        if !paths_equal(data.dir_sizes[i].path.as_str(), data.root_path.as_str()) {
            let ghost k0 = dir_size_views(kept@);
            kept.push(DirSize { path: data.dir_sizes[i].path.clone(), size: data.dir_sizes[i].size });
            assert(dir_size_views(kept@) =~= k0.push(sub.last()));
        }
        i = i + 1;
    }
    assert(items.subrange(0, items.len() as int) =~= items);
    let mut keys: Vec<u64> = Vec::new();
    i = 0;
    while i < kept.len()
        invariant
            i <= kept@.len(),
            keys@.len() == i,
            forall|k: int| 0 <= k < i ==> keys@[k] == kept@[k].size,
        decreases kept@.len() - i,
    {
        keys.push(kept[i].size);
        i = i + 1;
    }
    let p = order_desc(&keys);
    let mut full: Vec<DirSize> = Vec::new();
    let mut k: usize = 0;
    while k < p.len()
        invariant
            is_perm(p@, kept@.len()),
            keys@.len() == kept@.len(),
            k <= p@.len(),
            full@.len() == k,
            forall|m: int|
                0 <= m < k ==> #[trigger] dir_size_views(full@)[m] == dir_size_views(kept@)[p@[m] as int],
        decreases p@.len() - k,
    {
        let d = &kept[p[k]];
        let ghost f0 = dir_size_views(full@);
        full.push(DirSize { path: d.path.clone(), size: d.size });
        assert(dir_size_views(full@) =~= f0.push((d.path@, d.size as int)));
        assert(dir_size_views(kept@)[p@[k as int] as int] == (d.path@, d.size as int));
        k = k + 1;
    }
    proof {
        let its = dir_size_views(kept@);
        assert forall|a: int, b: int|
            #![trigger p@[a], p@[b]]
            0 <= a < b < its.len() implies its[p@[a] as int].1 > its[p@[b] as int].1 || (
            its[p@[a] as int].1 == its[p@[b] as int].1 && p@[a] < p@[b]) by {
            assert(keys@[p@[a] as int] == kept@[p@[a] as int].size);
            assert(keys@[p@[b] as int] == kept@[p@[b] as int].size);
        }
        assert(ranked_desc(its, dir_size_views(full@)));
    }
    let ghost fv = dir_size_views(full@);
    if full.len() > TOP_N_DIRS {
        full.truncate(TOP_N_DIRS);
    }
    assert(dir_size_views(full@) =~= fv.take(if TOP_N_DIRS < fv.len() {
        TOP_N_DIRS as int
    } else {
        fv.len() as int
    }));
    full
}

/// The directories other than the root with the most files, at most
/// `TOP_N_DIRS`, most first.
pub fn top_dirs_by_files(data: &ScanData) -> (out: Vec<DirFileCount>)
    ensures
        top_ranked(
            drop_path(dir_count_views(data.dir_file_counts@), data.root_path@),
            TOP_N_DIRS as nat,
            dir_count_views(out@),
        ),
{
    let ghost items = dir_count_views(data.dir_file_counts@);
    let mut kept: Vec<DirFileCount> = Vec::new();
    let mut i: usize = 0;
    while i < data.dir_file_counts.len()
        invariant
            i <= items.len(),
            items == dir_count_views(data.dir_file_counts@),
            dir_count_views(kept@) == drop_path(items.subrange(0, i as int), data.root_path@),
        decreases items.len() - i,
    {
        let ghost sub = items.subrange(0, i + 1);
        assert(sub.drop_last() =~= items.subrange(0, i as int));
        assert(sub.last() == (
            data.dir_file_counts@[i as int].path@,
            data.dir_file_counts@[i as int].count as int,
        ));
        if !paths_equal(data.dir_file_counts[i].path.as_str(), data.root_path.as_str()) {
            let ghost k0 = dir_count_views(kept@);
            kept.push(
                DirFileCount {
                    path: data.dir_file_counts[i].path.clone(),
                    count: data.dir_file_counts[i].count,
                },
            );
            assert(dir_count_views(kept@) =~= k0.push(sub.last()));
        }
        i = i + 1;
    }
    assert(items.subrange(0, items.len() as int) =~= items);
    let mut keys: Vec<u64> = Vec::new();
    i = 0;
    while i < kept.len()
        invariant
            i <= kept@.len(),
            keys@.len() == i,
            forall|k: int| 0 <= k < i ==> keys@[k] == kept@[k].count,
        decreases kept@.len() - i,
    {
        keys.push(kept[i].count as u64);
        i = i + 1;
    }
    let p = order_desc(&keys);
    let mut full: Vec<DirFileCount> = Vec::new();
    let mut k: usize = 0;
    while k < p.len()
        invariant
            is_perm(p@, kept@.len()),
            keys@.len() == kept@.len(),
            k <= p@.len(),
            full@.len() == k,
            forall|m: int|
                0 <= m < k ==> #[trigger] dir_count_views(full@)[m] == dir_count_views(kept@)[p@[m] as int],
        decreases p@.len() - k,
    {
        let d = &kept[p[k]];
        let ghost f0 = dir_count_views(full@);
        full.push(DirFileCount { path: d.path.clone(), count: d.count });
        assert(dir_count_views(full@) =~= f0.push((d.path@, d.count as int)));
        assert(dir_count_views(kept@)[p@[k as int] as int] == (d.path@, d.count as int));
        k = k + 1;
    }
    proof {
        let its = dir_count_views(kept@);
        assert forall|a: int, b: int|
            #![trigger p@[a], p@[b]]
            0 <= a < b < its.len() implies its[p@[a] as int].1 > its[p@[b] as int].1 || (
            its[p@[a] as int].1 == its[p@[b] as int].1 && p@[a] < p@[b]) by {
            assert(keys@[p@[a] as int] == kept@[p@[a] as int].count);
            assert(keys@[p@[b] as int] == kept@[p@[b] as int].count);
        }
        assert(ranked_desc(its, dir_count_views(full@)));
    }
    let ghost fv = dir_count_views(full@);
    if full.len() > TOP_N_DIRS {
        full.truncate(TOP_N_DIRS);
    }
    assert(dir_count_views(full@) =~= fv.take(if TOP_N_DIRS < fv.len() {
        TOP_N_DIRS as int
    } else {
        fv.len() as int
    }));
    full
}

/// The first `TOP_N_FILES` of the files, as ranked by the scan.
pub fn top_files(data: &ScanData) -> (out: Vec<FileSize>)
    ensures
        file_views(out@) == file_views(data.largest_files@).take(
            if TOP_N_FILES < data.largest_files@.len() {
                TOP_N_FILES as int
            } else {
                data.largest_files@.len() as int
            },
        ),
{
    let n = if TOP_N_FILES < data.largest_files.len() {
        TOP_N_FILES
    } else {
        data.largest_files.len()
    };
    let mut out: Vec<FileSize> = Vec::new();
    let mut i: usize = 0;
    while i < n
        invariant
            n <= data.largest_files@.len(),
            i <= n,
            file_views(out@) == file_views(data.largest_files@).take(i as int),
        decreases n - i,
    {
        let ghost o = file_views(out@);
        let f = data.largest_files[i].duplicate();
        out.push(f);
        assert(file_views(out@) =~= o.push((f.path@, f.size as int)));
        assert(file_views(data.largest_files@)[i as int] == (f.path@, f.size as int));
        assert(file_views(data.largest_files@).take(i + 1) =~= file_views(data.largest_files@).take(i as int).push(file_views(data.largest_files@)[i as int]));
        i = i + 1;
        assert(file_views(out@) =~= file_views(data.largest_files@).take(i as int));
    }
    out
}

} // verus!
