//! The scan as the web page receives it.

use vstd::prelude::*;
use vstd::string::StringExecFns;
use crate::text::{views, owned, usize_to_string};
use crate::size::{human_size, human_size_seq};
use crate::paths::{file_name_or_empty, file_name_string};
use crate::scan::{
    ScanData, EntryInfo, IgnoredEntry, file_views, dir_size_views, dir_count_views, relative_path,
    relative_path_seq, TOP_N_DIRS,
};
use crate::ranking::{top_ranked, drop_path, lookup_path, dir_size_of, top_dirs, top_dirs_by_files, top_files};
use crate::report::{
    ReportContext, render_report_with, report_seq, depth_label, depth_label_seq, shown_files,
};

verus! {

/// A key and its value.
pub struct KeyValue {
    pub key: String,
    pub value: String,
}

/// A row of the root contents.
pub struct EntryRow {
    pub index: usize,
    pub kind: String,
    pub name: String,
    pub size: String,
    pub size_bytes: u64,
}

/// A ranked file or directory.
pub struct RankedPath {
    pub index: usize,
    pub name: String,
    pub path: String,
    pub size: String,
    pub size_bytes: u64,
}

/// A directory ranked by its number of files.
pub struct RankedDirCount {
    pub index: usize,
    pub name: String,
    pub path: String,
    pub file_count: usize,
}

/// The scan's totals.
pub struct ScanSummary {
    pub depth: String,
    pub dir_count: usize,
    pub file_count: usize,
    pub scanned_file_bytes: u64,
    pub scanned_file_size: String,
    pub root_total_size: u64,
    pub root_total_size_human: String,
    pub root_item_count: usize,
    pub max_depth_reached: usize,
}

/// A skipped entry.
pub struct IgnoredRow {
    pub index: usize,
    pub kind: String,
    pub name: String,
    pub path: String,
    pub size: String,
    pub size_bytes: u64,
    pub file_count: usize,
}

/// Everything the web page shows for a scan.
pub struct ScanResponse {
    pub root_path: String,
    pub summary: ScanSummary,
    pub root_entries: Vec<EntryRow>,
    pub top_files: Vec<RankedPath>,
    pub top_dirs: Vec<RankedPath>,
    pub top_dirs_by_files: Vec<RankedDirCount>,
    pub ignored: Vec<IgnoredRow>,
    pub tree_lines: Vec<String>,
    pub report_text: String,
}

/// `dir` or `file`.
pub open spec fn kind_seq(is_dir: bool) -> Seq<char> {
    if is_dir {
        "dir"@
    } else {
        "file"@
    }
}

/// A root entry's row.
pub open spec fn entry_row_ok(data: ScanData, i: int, row: EntryRow) -> bool {
    let e = data.root_entries@[i];
    let bytes = if e.is_dir {
        lookup_path(dir_size_views(data.dir_sizes@), e.path@)
    } else {
        e.size as int
    };
    &&& row.index == i + 1
    &&& row.kind@ == kind_seq(e.is_dir)
    &&& row.name@ == (if e.is_dir {
        e.name@ + "/"@
    } else {
        e.name@
    })
    &&& row.size_bytes == bytes
    &&& row.size@ == human_size_seq(bytes as nat)
}

/// A ranked file's row.
pub open spec fn file_row_ok(root: Seq<char>, i: int, f: (Seq<char>, int), row: RankedPath) -> bool {
    &&& row.index == i + 1
    &&& row.name@ == file_name_or_empty(f.0)
    &&& row.path@ == relative_path_seq(root, f.0)
    &&& row.size_bytes == f.1
    &&& row.size@ == human_size_seq(f.1 as nat)
}

/// A ranked directory's row.
pub open spec fn dir_row_ok(root: Seq<char>, i: int, d: (Seq<char>, int), row: RankedPath) -> bool {
    &&& row.index == i + 1
    &&& row.name@ == file_name_or_empty(d.0) + "/"@
    &&& row.path@ == relative_path_seq(root, d.0)
    &&& row.size_bytes == d.1
    &&& row.size@ == human_size_seq(d.1 as nat)
}

/// A directory's row by file count.
pub open spec fn count_row_ok(root: Seq<char>, i: int, d: (Seq<char>, int), row: RankedDirCount) -> bool {
    &&& row.index == i + 1
    &&& row.name@ == file_name_or_empty(d.0) + "/"@
    &&& row.path@ == relative_path_seq(root, d.0)
    &&& row.file_count == d.1
}

/// A skipped entry's row.
pub open spec fn ignored_row_ok(root: Seq<char>, i: int, e: IgnoredEntry, row: IgnoredRow) -> bool {
    &&& row.index == i + 1
    &&& row.kind@ == kind_seq(e.is_dir)
    &&& row.name@ == (if e.is_dir {
        e.name@ + "/"@
    } else {
        e.name@
    })
    &&& row.path@ == relative_path_seq(root, e.path@)
    &&& row.size@ == human_size_seq(e.size as nat)
    &&& row.size_bytes == e.size
    &&& row.file_count == e.file_count
}

/// The summary of a scan.
pub open spec fn summary_ok(data: ScanData, s: ScanSummary) -> bool {
    &&& s.depth@ == depth_label_seq(data.max_depth_reached as nat)
    &&& s.dir_count == data.dir_count
    &&& s.file_count == data.file_count
    &&& s.scanned_file_bytes == data.scanned_file_bytes
    &&& s.scanned_file_size@ == human_size_seq(data.scanned_file_bytes as nat)
    &&& s.root_total_size == data.root_total_size
    &&& s.root_total_size_human@ == human_size_seq(data.root_total_size as nat)
    &&& s.root_item_count == data.root_entries@.len()
    &&& s.max_depth_reached == data.max_depth_reached
}

fn kind_string(is_dir: bool) -> (s: String)
    ensures
        s@ == kind_seq(is_dir),
{
    if is_dir {
        owned("dir")
    } else {
        owned("file")
    }
}

fn entry_rows(data: &ScanData) -> (rows: Vec<EntryRow>)
    ensures
        rows@.len() == data.root_entries@.len(),
        forall|i: int| 0 <= i < rows@.len() ==> #[trigger] entry_row_ok(*data, i, rows@[i]),
{
    let mut rows: Vec<EntryRow> = Vec::new();
    let mut i: usize = 0;
    while i < data.root_entries.len()
        invariant
            i <= data.root_entries@.len(),
            rows@.len() == i,
            forall|k: int| 0 <= k < i ==> #[trigger] entry_row_ok(*data, k, rows@[k]),
        decreases data.root_entries@.len() - i,
    {
        let e = &data.root_entries[i];
        let (name, size_bytes) = if e.is_dir {
            let mut n = e.name.clone();
            n.append("/");
            (n, dir_size_of(data, &e.path))
        } else {
            (e.name.clone(), e.size)
        };
        rows.push(
            EntryRow {
                index: i + 1,
                kind: kind_string(e.is_dir),
                name,
                size: human_size(size_bytes),
                size_bytes,
            },
        );
        i = i + 1;
    }
    rows
}

/// The scan as the web page receives it; the report text is the one
/// [`render_report`] writes with the given context.
impl ScanResponse {
    pub fn from_scan(data: &ScanData, ctx: &ReportContext) -> (r: Self)
        ensures
            r.root_path@ == data.root_path@,
            summary_ok(*data, r.summary),
            r.root_entries@.len() == data.root_entries@.len(),
            forall|i: int|
                0 <= i < r.root_entries@.len() ==> #[trigger] entry_row_ok(*data, i, r.root_entries@[i]),
            r.top_files@.len() == shown_files(*data),
            forall|i: int|
                0 <= i < r.top_files@.len() ==> #[trigger] file_row_ok(
                    data.root_path@,
                    i,
                    file_views(data.largest_files@)[i],
                    r.top_files@[i],
                ),
            r.ignored@.len() == data.ignored_entries@.len(),
            forall|i: int|
                0 <= i < r.ignored@.len() ==> #[trigger] ignored_row_ok(
                    data.root_path@,
                    i,
                    data.ignored_entries@[i],
                    r.ignored@[i],
                ),
            views(r.tree_lines@) == views(data.tree_lines@),
            exists|td: Seq<(Seq<char>, int)>, tc: Seq<(Seq<char>, int)>|
                {
                    &&& top_ranked(
                        drop_path(dir_size_views(data.dir_sizes@), data.root_path@),
                        TOP_N_DIRS as nat,
                        td,
                    )
                    &&& top_ranked(
                        drop_path(dir_count_views(data.dir_file_counts@), data.root_path@),
                        TOP_N_DIRS as nat,
                        tc,
                    )
                    &&& r.top_dirs@.len() == td.len()
                    &&& (forall|i: int|
                        0 <= i < td.len() ==> #[trigger] dir_row_ok(
                            data.root_path@,
                            i,
                            td[i],
                            r.top_dirs@[i],
                        ))
                    &&& r.top_dirs_by_files@.len() == tc.len()
                    &&& (forall|i: int|
                        0 <= i < tc.len() ==> #[trigger] count_row_ok(
                            data.root_path@,
                            i,
                            tc[i],
                            r.top_dirs_by_files@[i],
                        ))
                    &&& r.report_text@ == report_seq(*data, *ctx, td, tc)
                },
    {
        let root_entries = entry_rows(data);
        let files = top_files(data);
        let mut top_files_rows: Vec<RankedPath> = Vec::new();
        let mut i: usize = 0;
        while i < files.len()
            invariant
                i <= files@.len(),
                file_views(files@) == file_views(data.largest_files@).take(shown_files(*data)),
                top_files_rows@.len() == i,
                forall|k: int|
                    0 <= k < i ==> #[trigger] file_row_ok(
                        data.root_path@,
                        k,
                        file_views(data.largest_files@)[k],
                        top_files_rows@[k],
                    ),
            decreases files@.len() - i,
        {
            let f = &files[i];
            assert(file_views(files@)[i as int] == (f.path@, f.size as int));
            assert(file_views(files@).len() == files@.len());
            assert(shown_files(*data) <= file_views(data.largest_files@).len());
            assert(i < shown_files(*data));
            assert(file_views(data.largest_files@).take(shown_files(*data))[i as int]
                == file_views(data.largest_files@)[i as int]);
            top_files_rows.push(
                RankedPath {
                    index: i + 1,
                    name: file_name_string(f.path.as_str()),
                    path: relative_path(data.root_path.as_str(), f.path.as_str()),
                    size: human_size(f.size),
                    size_bytes: f.size,
                },
            );
            i = i + 1;
        }
        let dirs = top_dirs(data);
        let mut top_dir_rows: Vec<RankedPath> = Vec::new();
        i = 0;
        while i < dirs.len()
            invariant
                i <= dirs@.len(),
                top_dir_rows@.len() == i,
                forall|k: int|
                    0 <= k < i ==> #[trigger] dir_row_ok(
                        data.root_path@,
                        k,
                        dir_size_views(dirs@)[k],
                        top_dir_rows@[k],
                    ),
            decreases dirs@.len() - i,
        {
            let d = &dirs[i];
            let mut name = file_name_string(d.path.as_str());
            name.append("/");
            top_dir_rows.push(
                RankedPath {
                    index: i + 1,
                    name,
                    path: relative_path(data.root_path.as_str(), d.path.as_str()),
                    size: human_size(d.size),
                    size_bytes: d.size,
                },
            );
            i = i + 1;
        }
        let counts = top_dirs_by_files(data);
        let mut count_rows: Vec<RankedDirCount> = Vec::new();
        i = 0;
        while i < counts.len()
            invariant
                i <= counts@.len(),
                count_rows@.len() == i,
                forall|k: int|
                    0 <= k < i ==> #[trigger] count_row_ok(
                        data.root_path@,
                        k,
                        dir_count_views(counts@)[k],
                        count_rows@[k],
                    ),
            decreases counts@.len() - i,
        {
            let d = &counts[i];
            let mut name = file_name_string(d.path.as_str());
            name.append("/");
            count_rows.push(
                RankedDirCount {
                    index: i + 1,
                    name,
                    path: relative_path(data.root_path.as_str(), d.path.as_str()),
                    file_count: d.count,
                },
            );
            i = i + 1;
        }
        let mut ignored: Vec<IgnoredRow> = Vec::new();
        i = 0;
        while i < data.ignored_entries.len()
            invariant
                i <= data.ignored_entries@.len(),
                ignored@.len() == i,
                forall|k: int|
                    0 <= k < i ==> #[trigger] ignored_row_ok(
                        data.root_path@,
                        k,
                        data.ignored_entries@[k],
                        ignored@[k],
                    ),
            decreases data.ignored_entries@.len() - i,
        {
            let e = &data.ignored_entries[i];
            let name = if e.is_dir {
                let mut n = e.name.clone();
                n.append("/");
                n
            } else {
                e.name.clone()
            };
            ignored.push(
                IgnoredRow {
                    index: i + 1,
                    kind: kind_string(e.is_dir),
                    name,
                    path: relative_path(data.root_path.as_str(), e.path.as_str()),
                    size: human_size(e.size),
                    size_bytes: e.size,
                    file_count: e.file_count,
                },
            );
            i = i + 1;
        }
        let summary = ScanSummary {
            depth: depth_label(data.max_depth_reached),
            dir_count: data.dir_count,
            file_count: data.file_count,
            scanned_file_bytes: data.scanned_file_bytes,
            scanned_file_size: human_size(data.scanned_file_bytes),
            root_total_size: data.root_total_size,
            root_total_size_human: human_size(data.root_total_size),
            root_item_count: data.root_entries.len(),
            max_depth_reached: data.max_depth_reached,
        };
        let report_text = render_report_with(data, ctx, &dirs, &counts);
        let mut tree_lines: Vec<String> = Vec::new();
        i = 0;
        while i < data.tree_lines.len()
            invariant
                i <= data.tree_lines@.len(),
                views(tree_lines@) == views(data.tree_lines@).take(i as int),
            decreases data.tree_lines@.len() - i,
        {
            let ghost t0 = views(tree_lines@);
            tree_lines.push(data.tree_lines[i].clone());
            assert(views(tree_lines@) =~= t0.push(data.tree_lines@[i as int]@));
            i = i + 1;
            assert(views(tree_lines@) =~= views(data.tree_lines@).take(i as int));
        }
        assert(views(data.tree_lines@).take(data.tree_lines@.len() as int) =~= views(data.tree_lines@));
        ScanResponse {
            root_path: data.root_path.clone(),
            summary,
            root_entries,
            top_files: top_files_rows,
            top_dirs: top_dir_rows,
            top_dirs_by_files: count_rows,
            ignored,
            tree_lines,
            report_text,
        }
    }
}

} // verus!
