//! The plain-text scan report: a system section, a summary, four tables
//! and the full tree.

use vstd::prelude::*;
use vstd::utf8::encode_utf8;
use vstd::string::StringExecFns;
use crate::text::{
    views, join, join_seq, pad_seq, pad_right, dec_seq, usize_to_string, owned,
};
use crate::size::{human_size, human_size_seq};
use crate::paths::{file_name_or_empty, file_name_string};
use crate::scan::{
    ScanData, FileSize, DirSize, DirFileCount, file_views, dir_size_views, dir_count_views,
    relative_path, relative_path_seq, SCAN_EVERYTHING, MAX_DEPTH, SHOW_HIDDEN, FOLLOW_SYMLINKS,
    TOP_N_FILES, TOP_N_DIRS, SAVE_OUTPUT,
};
use crate::ranking::{
    top_ranked, drop_path, lookup_path, dir_size_of, top_dirs, top_dirs_by_files, top_files,
};

verus! {

/// The length of a string in UTF-8 bytes, as `str::len` returns it.
pub open spec fn byte_len(s: Seq<char>) -> nat {
    (encode_utf8(s).len() as usize) as nat
}

/// One `key value` line of a key/value section: the key padded to 22.
pub open spec fn kv_line(row: (Seq<char>, Seq<char>)) -> Seq<char> {
    pad_seq(row.0, 22) + " "@ + row.1
}

/// A key/value section.
pub open spec fn kv_section(title: Seq<char>, rows: Seq<(Seq<char>, Seq<char>)>) -> Seq<char> {
    title + "\n"@ + join_seq(rows.map_values(|r: (Seq<char>, Seq<char>)| kv_line(r)), "\n"@)
}

pub open spec fn pair_views(rows: Seq<(String, String)>) -> Seq<(Seq<char>, Seq<char>)> {
    rows.map_values(|r: (String, String)| (r.0@, r.1@))
}

/// `render_kv_section`: the title, then one line per row.
pub fn render_kv_section(title: &str, rows: &Vec<(String, String)>) -> (s: String)
    ensures
        s@ == kv_section(title@, pair_views(rows@)),
{
    let mut lines: Vec<String> = Vec::new();
    let mut i: usize = 0;
    while i < rows.len()
        invariant
            i <= rows@.len(),
            views(lines@) == pair_views(rows@).subrange(0, i as int).map_values(
                |r: (Seq<char>, Seq<char>)| kv_line(r),
            ),
        decreases rows@.len() - i,
    {
        let ghost l0 = views(lines@);
        let mut line = pad_right(rows[i].0.as_str(), 22);
        line.append(" ");
        line.append(rows[i].1.as_str());
        lines.push(line);
        proof {
            assert(pair_views(rows@)[i as int] == (rows@[i as int].0@, rows@[i as int].1@));
            assert(views(lines@) =~= l0.push(line@));
        }
        i = i + 1;
        assert(views(lines@) =~= pair_views(rows@).subrange(0, i as int).map_values(
            |r: (Seq<char>, Seq<char>)| kv_line(r),
        ));
    }
    assert(pair_views(rows@).subrange(0, rows@.len() as int) =~= pair_views(rows@));
    let body = join(&lines, "\n");
    let mut s = owned(title);
    s.append("\n");
    s.append(body.as_str());
    s
}

/// The widest cell of column `c` over the rows, in bytes (0 when none).
pub open spec fn max_cell(rows: Seq<Seq<Seq<char>>>, c: int) -> nat
    decreases rows.len(),
{
    if rows.len() == 0 {
        0
    } else {
        let m = max_cell(rows.drop_last(), c);
        let x = if 0 <= c < rows.last().len() {
            byte_len(rows.last()[c])
        } else {
            0
        };
        if m >= x {
            m
        } else {
            x
        }
    }
}

/// Column widths: the header's byte length or the widest cell's.
pub open spec fn col_widths(headers: Seq<Seq<char>>, rows: Seq<Seq<Seq<char>>>) -> Seq<nat> {
    Seq::new(
        headers.len(),
        |c: int|
            if byte_len(headers[c]) >= max_cell(rows, c) {
                byte_len(headers[c])
            } else {
                max_cell(rows, c)
            },
    )
}

/// Cells padded to their column width, two spaces apart.
pub open spec fn padded_line(cells: Seq<Seq<char>>, widths: Seq<nat>) -> Seq<char> {
    join_seq(Seq::new(cells.len(), |c: int| pad_seq(cells[c], widths[c])), "  "@)
}

/// A table section: title, header line, one line per row.
pub open spec fn table_section(
    title: Seq<char>,
    headers: Seq<Seq<char>>,
    rows: Seq<Seq<Seq<char>>>,
) -> Seq<char> {
    let w = col_widths(headers, rows);
    title + "\n"@ + padded_line(headers, w) + "\n"@ + join_seq(
        rows.map_values(|r: Seq<Seq<char>>| padded_line(r, w)),
        "\n"@,
    )
}

pub open spec fn row_views(rows: Seq<Vec<String>>) -> Seq<Seq<Seq<char>>> {
    rows.map_values(|r: Vec<String>| views(r@))
}

fn padded_line_exec(cells: &Vec<String>, widths: &Vec<usize>) -> (s: String)
    requires
        cells@.len() <= widths@.len(),
    ensures
        s@ == padded_line(views(cells@), widths@.map_values(|w: usize| w as nat)),
{
    let mut parts: Vec<String> = Vec::new();
    let mut i: usize = 0;
    let ghost wv = widths@.map_values(|w: usize| w as nat);
    let ghost target = Seq::new(views(cells@).len(), |c: int| pad_seq(views(cells@)[c], wv[c]));
    while i < cells.len()
        invariant
            i <= cells@.len(),
            cells@.len() <= widths@.len(),
            wv == widths@.map_values(|w: usize| w as nat),
            target == Seq::new(views(cells@).len(), |c: int| pad_seq(views(cells@)[c], wv[c])),
            views(parts@) == target.subrange(0, i as int),
        decreases cells@.len() - i,
    {
        let ghost p0 = views(parts@);
        let p = pad_right(cells[i].as_str(), widths[i]);
        parts.push(p);
        assert(views(parts@) =~= p0.push(p@));
        i = i + 1;
        assert(views(parts@) =~= target.subrange(0, i as int));
    }
    assert(target.subrange(0, cells@.len() as int) =~= target);
    join(&parts, "  ")
}

/// `render_table_section`: column widths are byte lengths of the header and
/// cells; cells are padded (by characters) to those widths.
pub fn render_table_section(title: &str, headers: &Vec<String>, rows: &Vec<Vec<String>>) -> (s:
    String)
    requires
        forall|r: int| 0 <= r < rows@.len() ==> #[trigger] rows@[r]@.len() <= headers@.len(),
    ensures
        s@ == table_section(title@, views(headers@), row_views(rows@)),
{
    let ghost hv = views(headers@);
    let ghost rv = row_views(rows@);
    let mut widths: Vec<usize> = Vec::new();
    let mut c: usize = 0;
    while c < headers.len()
        invariant
            c <= headers@.len(),
            hv == views(headers@),
            rv == row_views(rows@),
            widths@.len() == c,
            forall|k: int| 0 <= k < c ==> #[trigger] widths@[k] as nat == col_widths(hv, rv)[k],
        decreases headers@.len() - c,
    {
        let mut w: usize = 0;
        let mut r: usize = 0;
        while r < rows.len()
            invariant
                r <= rows@.len(),
                c < headers@.len(),
                rv == row_views(rows@),
                w as nat == max_cell(rv.subrange(0, r as int), c as int),
            decreases rows@.len() - r,
        {
            let ghost sub = rv.subrange(0, r + 1);
            assert(sub.drop_last() =~= rv.subrange(0, r as int));
            assert(sub.last() == views(rows@[r as int]@));
            if c < rows[r].len() {
                let x = rows[r][c].as_str().len();
                assert(views(rows@[r as int]@)[c as int] == rows@[r as int]@[c as int]@);
                if x > w {
                    w = x;
                }
            }
            r = r + 1;
        }
        assert(rv.subrange(0, rows@.len() as int) =~= rv);
        let hl = headers[c].as_str().len();
        assert(hv[c as int] == headers@[c as int]@);
        if hl > w {
            w = hl;
        }
        widths.push(w);
        c = c + 1;
    }
    let ghost wv = widths@.map_values(|w: usize| w as nat);
    assert(wv =~= col_widths(hv, rv));
    let header_line = padded_line_exec(headers, &widths);
    let mut lines: Vec<String> = Vec::new();
    let mut r: usize = 0;
    while r < rows.len()
        invariant
            r <= rows@.len(),
            rv == row_views(rows@),
            wv == widths@.map_values(|w: usize| w as nat),
            widths@.len() == headers@.len(),
            forall|k: int| 0 <= k < rows@.len() ==> #[trigger] rows@[k]@.len() <= headers@.len(),
            views(lines@) == rv.subrange(0, r as int).map_values(
                |x: Seq<Seq<char>>| padded_line(x, wv),
            ),
        decreases rows@.len() - r,
    {
        let ghost l0 = views(lines@);
        let line = padded_line_exec(&rows[r], &widths);
        lines.push(line);
        assert(rv[r as int] == views(rows@[r as int]@));
        assert(views(lines@) =~= l0.push(line@));
        r = r + 1;
        assert(views(lines@) =~= rv.subrange(0, r as int).map_values(
            |x: Seq<Seq<char>>| padded_line(x, wv),
        ));
    }
    assert(rv.subrange(0, rows@.len() as int) =~= rv);
    let body = join(&lines, "\n");
    let mut s = owned(title);
    s.append("\n");
    s.append(header_line.as_str());
    s.append("\n");
    s.append(body.as_str());
    s
}

/// `Yes` or `No`.
pub open spec fn yes_no_seq(value: bool) -> Seq<char> {
    if value {
        "Yes"@
    } else {
        "No"@
    }
}

/// `Yes` or `No`.
pub fn yes_no(value: bool) -> (s: String)
    ensures
        s@ == yes_no_seq(value),
{
    if value {
        owned("Yes")
    } else {
        owned("No")
    }
}

} // verus!

verus! {

/// What the report shows besides the scan: system rows, where reports are
/// saved, the file this one would be saved as, and when it was made.
pub struct ReportContext {
    pub system_rows: Vec<(String, String)>,
    pub output_dir: String,
    pub output_file: Option<String>,
    pub generated: String,
}

/// The depth shown for a scan.
pub open spec fn depth_label_seq(max_depth_reached: nat) -> Seq<char> {
    if SCAN_EVERYTHING {
        dec_seq(max_depth_reached) + " (actual)"@
    } else {
        dec_seq(MAX_DEPTH as nat) + " (max)"@
    }
}

/// The depth shown for a scan: the limit, or the depth reached when the
/// scan has no limit.
pub fn depth_label(max_depth_reached: usize) -> (s: String)
    ensures
        s@ == depth_label_seq(max_depth_reached as nat),
{
    if SCAN_EVERYTHING {
        let mut s = usize_to_string(max_depth_reached);
        s.append(" (actual)");
        s
    } else {
        let mut s = usize_to_string(MAX_DEPTH);
        s.append(" (max)");
        s
    }
}

/// The summary section's rows.
pub open spec fn summary_rows(data: ScanData, ctx: ReportContext) -> Seq<(Seq<char>, Seq<char>)> {
    seq![
        ("Root"@, data.root_path@),
        ("Depth"@, depth_label_seq(data.max_depth_reached as nat)),
        ("Directories"@, dec_seq(data.dir_count as nat)),
        ("Files"@, dec_seq(data.file_count as nat)),
        ("Scanned File Size"@, human_size_seq(data.scanned_file_bytes as nat)),
        ("Root Total Size"@, human_size_seq(data.root_total_size as nat)),
        ("Root Items"@, dec_seq(data.root_entries@.len())),
        ("Show Hidden"@, yes_no_seq(SHOW_HIDDEN)),
        ("Follow Symlinks"@, yes_no_seq(FOLLOW_SYMLINKS)),
        ("Top Files Count"@, dec_seq(TOP_N_FILES as nat)),
        ("Top Dirs Count"@, dec_seq(TOP_N_DIRS as nat)),
        ("Save Output"@, yes_no_seq(SAVE_OUTPUT)),
        ("Output Dir"@, ctx.output_dir@),
        ("Output File"@, match ctx.output_file {
            Some(p) => p@,
            None => "—"@,
        }),
        ("Generated"@, ctx.generated@),
    ]
}

/// The summary section's `Directories` row shows the number of directories
/// scanned and its `Files` row the number of files: each row so labelled
/// holds that count in decimal, and there is one of each.
pub proof fn lemma_summary_rows_counts(data: ScanData, ctx: ReportContext)
    ensures
        forall|k: int|
            0 <= k < summary_rows(data, ctx).len() && #[trigger] summary_rows(data, ctx)[k].0
                == "Directories"@ ==> summary_rows(data, ctx)[k].1 == dec_seq(data.dir_count as nat),
        forall|k: int|
            0 <= k < summary_rows(data, ctx).len() && #[trigger] summary_rows(data, ctx)[k].0
                == "Files"@ ==> summary_rows(data, ctx)[k].1 == dec_seq(data.file_count as nat),
        exists|k: int|
            0 <= k < summary_rows(data, ctx).len() && #[trigger] summary_rows(data, ctx)[k] == (
            "Directories"@, dec_seq(data.dir_count as nat)),
        exists|k: int|
            0 <= k < summary_rows(data, ctx).len() && #[trigger] summary_rows(data, ctx)[k] == (
            "Files"@, dec_seq(data.file_count as nat)),
        summary_rows(data, ctx)[0] == ("Root"@, data.root_path@),
        summary_rows(data, ctx)[4] == ("Scanned File Size"@, human_size_seq(
            data.scanned_file_bytes as nat,
        )),
        summary_rows(data, ctx)[5] == ("Root Total Size"@, human_size_seq(
            data.root_total_size as nat,
        )),
        summary_rows(data, ctx)[6] == ("Root Items"@, dec_seq(data.root_entries@.len())),
{
    reveal_strlit("Root");
    reveal_strlit("Depth");
    reveal_strlit("Directories");
    reveal_strlit("Files");
    reveal_strlit("Scanned File Size");
    reveal_strlit("Root Total Size");
    reveal_strlit("Root Items");
    reveal_strlit("Show Hidden");
    reveal_strlit("Follow Symlinks");
    reveal_strlit("Top Files Count");
    reveal_strlit("Top Dirs Count");
    reveal_strlit("Save Output");
    reveal_strlit("Output Dir");
    reveal_strlit("Output File");
    reveal_strlit("Generated");
    let s = summary_rows(data, ctx);
    assert(s[2] == ("Directories"@, dec_seq(data.dir_count as nat)));
    assert(s[3] == ("Files"@, dec_seq(data.file_count as nat)));
    assert(forall|k: int| 0 <= k < s.len() && k != 2 ==> #[trigger] s[k].0 != "Directories"@) by {
        assert forall|k: int| 0 <= k < s.len() && k != 2 implies #[trigger] s[k].0 != "Directories"@ by {
            if k == 0 {
                assert(s[k].0.len() != "Directories"@.len());
            }             else if k == 1 {
                assert(s[k].0.len() != "Directories"@.len());
            }             else if k == 3 {
                assert(s[k].0.len() != "Directories"@.len());
            }             else if k == 4 {
                assert(s[k].0.len() != "Directories"@.len());
            }             else if k == 5 {
                assert(s[k].0.len() != "Directories"@.len());
            }             else if k == 6 {
                assert(s[k].0.len() != "Directories"@.len());
            }             else if k == 7 {
                assert(s[k].0[0] != "Directories"@[0]);
            }             else if k == 8 {
                assert(s[k].0.len() != "Directories"@.len());
            }             else if k == 9 {
                assert(s[k].0.len() != "Directories"@.len());
            }             else if k == 10 {
                assert(s[k].0.len() != "Directories"@.len());
            }             else if k == 11 {
                assert(s[k].0[0] != "Directories"@[0]);
            }             else if k == 12 {
                assert(s[k].0.len() != "Directories"@.len());
            }             else if k == 13 {
                assert(s[k].0[0] != "Directories"@[0]);
            }             else if k == 14 {
                assert(s[k].0.len() != "Directories"@.len());
            }
        }
    }
    assert(forall|k: int| 0 <= k < s.len() && k != 3 ==> #[trigger] s[k].0 != "Files"@) by {
        assert forall|k: int| 0 <= k < s.len() && k != 3 implies #[trigger] s[k].0 != "Files"@ by {
            if k == 0 {
                assert(s[k].0.len() != "Files"@.len());
            }             else if k == 1 {
                assert(s[k].0[0] != "Files"@[0]);
            }             else if k == 2 {
                assert(s[k].0.len() != "Files"@.len());
            }             else if k == 4 {
                assert(s[k].0.len() != "Files"@.len());
            }             else if k == 5 {
                assert(s[k].0.len() != "Files"@.len());
            }             else if k == 6 {
                assert(s[k].0.len() != "Files"@.len());
            }             else if k == 7 {
                assert(s[k].0.len() != "Files"@.len());
            }             else if k == 8 {
                assert(s[k].0.len() != "Files"@.len());
            }             else if k == 9 {
                assert(s[k].0.len() != "Files"@.len());
            }             else if k == 10 {
                assert(s[k].0.len() != "Files"@.len());
            }             else if k == 11 {
                assert(s[k].0.len() != "Files"@.len());
            }             else if k == 12 {
                assert(s[k].0.len() != "Files"@.len());
            }             else if k == 13 {
                assert(s[k].0.len() != "Files"@.len());
            }             else if k == 14 {
                assert(s[k].0.len() != "Files"@.len());
            }
        }
    }
}

/// The root contents table's rows.
pub open spec fn root_rows(data: ScanData) -> Seq<Seq<Seq<char>>> {
    Seq::new(
        data.root_entries@.len(),
        |i: int|
            {
                let e = data.root_entries@[i];
                if e.is_dir {
                    seq![
                        dec_seq((i + 1) as nat),
                        "□ dir"@,
                        e.name@ + "/"@,
                        human_size_seq(lookup_path(dir_size_views(data.dir_sizes@), e.path@) as nat),
                    ]
                } else {
                    seq![dec_seq((i + 1) as nat), "▪ file"@, e.name@, human_size_seq(e.size as nat)]
                }
            },
    )
}

/// The largest files table's rows.
pub open spec fn file_rows(root: Seq<char>, files: Seq<(Seq<char>, int)>) -> Seq<Seq<Seq<char>>> {
    Seq::new(
        files.len(),
        |i: int|
            seq![
                dec_seq((i + 1) as nat),
                "▪ "@ + file_name_or_empty(files[i].0),
                relative_path_seq(root, files[i].0),
                human_size_seq(files[i].1 as nat),
            ],
    )
}

/// The largest directories table's rows.
pub open spec fn dir_rows(root: Seq<char>, dirs: Seq<(Seq<char>, int)>) -> Seq<Seq<Seq<char>>> {
    Seq::new(
        dirs.len(),
        |i: int|
            seq![
                dec_seq((i + 1) as nat),
                "□ "@ + file_name_or_empty(dirs[i].0) + "/"@,
                relative_path_seq(root, dirs[i].0),
                human_size_seq(dirs[i].1 as nat),
            ],
    )
}

/// The directories by file count table's rows.
pub open spec fn count_rows(root: Seq<char>, dirs: Seq<(Seq<char>, int)>) -> Seq<Seq<Seq<char>>> {
    Seq::new(
        dirs.len(),
        |i: int|
            seq![
                dec_seq((i + 1) as nat),
                "□ "@ + file_name_or_empty(dirs[i].0) + "/"@,
                relative_path_seq(root, dirs[i].0),
                dec_seq(dirs[i].1 as nat),
            ],
    )
}

/// The last section: the root and its size, then the tree lines.
pub open spec fn tree_section(data: ScanData) -> Seq<char> {
    "▾ Full Tree\n◆ "@ + data.root_path@ + "  ◌ "@ + human_size_seq(data.root_total_size as nat)
        + "\n"@ + join_seq(views(data.tree_lines@), "\n"@)
}

/// The whole report, given the ranked directory lists.
pub open spec fn report_seq(
    data: ScanData,
    ctx: ReportContext,
    top_dirs: Seq<(Seq<char>, int)>,
    top_counts: Seq<(Seq<char>, int)>,
) -> Seq<char> {
    let n_files = if TOP_N_FILES < data.largest_files@.len() {
        TOP_N_FILES as int
    } else {
        data.largest_files@.len() as int
    };
    join_seq(
        seq![
            kv_section("▾ System Info"@, pair_views(ctx.system_rows@)),
            kv_section("▾ Summary"@, summary_rows(data, ctx)),
            table_section(
                "▾ Root Contents"@,
                seq!["#"@, "Type"@, "Name"@, "Size"@],
                root_rows(data),
            ),
            table_section(
                "▾ Top "@ + dec_seq(TOP_N_FILES as nat) + " Largest Files"@,
                seq!["#"@, "File"@, "Relative Path"@, "Size"@],
                file_rows(data.root_path@, file_views(data.largest_files@).take(n_files)),
            ),
            table_section(
                "▾ Top "@ + dec_seq(TOP_N_DIRS as nat) + " Largest Directories"@,
                seq!["#"@, "Directory"@, "Relative Path"@, "Total Size"@],
                dir_rows(data.root_path@, top_dirs),
            ),
            table_section(
                "▾ Top "@ + dec_seq(TOP_N_DIRS as nat) + " Directories by File Count"@,
                seq!["#"@, "Directory"@, "Relative Path"@, "Files"@],
                count_rows(data.root_path@, top_counts),
            ),
            tree_section(data),
        ],
        "\n\n"@,
    )
}

fn pair(a: &str, b: String) -> (r: (String, String))
    ensures
        r.0@ == a@,
        r.1@ == b@,
{
    (owned(a), b)
}

fn summary_rows_exec(data: &ScanData, ctx: &ReportContext) -> (rows: Vec<(String, String)>)
    ensures
        pair_views(rows@) == summary_rows(*data, *ctx),
{
    let mut rows: Vec<(String, String)> = Vec::new();
    rows.push(pair("Root", data.root_path.clone()));
    rows.push(pair("Depth", depth_label(data.max_depth_reached)));
    rows.push(pair("Directories", usize_to_string(data.dir_count)));
    rows.push(pair("Files", usize_to_string(data.file_count)));
    rows.push(pair("Scanned File Size", human_size(data.scanned_file_bytes)));
    rows.push(pair("Root Total Size", human_size(data.root_total_size)));
    rows.push(pair("Root Items", usize_to_string(data.root_entries.len())));
    rows.push(pair("Show Hidden", yes_no(SHOW_HIDDEN)));
    rows.push(pair("Follow Symlinks", yes_no(FOLLOW_SYMLINKS)));
    rows.push(pair("Top Files Count", usize_to_string(TOP_N_FILES)));
    rows.push(pair("Top Dirs Count", usize_to_string(TOP_N_DIRS)));
    rows.push(pair("Save Output", yes_no(SAVE_OUTPUT)));
    rows.push(pair("Output Dir", ctx.output_dir.clone()));
    let out_file = match &ctx.output_file {
        Some(p) => p.clone(),
        None => owned("—"),
    };
    rows.push(pair("Output File", out_file));
    rows.push(pair("Generated", ctx.generated.clone()));
    assert(pair_views(rows@) =~= summary_rows(*data, *ctx));
    rows
}

pub fn strings4(a: String, b: String, c: String, d: String) -> (v: Vec<String>)
    ensures
        views(v@) == seq![a@, b@, c@, d@],
        v@.len() == 4,
{
    let mut v: Vec<String> = Vec::new();
    v.push(a);
    v.push(b);
    v.push(c);
    v.push(d);
    assert(views(v@) =~= seq![a@, b@, c@, d@]);
    v
}

fn root_rows_exec(data: &ScanData) -> (rows: Vec<Vec<String>>)
    ensures
        row_views(rows@) == root_rows(*data),
        forall|r: int| 0 <= r < rows@.len() ==> #[trigger] rows@[r]@.len() == 4,
{
    let mut rows: Vec<Vec<String>> = Vec::new();
    let mut i: usize = 0;
    while i < data.root_entries.len()
        invariant
            i <= data.root_entries@.len(),
            row_views(rows@) == root_rows(*data).subrange(0, i as int),
            forall|r: int| 0 <= r < rows@.len() ==> #[trigger] rows@[r]@.len() == 4,
        decreases data.root_entries@.len() - i,
    {
        let e = &data.root_entries[i];
        let row = if e.is_dir {
            let mut name = e.name.clone();
            name.append("/");
            strings4(
                usize_to_string(i + 1),
                owned("□ dir"),
                name,
                human_size(dir_size_of(data, &e.path)),
            )
        } else {
            strings4(usize_to_string(i + 1), owned("▪ file"), e.name.clone(), human_size(e.size))
        };
        let ghost r0 = row_views(rows@);
        rows.push(row);
        assert(row_views(rows@) =~= r0.push(views(row@)));
        assert(views(row@) =~= root_rows(*data)[i as int]);
        i = i + 1;
        assert(row_views(rows@) =~= root_rows(*data).subrange(0, i as int));
    }
    assert(root_rows(*data).subrange(0, data.root_entries@.len() as int) =~= root_rows(*data));
    rows
}

fn file_rows_exec(root: &String, files: &Vec<FileSize>) -> (rows: Vec<Vec<String>>)
    ensures
        row_views(rows@) == file_rows(root@, file_views(files@)),
        forall|r: int| 0 <= r < rows@.len() ==> #[trigger] rows@[r]@.len() == 4,
{
    let ghost fv = file_views(files@);
    let mut rows: Vec<Vec<String>> = Vec::new();
    let mut i: usize = 0;
    while i < files.len()
        invariant
            i <= files@.len(),
            fv == file_views(files@),
            row_views(rows@) == file_rows(root@, fv).subrange(0, i as int),
            forall|r: int| 0 <= r < rows@.len() ==> #[trigger] rows@[r]@.len() == 4,
        decreases files@.len() - i,
    {
        let f = &files[i];
        let mut name = owned("▪ ");
        let fname = file_name_string(f.path.as_str());
        name.append(fname.as_str());
        let row = strings4(
            usize_to_string(i + 1),
            name,
            relative_path(root.as_str(), f.path.as_str()),
            human_size(f.size),
        );
        let ghost r0 = row_views(rows@);
        rows.push(row);
        assert(row_views(rows@) =~= r0.push(views(row@)));
        assert(views(row@) =~= file_rows(root@, fv)[i as int]);
        i = i + 1;
        assert(row_views(rows@) =~= file_rows(root@, fv).subrange(0, i as int));
    }
    assert(file_rows(root@, fv).subrange(0, files@.len() as int) =~= file_rows(root@, fv));
    rows
}

fn dir_rows_exec(root: &String, dirs: &Vec<DirSize>) -> (rows: Vec<Vec<String>>)
    ensures
        row_views(rows@) == dir_rows(root@, dir_size_views(dirs@)),
        forall|r: int| 0 <= r < rows@.len() ==> #[trigger] rows@[r]@.len() == 4,
{
    let ghost dv = dir_size_views(dirs@);
    let mut rows: Vec<Vec<String>> = Vec::new();
    let mut i: usize = 0;
    while i < dirs.len()
        invariant
            i <= dirs@.len(),
            dv == dir_size_views(dirs@),
            row_views(rows@) == dir_rows(root@, dv).subrange(0, i as int),
            forall|r: int| 0 <= r < rows@.len() ==> #[trigger] rows@[r]@.len() == 4,
        decreases dirs@.len() - i,
    {
        let d = &dirs[i];
        let mut name = owned("□ ");
        let fname = file_name_string(d.path.as_str());
        name.append(fname.as_str());
        name.append("/");
        let row = strings4(
            usize_to_string(i + 1),
            name,
            relative_path(root.as_str(), d.path.as_str()),
            human_size(d.size),
        );
        let ghost r0 = row_views(rows@);
        rows.push(row);
        assert(row_views(rows@) =~= r0.push(views(row@)));
        assert(views(row@) =~= dir_rows(root@, dv)[i as int]);
        i = i + 1;
        assert(row_views(rows@) =~= dir_rows(root@, dv).subrange(0, i as int));
    }
    assert(dir_rows(root@, dv).subrange(0, dirs@.len() as int) =~= dir_rows(root@, dv));
    rows
}

fn count_rows_exec(root: &String, dirs: &Vec<DirFileCount>) -> (rows: Vec<Vec<String>>)
    ensures
        row_views(rows@) == count_rows(root@, dir_count_views(dirs@)),
        forall|r: int| 0 <= r < rows@.len() ==> #[trigger] rows@[r]@.len() == 4,
{
    let ghost dv = dir_count_views(dirs@);
    let mut rows: Vec<Vec<String>> = Vec::new();
    let mut i: usize = 0;
    while i < dirs.len()
        invariant
            i <= dirs@.len(),
            dv == dir_count_views(dirs@),
            row_views(rows@) == count_rows(root@, dv).subrange(0, i as int),
            forall|r: int| 0 <= r < rows@.len() ==> #[trigger] rows@[r]@.len() == 4,
        decreases dirs@.len() - i,
    {
        let d = &dirs[i];
        let mut name = owned("□ ");
        let fname = file_name_string(d.path.as_str());
        name.append(fname.as_str());
        name.append("/");
        let row = strings4(
            usize_to_string(i + 1),
            name,
            relative_path(root.as_str(), d.path.as_str()),
            usize_to_string(d.count),
        );
        let ghost r0 = row_views(rows@);
        rows.push(row);
        assert(row_views(rows@) =~= r0.push(views(row@)));
        assert(views(row@) =~= count_rows(root@, dv)[i as int]);
        i = i + 1;
        assert(row_views(rows@) =~= count_rows(root@, dv).subrange(0, i as int));
    }
    assert(count_rows(root@, dv).subrange(0, dirs@.len() as int) =~= count_rows(root@, dv));
    rows
}

fn headers4(a: &str, b: &str, c: &str, d: &str) -> (v: Vec<String>)
    ensures
        views(v@) == seq![a@, b@, c@, d@],
        v@.len() == 4,
{
    strings4(owned(a), owned(b), owned(c), owned(d))
}

/// The last section of the report.
pub fn render_tree_section(data: &ScanData) -> (s: String)
    ensures
        s@ == tree_section(*data),
{
    let mut s = owned("▾ Full Tree\n◆ ");
    s.append(data.root_path.as_str());
    s.append("  ◌ ");
    let h = human_size(data.root_total_size);
    s.append(h.as_str());
    s.append("\n");
    let body = join(&data.tree_lines, "\n");
    s.append(body.as_str());
    s
}

/// The number of largest files shown.
pub open spec fn shown_files(data: ScanData) -> int {
    if TOP_N_FILES < data.largest_files@.len() {
        TOP_N_FILES as int
    } else {
        data.largest_files@.len() as int
    }
}

fn files_section(data: &ScanData) -> (s: String)
    ensures
        s@ == table_section(
            "▾ Top "@ + dec_seq(TOP_N_FILES as nat) + " Largest Files"@,
            seq!["#"@, "File"@, "Relative Path"@, "Size"@],
            file_rows(data.root_path@, file_views(data.largest_files@).take(shown_files(*data))),
        ),
{
    let files = top_files(data);
    let rows = file_rows_exec(&data.root_path, &files);
    let mut t = owned("▾ Top ");
    let n = usize_to_string(TOP_N_FILES);
    t.append(n.as_str());
    t.append(" Largest Files");
    render_table_section(t.as_str(), &headers4("#", "File", "Relative Path", "Size"), &rows)
}

fn dirs_section(data: &ScanData, dirs: &Vec<DirSize>) -> (s: String)
    ensures
        s@ == table_section(
            "▾ Top "@ + dec_seq(TOP_N_DIRS as nat) + " Largest Directories"@,
            seq!["#"@, "Directory"@, "Relative Path"@, "Total Size"@],
            dir_rows(data.root_path@, dir_size_views(dirs@)),
        ),
{
    let rows = dir_rows_exec(&data.root_path, dirs);
    let mut t = owned("▾ Top ");
    let n = usize_to_string(TOP_N_DIRS);
    t.append(n.as_str());
    t.append(" Largest Directories");
    render_table_section(
        t.as_str(),
        &headers4("#", "Directory", "Relative Path", "Total Size"),
        &rows,
    )
}

fn counts_section(data: &ScanData, counts: &Vec<DirFileCount>) -> (s: String)
    ensures
        s@ == table_section(
            "▾ Top "@ + dec_seq(TOP_N_DIRS as nat) + " Directories by File Count"@,
            seq!["#"@, "Directory"@, "Relative Path"@, "Files"@],
            count_rows(data.root_path@, dir_count_views(counts@)),
        ),
{
    let rows = count_rows_exec(&data.root_path, counts);
    let mut t = owned("▾ Top ");
    let n = usize_to_string(TOP_N_DIRS);
    t.append(n.as_str());
    t.append(" Directories by File Count");
    render_table_section(t.as_str(), &headers4("#", "Directory", "Relative Path", "Files"), &rows)
}

fn root_section(data: &ScanData) -> (s: String)
    ensures
        s@ == table_section(
            "▾ Root Contents"@,
            seq!["#"@, "Type"@, "Name"@, "Size"@],
            root_rows(*data),
        ),
{
    let rows = root_rows_exec(data);
    render_table_section("▾ Root Contents", &headers4("#", "Type", "Name", "Size"), &rows)
}

/// The report text for a scan, with the ranked directory lists given.
pub fn render_report_with(
    data: &ScanData,
    ctx: &ReportContext,
    dirs: &Vec<DirSize>,
    counts: &Vec<DirFileCount>,
) -> (s: String)
    ensures
        s@ == report_seq(*data, *ctx, dir_size_views(dirs@), dir_count_views(counts@)),
{
    let s1 = render_kv_section("▾ System Info", &ctx.system_rows);
    let summary = summary_rows_exec(data, ctx);
    let s2 = render_kv_section("▾ Summary", &summary);
    let s3 = root_section(data);
    let s4 = files_section(data);
    let s5 = dirs_section(data, dirs);
    let s6 = counts_section(data, counts);
    let s7 = render_tree_section(data);
    let ghost parts = seq![s1@, s2@, s3@, s4@, s5@, s6@, s7@];
    let mut sections: Vec<String> = Vec::new();
    sections.push(s1);
    sections.push(s2);
    sections.push(s3);
    sections.push(s4);
    sections.push(s5);
    sections.push(s6);
    sections.push(s7);
    assert(views(sections@) =~= parts);
    join(&sections, "\n\n")
}

/// The report text for a scan.
pub fn render_report(data: &ScanData, ctx: &ReportContext) -> (s: String)
    ensures
        exists|td: Seq<(Seq<char>, int)>, tc: Seq<(Seq<char>, int)>|
            {
                &&& top_ranked(
                    drop_path(dir_size_views(data.dir_sizes@), data.root_path@),
                    TOP_N_DIRS as nat,
                    td,
                )
                &&& top_ranked(
                    drop_path(dir_count_views(data.dir_file_counts@), data.root_path@),
                    TOP_N_DIRS as nat,
                    tc,
                )
                &&& s@ == report_seq(*data, *ctx, td, tc)
            },
{
    let dirs = top_dirs(data);
    let counts = top_dirs_by_files(data);
    render_report_with(data, ctx, &dirs, &counts)
}

} // verus!
