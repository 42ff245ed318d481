use dir_scanner::payload::ScanResponse;
use dir_scanner::report::{render_kv_section, render_report, render_table_section, yes_no, ReportContext};
use dir_scanner::scan::{
    list_dir_entries, parse_ignore_list, relative_path, scan_checked, scan_tree, should_skip, DirListing,
    EntryInfo, FsSnapshot, RawEntry, ScanEntry, ScanOptions,
};

fn leaf() -> DirListing {
    DirListing { node: 0, real: 0, entries: Vec::new() }
}

fn file(path: &str, name: &str, size: u64) -> ScanEntry {
    ScanEntry { info: EntryInfo { path: path.to_string(), name: name.to_string(), is_dir: false, size }, dir: leaf() }
}

fn snapshot() -> FsSnapshot {
    let src = DirListing {
        node: 1,
        real: 1,
        entries: vec![file("/r/src/a.rs", "a.rs", 5), file("/r/src/big", "big", 2000)],
    };
    let root = DirListing {
        node: 0,
        real: 0,
        entries: vec![
            ScanEntry {
                info: EntryInfo { path: "/r/src".to_string(), name: "src".to_string(), is_dir: true, size: 0 },
                dir: src,
            },
            file("/r/A.md", "A.md", 3),
            file("/r/b.txt", "b.txt", 10),
        ],
    };
    FsSnapshot { root, node_count: 2, real_count: 2 }
}

#[test]
fn ignore_lists_and_options() {
    assert_eq!(parse_ignore_list(" target, builds ,\n,dist\n"), vec!["target", "builds", "dist"]);
    assert!(parse_ignore_list(" , \n").is_empty());
    let o = ScanOptions::with_extra_ignores(&[" target ".to_string(), "".to_string()], &["x.log".to_string()]);
    assert!(should_skip("target", true, &o));
    assert!(!should_skip("target", false, &o));
    assert!(should_skip(".git", true, &o));
    assert!(should_skip("node_modules", true, &o));
    assert!(should_skip(".DS_Store", false, &o));
    assert!(should_skip("x.log", false, &o));
    assert!(!should_skip(" target ", true, &o));
    let d = ScanOptions::with_defaults();
    assert!(should_skip("__pycache__", true, &d));
    assert!(!should_skip("target", true, &d));
}

#[test]
fn relative_paths() {
    assert_eq!(relative_path("/r", "/r/src/big"), "src/big");
    assert_eq!(relative_path("/r", "/r"), ".");
    assert_eq!(relative_path("/r", "/other/x"), ".");
    assert_eq!(relative_path("/r/", "/r/a"), "a");
}

#[test]
fn listing_order_and_filtering() {
    let raw = vec![
        RawEntry { path: "/r/b.txt".to_string(), name: "b.txt".to_string(), is_dir: false, is_file: true, len: 10 },
        RawEntry { path: "/r/.git".to_string(), name: ".git".to_string(), is_dir: true, is_file: false, len: 0 },
        RawEntry { path: "/r/Zed".to_string(), name: "Zed".to_string(), is_dir: true, is_file: false, len: 64 },
        RawEntry { path: "/r/A.md".to_string(), name: "A.md".to_string(), is_dir: false, is_file: true, len: 3 },
        RawEntry { path: "/r/link".to_string(), name: "link".to_string(), is_dir: false, is_file: false, len: 9 },
        RawEntry { path: "/r/apps".to_string(), name: "apps".to_string(), is_dir: true, is_file: false, len: 64 },
    ];
    let out = list_dir_entries(&raw, &ScanOptions::with_defaults());
    let names: Vec<&str> = out.iter().map(|e| e.name.as_str()).collect();
    assert_eq!(names, vec!["apps", "Zed", "A.md", "b.txt", "link"]);
    assert_eq!(out[0].size, 0);
    assert_eq!(out[4].size, 0);
    assert_eq!(out[3].size, 10);
}

#[test]
fn scan_of_a_small_tree() {
    let data = scan_tree("/r", &snapshot());
    assert_eq!(data.root_path, "/r");
    assert_eq!(data.root_total_size, 2018);
    assert_eq!(data.dir_count, 1);
    assert_eq!(data.file_count, 4);
    assert_eq!(data.scanned_file_bytes, 2018);
    assert_eq!(data.max_depth_reached, 1);
    assert_eq!(
        data.tree_lines,
        vec![
            "├── □ src/  ◌ 2.0 KB",
            "│   ├── ▪ a.rs  ◌ 5 B",
            "│   └── ▪ big  ◌ 2.0 KB",
            "├── ▪ A.md  ◌ 3 B",
            "└── ▪ b.txt  ◌ 10 B",
        ]
    );
    let files: Vec<(&str, u64)> = data.largest_files.iter().map(|f| (f.path.as_str(), f.size)).collect();
    assert_eq!(files, vec![("/r/src/big", 2000), ("/r/b.txt", 10), ("/r/src/a.rs", 5), ("/r/A.md", 3)]);
    let sizes: Vec<(&str, u64)> = data.dir_sizes.iter().map(|d| (d.path.as_str(), d.size)).collect();
    assert_eq!(sizes, vec![("/r/src", 2005), ("/r", 2018)]);
    let counts: Vec<(&str, usize)> = data.dir_file_counts.iter().map(|d| (d.path.as_str(), d.count)).collect();
    assert_eq!(counts, vec![("/r/src", 2), ("/r", 4)]);
}

#[test]
fn a_directory_reached_twice_is_counted_once() {
    let mut snap = snapshot();
    let again = DirListing { node: 2, real: 1, entries: vec![file("/r/alias/big", "big", 2000)] };
    snap.root.entries.push(ScanEntry {
        info: EntryInfo { path: "/r/alias".to_string(), name: "alias".to_string(), is_dir: true, size: 0 },
        dir: again,
    });
    snap.node_count = 3;
    let data = scan_tree("/r", &snap);
    assert_eq!(data.root_total_size, 2018);
    assert_eq!(data.dir_count, 1);
    assert_eq!(data.tree_lines.len(), 5);
}

fn ctx() -> ReportContext {
    ReportContext {
        system_rows: vec![("User".to_string(), "ann".to_string())],
        output_dir: "/h/Developer/macos-reset".to_string(),
        output_file: Some("/h/Developer/macos-reset/tree_output-26.6.10_2.05pm.txt".to_string()),
        generated: "Wed, 10 Jun 2026 14:05:00 +0200".to_string(),
    }
}

#[test]
fn report_sections() {
    assert_eq!(
        render_kv_section("▾ Summary", &vec![("Root".to_string(), "/r".to_string()), ("Files".to_string(), "4".to_string())]),
        "▾ Summary\nRoot                   /r\nFiles                  4"
    );
    let headers = vec!["#".to_string(), "Name".to_string()];
    let rows = vec![vec!["1".to_string(), "alpha".to_string()], vec!["22".to_string(), "b".to_string()]];
    assert_eq!(render_table_section("T", &headers, &rows), "T\n#   Name \n1   alpha\n22  b    ");
    assert_eq!(yes_no(true), "Yes");
    assert_eq!(yes_no(false), "No");
}

#[test]
fn whole_report() {
    let data = scan_tree("/r", &snapshot());
    let text = render_report(&data, &ctx());
    assert!(text.starts_with("▾ System Info\nUser                   ann\n\n▾ Summary\nRoot                   /r\n"));
    assert!(text.contains("\nOutput File            /h/Developer/macos-reset/tree_output-26.6.10_2.05pm.txt\n"));
    assert!(text.contains("\nDepth                  50 (max)\n"));
    assert!(text.ends_with(
        "▾ Full Tree\n◆ /r  ◌ 2.0 KB\n├── □ src/  ◌ 2.0 KB\n│   ├── ▪ a.rs  ◌ 5 B\n│   └── ▪ big  ◌ 2.0 KB\n├── ▪ A.md  ◌ 3 B\n└── ▪ b.txt  ◌ 10 B"
    ));
    assert!(text.contains("▾ Top 50 Largest Directories\n#  Directory  Relative Path  Total Size\n1  □ src/     src            2.0 KB    "));
}

#[test]
fn scan_response() {
    let data = scan_tree("/r", &snapshot());
    let r = ScanResponse::from_scan(&data, &ctx());
    assert_eq!(r.root_path, "/r");
    assert_eq!(r.summary.depth, "50 (max)");
    assert_eq!(r.summary.root_total_size_human, "2.0 KB");
    assert_eq!(r.summary.root_item_count, 3);
    assert_eq!(r.root_entries[0].kind, "dir");
    assert_eq!(r.root_entries[0].name, "src/");
    assert_eq!(r.root_entries[0].size_bytes, 2005);
    assert_eq!(r.root_entries[2].name, "b.txt");
    assert_eq!(r.top_files[0].name, "big");
    assert_eq!(r.top_files[0].path, "src/big");
    assert_eq!(r.top_dirs.len(), 1);
    assert_eq!(r.top_dirs[0].name, "src/");
    assert_eq!(r.top_dirs_by_files[0].file_count, 2);
    assert!(r.ignored.is_empty());
    assert_eq!(r.tree_lines.len(), 5);
    assert_eq!(r.report_text, render_report(&data, &ctx()));
}

#[test]
fn checked_scan_refuses_bad_snapshots() {
    let ok = scan_checked("/r", &snapshot()).unwrap();
    assert_eq!(ok.root_total_size, 2018);
    assert_eq!(ok.tree_lines, scan_tree("/r", &snapshot()).tree_lines);
    let mut bad = snapshot();
    bad.node_count = 1;
    assert!(scan_checked("/r", &bad).is_none());
    let mut huge = snapshot();
    huge.root.entries.push(file("/r/x", "x", u64::MAX));
    assert!(scan_checked("/r", &huge).is_none());
}
