use dir_scanner::repo::{
    build_snapshot, config_from_file, git_text, history_arg, is_ignored, matches_ignore_pattern,
    parse_config, parse_history, scan_repo, tree_totals, yaml_quote, NodeKind, RepoConfig,
    RepoNode, SnapshotFacts,
};

fn file(name: &str, len: u64) -> RepoNode {
    RepoNode { name: name.to_string(), kind: NodeKind::File, len, children: Vec::new() }
}

fn dir(name: &str, children: Vec<RepoNode>) -> RepoNode {
    RepoNode { name: name.to_string(), kind: NodeKind::Dir, len: 0, children }
}

fn other(name: &str, len: u64) -> RepoNode {
    RepoNode { name: name.to_string(), kind: NodeKind::Other, len, children: Vec::new() }
}

fn sample_tree() -> Vec<RepoNode> {
    vec![
        dir("src", vec![file("main.rs", 100), dir("target", vec![file("big.bin", 5000)])]),
        dir(".git", vec![file("HEAD", 20), dir("objects", vec![file("a", 30)])]),
        file("README.md", 10),
        other("link", 7),
        file("notes.txt", 300),
    ]
}

const CONFIG_TEXT: &str = "# snapshot settings\nignore_folders:\n  - .git\n  - \"src/target\"\nignore_files:\n  - notes.txt   # comment\nhistory_limit: 5\nhistory_expanded: yes\n";

#[test]
fn parse_config_reads_lists_and_scalars() {
    let cfg = parse_config(CONFIG_TEXT);
    assert_eq!(cfg.ignore_folders, vec![".git", "src/target"]);
    assert_eq!(cfg.ignore_files, vec!["notes.txt"]);
    assert_eq!(cfg.history_limit, 5);
    assert!(cfg.history_expanded);
}

#[test]
fn parse_config_defaults_and_odd_lines() {
    let cfg = parse_config("");
    assert_eq!(cfg.ignore_folders, vec![".git"]);
    assert!(cfg.ignore_files.is_empty());
    assert_eq!(cfg.history_limit, 20);
    assert!(!cfg.history_expanded);

    let cfg = parse_config("- stray\nhistory_limit: lots\nhistory_expanded: no\nignore_files:\n\n- a\nother: 1\n- b\n");
    assert_eq!(cfg.ignore_folders, vec![".git"]);
    assert_eq!(cfg.ignore_files, vec!["a"]);
    assert_eq!(cfg.history_limit, 20);
    assert!(!cfg.history_expanded);

    let missing = config_from_file(None);
    assert_eq!(missing.ignore_folders, vec![".git"]);
    let given = config_from_file(Some("ignore_folders:\n"));
    assert!(given.ignore_folders.is_empty());
}

#[test]
fn ignore_patterns_match_names_and_paths() {
    let pats = vec!["/a/b/".to_string(), "node_modules".to_string()];
    assert!(matches_ignore_pattern("a/b", "b", &pats));
    assert!(!matches_ignore_pattern("x/b", "b", &pats));
    assert!(matches_ignore_pattern("x/y/node_modules", "node_modules", &pats));
    let rooted = vec!["/target".to_string()];
    assert!(matches_ignore_pattern("target", "target", &rooted));
    assert!(!matches_ignore_pattern("a/target", "target", &rooted));
    assert!(matches_ignore_pattern("a/b/target", "target", &vec!["target".to_string()]));
    assert!(matches_ignore_pattern("target", "target", &vec!["target/".to_string()]));
    assert!(!matches_ignore_pattern("a/target", "target", &vec!["target/".to_string()]));
    assert!(!matches_ignore_pattern("a", "a", &pats));
    let folders = vec![".git".to_string()];
    let files = vec!["notes.txt".to_string()];
    assert!(is_ignored(".git", ".git", true, &folders, &files));
    assert!(!is_ignored(".git", ".git", false, &folders, &files));
    assert!(is_ignored("notes.txt", "notes.txt", false, &folders, &files));
    assert!(!is_ignored("notes.txt", "notes.txt", true, &folders, &files));
}

#[test]
fn scan_repo_totals_and_left_out_entries() {
    let tree = sample_tree();
    let cfg = parse_config(CONFIG_TEXT);
    let scan = scan_repo(&tree, &cfg);
    let entries: Vec<(String, bool, u64, u64)> =
        scan.entries.iter().map(|e| (e.name.clone(), e.is_dir, e.bytes, e.files)).collect();
    assert_eq!(entries, vec![("src".to_string(), true, 100, 1), ("README.md".to_string(), false, 10, 1)]);
    let ignored: Vec<(String, bool, u64, u64)> =
        scan.ignored.iter().map(|e| (e.name.clone(), e.is_dir, e.bytes, e.files)).collect();
    assert_eq!(
        ignored,
        vec![
            ("src/target".to_string(), true, 5000, 1),
            ("notes.txt".to_string(), false, 300, 1),
            (".git".to_string(), true, 50, 2),
        ]
    );
    assert_eq!(scan.total_bytes, 110);
    assert_eq!(scan.total_files, 2);
}

#[test]
fn every_file_is_counted_once() {
    let tree = vec![dir("a", vec![file("x", 3), dir("skip", vec![file("y", 4), file("z", 5)])]), file("w", 6)];
    let cfg = parse_config("ignore_folders:\n  - skip\n");
    let scan = scan_repo(&tree, &cfg);
    let left_out: u64 = scan.ignored.iter().map(|e| e.bytes).sum();
    let left_out_files: u64 = scan.ignored.iter().map(|e| e.files).sum();
    assert_eq!(scan.total_bytes + left_out, 3 + 4 + 5 + 6);
    assert_eq!(scan.total_files + left_out_files, 4);
}

#[test]
fn tree_totals_counts_every_non_directory() {
    assert_eq!(tree_totals(&sample_tree()), Some((5467, 7)));
    let huge = vec![file("a", u64::MAX), file("b", 1)];
    assert_eq!(tree_totals(&huge), None);
}

#[test]
fn yaml_quote_escapes() {
    assert_eq!(yaml_quote("plain"), "\"plain\"");
    assert_eq!(yaml_quote("a\"b\\c\nd\re"), "\"a\\\"b\\\\c\\nde\"");
    assert_eq!(yaml_quote(""), "\"\"");
}

#[test]
fn history_records_are_parsed() {
    let log = "a1\u{1f}2024-01-02\u{1f}Ann\u{1f}First\u{1f}body line\n\u{1e}\nb2\u{1f}2024-01-03\u{1f}Bob\u{1f}Second\u{1f}\u{1e}";
    let commits = parse_history(log);
    assert_eq!(commits.len(), 2);
    assert_eq!(commits[0].hash, "a1");
    assert_eq!(commits[0].date, "2024-01-02");
    assert_eq!(commits[0].author, "Ann");
    assert_eq!(commits[0].subject, "First");
    assert_eq!(commits[0].body, "body line");
    assert_eq!(commits[1].hash, "b2");
    assert_eq!(commits[1].body, "");
    assert!(parse_history("").is_empty());
    let short = parse_history(" h \u{1f}d");
    assert_eq!(short.len(), 1);
    assert_eq!(short[0].hash, "h");
    assert_eq!(short[0].date, "d");
    assert_eq!(short[0].author, "");
}

#[test]
fn history_arg_and_git_text() {
    assert_eq!(history_arg(0), "-1");
    assert_eq!(history_arg(1), "-1");
    assert_eq!(history_arg(20), "-20");
    assert_eq!(git_text(Some("  main\n")), "main");
    assert_eq!(git_text(None), "");
}

#[test]
fn snapshot_yaml_text() {
    let tree = sample_tree();
    let cfg: RepoConfig = parse_config(CONFIG_TEXT);
    let facts = SnapshotFacts {
        generated_unix: 1700000000,
        repo_path: "/repo".to_string(),
        git_remote: "git@x:y.git".to_string(),
        git_branch: "main".to_string(),
        git_commit: "abc123 Fix \"quotes\"".to_string(),
        git_log: "a1\u{1f}2024-01-02\u{1f}Ann\u{1f}First\u{1f}body line\n\u{1e}\nb2\u{1f}2024-01-03\u{1f}Bob\u{1f}Second\u{1f}\u{1e}".to_string(),
    };
    let y = build_snapshot(&tree, &cfg, &facts);
    let expected = "# generated by repo-server on startup — do not edit (configure via Admin/repo-info/config.yaml)
generated_unix: 1700000000
repo_path: \"/repo\"
git_remote: \"git@x:y.git\"
git_branch: \"main\"
git_commit: \"abc123 Fix \\\"quotes\\\"\"
ignore_folders: [\".git\", \"src/target\"]
ignore_files: [\"notes.txt\"]
total_bytes: 110
total_files: 2
history_expanded: true
entries:
  - name: \"src\"
    is_dir: true
    bytes: 100
    files: 1
  - name: \"README.md\"
    is_dir: false
    bytes: 10
    files: 1
ignored:
  - name: \"src/target\"
    is_dir: true
    bytes: 5000
    files: 1
  - name: \"notes.txt\"
    is_dir: false
    bytes: 300
    files: 1
  - name: \".git\"
    is_dir: true
    bytes: 50
    files: 2
history:
  - hash: \"a1\"
    date: \"2024-01-02\"
    author: \"Ann\"
    subject: \"First\"
    body: \"body line\"
  - hash: \"b2\"
    date: \"2024-01-03\"
    author: \"Bob\"
    subject: \"Second\"
    body: \"\"
";
    assert_eq!(y, expected);
}

#[test]
fn equal_sizes_keep_their_order() {
    let tree = vec![file("b", 5), file("a", 5), file("c", 9)];
    let scan = scan_repo(&tree, &config_from_file(None));
    let names: Vec<&str> = scan.entries.iter().map(|e| e.name.as_str()).collect();
    assert_eq!(names, vec!["c", "b", "a"]);
}
