use dir_scanner::console::Config;
use dir_scanner::scan::should_skip;
use dir_scanner::web::{picked_folder, scan_options_from_query, scan_root, scan_root_choice, ui_config, ScanQuery};

#[test]
fn query_options() {
    let q = ScanQuery { root: None, ignore_dirs: Some("target, builds".to_string()), ignore_files: Some("Thumbs.db,\n .DS_Store".to_string()) };
    let o = scan_options_from_query(&q);
    assert!(should_skip("target", true, &o));
    assert!(should_skip("builds", true, &o));
    assert!(should_skip(".git", true, &o));
    assert!(should_skip("Thumbs.db", false, &o));
    assert!(!should_skip("Thumbs.db", true, &o));
    assert_eq!(o.ignore_dir_names.len(), 6);
    assert_eq!(o.ignore_file_names.len(), 2);
    let empty = ScanQuery { root: Some("/x".to_string()), ignore_dirs: None, ignore_files: None };
    let o = scan_options_from_query(&empty);
    assert_eq!(o.ignore_dir_names.len(), 4);
    assert_eq!(scan_root(&empty), "/x");
    let q = ScanQuery { root: None, ignore_dirs: None, ignore_files: None };
    assert_eq!(scan_root(&q), ".");
}

#[test]
fn folder_picker_and_roots() {
    assert_eq!(picked_folder(Some("/Users/ann/Projects/\n")), Some("/Users/ann/Projects/".to_string()));
    assert_eq!(picked_folder(Some("  \n")), None);
    assert_eq!(picked_folder(None), None);
    assert_eq!(scan_root_choice(Some("/a".to_string()), Some("/b".to_string())), "/a");
    assert_eq!(scan_root_choice(None, Some("/b".to_string())), "/b");
    assert_eq!(scan_root_choice(None, None), ".");
    let u = ui_config(&Config::default());
    assert_eq!(u.ignore_dirs, "target, builds");
    assert_eq!(u.ignore_files, "Thumbs.db, .DS_Store");
}
