use dir_scanner::scan::{DirFileCount, DirSize, EntryInfo, FileSize, ScanData};
use dir_scanner::tui::{
    files_tab, root_tab, slice_rows, spinner_frame, summary_lines, tab_labels, top_counts_tab,
    top_dirs_tab, tree_heading, App, AppMode, Key, KeyOutcome, Tab,
};

fn data() -> ScanData {
    ScanData {
        root_path: "/r".to_string(),
        root_total_size: 3072,
        root_entries: vec![
            EntryInfo { path: "/r/src".to_string(), name: "src".to_string(), is_dir: true, size: 0 },
            EntryInfo { path: "/r/a.txt".to_string(), name: "a.txt".to_string(), is_dir: false, size: 10 },
        ],
        tree_lines: vec!["└── □ src/  ◌ 2.0 KB".to_string()],
        file_count: 3,
        dir_count: 1,
        scanned_file_bytes: 3072,
        max_depth_reached: 1,
        largest_files: vec![
            FileSize { path: "/r/src/big".to_string(), size: 2000 },
            FileSize { path: "/r/a.txt".to_string(), size: 10 },
        ],
        dir_sizes: vec![
            DirSize { path: "/r/src".to_string(), size: 2048 },
            DirSize { path: "/r".to_string(), size: 3072 },
        ],
        dir_file_counts: vec![
            DirFileCount { path: "/r/src".to_string(), count: 2 },
            DirFileCount { path: "/r".to_string(), count: 3 },
        ],
        ignored_entries: Vec::new(),
    }
}

#[test]
fn tabs_cycle_both_ways() {
    let all = Tab::all();
    assert_eq!(all.len(), 7);
    for t in all.iter().copied() {
        assert!(t.next().prev() == t);
        assert!(t.prev().next() == t);
        let mut u = t;
        for _ in 0..7 {
            u = u.next();
        }
        assert!(u == t);
    }
    assert!(Tab::Tree.next() == Tab::Summary);
    assert!(Tab::Summary.prev() == Tab::Tree);
    assert_eq!(Tab::TopDirsByFiles.title(), "Top by Files");
    assert_eq!(Tab::TopFiles.title(), "Top Files");
}

#[test]
fn app_state_changes() {
    let mut app = App::new_scanning();
    assert!(matches!(app.mode, AppMode::Scanning { tick: 0 }));
    assert_eq!(app.status, "Scanning…");
    for _ in 0..256 {
        app.tick();
    }
    assert!(matches!(app.mode, AppMode::Scanning { tick: 0 }));
    app.tick();
    assert!(matches!(app.mode, AppMode::Scanning { tick: 1 }));
    app.save(Ok("/x".to_string()));
    assert!(matches!(app.mode, AppMode::Scanning { tick: 1 }));
    app.set_data(data());
    assert!(matches!(app.mode, AppMode::Ready));
    assert_eq!(app.status, "q quit  Tab next  Shift+Tab prev  s save  ↑↓ scroll");
    app.tick();
    assert!(matches!(app.mode, AppMode::Ready));
    app.scroll_down(3);
    app.scroll_up(1);
    assert_eq!(app.scroll, 2);
    app.scroll_up(10);
    assert_eq!(app.scroll, 0);
    app.scroll_down(u16::MAX);
    app.scroll_down(5);
    assert_eq!(app.scroll, u16::MAX);
    app.next_tab();
    assert!(app.tab == Tab::System);
    assert_eq!(app.scroll, 0);
    app.prev_tab();
    app.prev_tab();
    assert!(app.tab == Tab::Tree);
    app.save(Ok("/h/out.txt".to_string()));
    assert!(matches!(&app.mode, AppMode::Saved(p) if p == "/h/out.txt"));
    assert_eq!(app.status, "Saved /h/out.txt — q quit  Tab browse");
    assert_eq!(app.status_line(), "Saved /h/out.txt");
    app.save(Err("disk full".to_string()));
    assert!(matches!(&app.mode, AppMode::Error(e) if e == "disk full"));
    assert_eq!(app.status, "q quit");
    app.set_error("gone".to_string());
    assert!(matches!(&app.mode, AppMode::Error(e) if e == "gone"));
    assert_eq!(app.status_line(), "q quit");
}

#[test]
fn keys() {
    let mut app = App::new_scanning();
    assert!(matches!(app.on_key(Key::Char('s')), KeyOutcome::Continue));
    app.set_data(data());
    assert!(matches!(app.on_key(Key::Char('S')), KeyOutcome::Save));
    assert!(matches!(app.on_key(Key::Char('q')), KeyOutcome::Quit));
    assert!(matches!(app.on_key(Key::Esc), KeyOutcome::Quit));
    assert!(matches!(app.on_key(Key::Char('4')), KeyOutcome::Continue));
    assert!(app.tab == Tab::TopFiles);
    app.on_key(Key::Char('j'));
    app.on_key(Key::PageDown);
    assert_eq!(app.scroll, 11);
    app.on_key(Key::Up);
    assert_eq!(app.scroll, 10);
    app.on_key(Key::PageUp);
    assert_eq!(app.scroll, 0);
    app.on_key(Key::Down);
    app.on_key(Key::Tab);
    assert!(app.tab == Tab::TopDirs);
    assert_eq!(app.scroll, 0);
    app.on_key(Key::BackTab);
    assert!(app.tab == Tab::TopFiles);
    app.on_key(Key::Char('7'));
    assert!(app.tab == Tab::Tree);
    app.on_key(Key::Char('8'));
    assert!(app.tab == Tab::Tree);
    app.on_key(Key::Char('k'));
    assert_eq!(app.scroll, 0);
}

#[test]
fn tab_rows() {
    let d = data();
    let lines = summary_lines(&d);
    assert_eq!(lines[0], ("root ".to_string(), "/r".to_string()));
    assert_eq!(lines[1], ("total ".to_string(), "3.0 KB".to_string()));
    assert_eq!(lines[2], (String::new(), String::new()));
    assert_eq!(lines[3], ("depth      ".to_string(), "50 (max)".to_string()));
    assert_eq!(lines[7], ("root items ".to_string(), "2".to_string()));
    assert_eq!(
        root_tab(&d),
        vec![vec!["1", "dir", "src/", "2.0 KB"], vec!["2", "file", "a.txt", "10 B"]]
    );
    assert_eq!(
        files_tab(&d),
        vec![vec!["1", "big", "src/big", "2.0 KB"], vec!["2", "a.txt", "a.txt", "10 B"]]
    );
    assert_eq!(top_dirs_tab(&d), vec![vec!["1", "src/", "src", "2.0 KB"]]);
    assert_eq!(top_counts_tab(&d), vec![vec!["1", "src/", "src", "2"]]);
    assert_eq!(tree_heading(&d), ("/r".to_string(), "3.0 KB".to_string()));
}

#[test]
fn tab_bar_and_spinner() {
    let labels = tab_labels(Tab::Root);
    assert_eq!(labels[2], "▸ Root");
    assert_eq!(labels[0], "  Summary");
    assert_eq!(labels.len(), 7);
    assert_eq!(spinner_frame(0), "⠋");
    assert_eq!(spinner_frame(12), "⠹");
    assert_eq!(spinner_frame(255), "⠴");
}

#[test]
fn slicing_rows() {
    assert_eq!(slice_rows(vec![1, 2, 3], 1), vec![2, 3]);
    assert_eq!(slice_rows(vec![1, 2, 3], 0), vec![1, 2, 3]);
    assert_eq!(slice_rows(vec![1, 2, 3], 5), Vec::<i32>::new());
}
