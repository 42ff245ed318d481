use dir_scanner::console::{
    banner, banner_layout, hotkey_action, log_request, server_banner_rows, server_log_request,
    server_url, static_dir, url, web_banner_rows, Config, HotKey, HotkeyAction, ServerConfig,
};
use dir_scanner::http::StatusColor;

#[test]
fn default_settings() {
    let c = Config::default();
    assert_eq!(c.port, 8011);
    assert_eq!(c.host, "127.0.0.1");
    assert!(!c.open_on_start);
    assert!(c.log_requests);
    assert_eq!(c.ignore_dirs, "target, builds");
    assert_eq!(c.ignore_files, "Thumbs.db, .DS_Store");
    let s = ServerConfig::default();
    assert_eq!(s.port, 8008);
    assert_eq!(s.host, "127.0.0.1");
    assert!(!s.open_on_start);
    assert!(s.log_requests);
}

#[test]
fn addresses() {
    assert_eq!(url(&Config::default()), "http://127.0.0.1:8011");
    assert_eq!(server_url(8008), "http://localhost:8008");
    assert_eq!(static_dir("/x/dir-scanner-web"), "/x/dir-scanner-web/static");
    assert_eq!(static_dir("/x/dir-scanner-web/"), "/x/dir-scanner-web/static");
}

#[test]
fn request_log_colours() {
    let l = log_request("GET", "/api/scan", 200);
    assert_eq!(l.color, StatusColor::Green);
    assert_eq!(l.status, "200");
    assert_eq!(l.method, "GET   ");
    assert_eq!(l.path, "/api/scan");
    assert_eq!(log_request("POST", "/", 404).color, StatusColor::Yellow);
    assert_eq!(log_request("POST", "/", 400).color, StatusColor::Yellow);
    assert_eq!(log_request("POST", "/", 499).color, StatusColor::Yellow);
    assert_eq!(log_request("POST", "/", 500).color, StatusColor::Red);
    assert_eq!(log_request("POST", "/", 304).color, StatusColor::Red);
    assert_eq!(server_log_request("GET", "/", 403).color, StatusColor::Red);
    assert_eq!(server_log_request("GET", "/", 404).color, StatusColor::Yellow);
    assert_eq!(server_log_request("GET", "/", 200).color, StatusColor::Green);
    assert_eq!(server_log_request("OPTIONS", "/", 200).method, "OPTIONS");
}

#[test]
fn hotkeys() {
    assert!(matches!(hotkey_action(HotKey::Char('o'), false), HotkeyAction::OpenBrowser));
    assert!(matches!(hotkey_action(HotKey::Char('O'), false), HotkeyAction::OpenBrowser));
    assert!(matches!(hotkey_action(HotKey::Char('o'), true), HotkeyAction::Nothing));
    assert!(matches!(hotkey_action(HotKey::Char('c'), true), HotkeyAction::Quit));
    assert!(matches!(hotkey_action(HotKey::Char('d'), true), HotkeyAction::Quit));
    assert!(matches!(hotkey_action(HotKey::Char('c'), false), HotkeyAction::Nothing));
    assert!(matches!(hotkey_action(HotKey::Char('q'), false), HotkeyAction::Quit));
    assert!(matches!(hotkey_action(HotKey::Char('q'), true), HotkeyAction::Quit));
    assert!(matches!(hotkey_action(HotKey::Other, true), HotkeyAction::Nothing));
}

#[test]
fn banner_measures_wide_characters() {
    let rows = vec![Some("日本".to_string()), None, Some("ab".to_string())];
    let l = banner(&rows).unwrap();
    assert_eq!(l.content_width, 4);
    assert_eq!(l.top, "╭────────╮");
    assert_eq!(l.separator, "├────────┤");
    assert_eq!(l.bottom, "╰────────╯");
    assert_eq!(l.pads, vec![2, 0, 4]);
}

#[test]
fn banner_layout_of_widths() {
    let l = banner_layout(&vec![Some(3), None, Some(7), Some(0)]);
    assert_eq!(l.content_width, 7);
    assert_eq!(l.pads, vec![6, 0, 2, 9]);
    assert_eq!(l.top.chars().count(), 13);
    let empty = banner_layout(&vec![]);
    assert_eq!(empty.top, "╭────╮");
    assert!(empty.pads.is_empty());
}

#[test]
fn banner_rows() {
    let rows = web_banner_rows("/app/static", "http://127.0.0.1:8011");
    assert_eq!(rows[0].as_deref(), Some("📂 dir-scanner-web  ready"));
    assert!(rows[1].is_none());
    assert_eq!(rows[2].as_deref(), Some("Static  /app/static"));
    assert_eq!(rows[3].as_deref(), Some("Local   http://127.0.0.1:8011"));
    let rows = server_banner_rows("/repo", "http://localhost:8008");
    assert_eq!(rows[0].as_deref(), Some("🦀 repo-server  ready"));
    assert_eq!(rows[2].as_deref(), Some("Serving /repo"));
    assert_eq!(rows[4].as_deref(), Some("Keys    o open browser  q quit  Ctrl+C / Ctrl+D quit"));
    let l = banner(&rows).unwrap();
    assert_eq!(l.content_width, 52);
}
