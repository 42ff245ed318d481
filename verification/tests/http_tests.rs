use dir_scanner::http::{
    asks_close, choose_response, conn_step, target_file, index_file, is_header_end, mime, parse_request_line, request_line_text,
    response_bytes, route, server_status_color, ConnAction, ConnEvent, ConnState,
    ConnectionCounter, Diagnostics, Route, StatusColor,
};

#[test]
fn request_lines() {
    assert_eq!(parse_request_line("GET /docs/a.html?x=1 HTTP/1.1\r\n"), ("GET".to_string(), "/docs/a.html".to_string()));
    assert_eq!(parse_request_line("HEAD /#top HTTP/1.1"), ("HEAD".to_string(), "/".to_string()));
    assert_eq!(parse_request_line("\r\n"), ("GET".to_string(), "/".to_string()));
    assert_eq!(parse_request_line("POST"), ("POST".to_string(), "/".to_string()));
    assert_eq!(request_line_text("GET / HTTP/1.1\r\n"), "GET / HTTP/1.1");
}

#[test]
fn headers() {
    assert!(is_header_end("\r\n"));
    assert!(is_header_end("\n"));
    assert!(!is_header_end(" \r\n"));
    assert!(asks_close("Connection: close\r\n"));
    assert!(asks_close("CONNECTION: Keep-Alive, Close\r\n"));
    assert!(!asks_close("Connection: keep-alive\r\n"));
    assert!(!asks_close("X-Connection: close\r\n"));
}

fn step(s: ConnState, line: &str) -> (ConnState, ConnAction) {
    conn_step(s, ConnEvent::Line(line.to_string()))
}

#[test]
fn keep_alive_connection() {
    let (s, a) = step(ConnState::AwaitingRequest, "GET /a.css HTTP/1.1\r\n");
    assert!(matches!(a, ConnAction::ReadLine));
    let (s, a) = step(s, "Host: x\r\n");
    assert!(matches!(a, ConnAction::ReadLine));
    let (s, a) = step(s, "\r\n");
    match a {
        ConnAction::Serve { method, path, keep_alive } => {
            assert_eq!(method, "GET");
            assert_eq!(path, "/a.css");
            assert!(keep_alive);
        }
        _ => panic!("expected a response"),
    }
    assert!(matches!(s, ConnState::AwaitingRequest));
    let (s, _) = step(s, "GET / HTTP/1.1\r\n");
    let (s, _) = step(s, "Connection: close\r\n");
    let (s, a) = step(s, "\n");
    assert!(matches!(a, ConnAction::Serve { keep_alive: false, .. }));
    assert!(matches!(s, ConnState::Closing));
    let (s, a) = conn_step(s, ConnEvent::Sent);
    assert!(matches!(a, ConnAction::Stop));
    let (_, a) = conn_step(s, ConnEvent::Closed);
    assert!(matches!(a, ConnAction::Stop));
    let (_, a) = conn_step(ConnState::AwaitingRequest, ConnEvent::Sent);
    assert!(matches!(a, ConnAction::ReadLine));
    let (_, a) = conn_step(ConnState::AwaitingRequest, ConnEvent::Failed);
    assert!(matches!(a, ConnAction::Stop));
}

#[test]
fn routes() {
    assert!(matches!(route("/srv", "/../etc/passwd"), Route::Forbidden));
    assert!(matches!(route("/srv", "/a/../../x"), Route::Forbidden));
    match route("/srv", "/docs/index.html") {
        Route::File(f) => assert_eq!(f, "/srv/docs/index.html"),
        Route::Forbidden => panic!("forbidden"),
    }
    match route("/srv", "/") {
        Route::File(f) => assert_eq!(f, "/srv/"),
        Route::Forbidden => panic!("forbidden"),
    }
    match route("/srv", "//a..b") {
        Route::File(f) => assert_eq!(f, "/srv/a..b"),
        Route::Forbidden => panic!("forbidden"),
    }
    assert_eq!(index_file("/srv/docs"), "/srv/docs/index.html");
}

#[test]
fn content_types() {
    assert_eq!(mime("/x/a.html"), "text/html; charset=utf-8");
    assert_eq!(mime("/x/a.HTM"), "application/octet-stream");
    assert_eq!(mime("/x/style.css"), "text/css");
    assert_eq!(mime("/x/app.js"), "application/javascript");
    assert_eq!(mime("/x/readme.md"), "text/plain; charset=utf-8");
    assert_eq!(mime("/x/pic.jpeg"), "image/jpeg");
    assert_eq!(mime("/x/mod.wasm"), "application/wasm");
    assert_eq!(mime("/x/.hidden"), "application/octet-stream");
    assert_eq!(mime("/x/noext"), "application/octet-stream");
}

#[test]
fn responses() {
    let r = response_bytes("GET", 200, "text/html; charset=utf-8", b"<p>", true);
    assert_eq!(
        String::from_utf8(r).unwrap(),
        "HTTP/1.1 200 OK\r\nContent-Type: text/html; charset=utf-8\r\nContent-Length: 3\r\nCache-Control: no-cache\r\nConnection: keep-alive\r\n\r\n<p>"
    );
    let r = response_bytes("HEAD", 404, "text/plain", b"404 Not Found", false);
    assert_eq!(
        String::from_utf8(r).unwrap(),
        "HTTP/1.1 404 Not Found\r\nContent-Type: text/plain\r\nContent-Length: 13\r\nCache-Control: max-age=60\r\nConnection: close\r\n\r\n"
    );
    let r = response_bytes("GET", 403, "text/plain", b"Forbidden", true);
    assert!(String::from_utf8(r).unwrap().starts_with("HTTP/1.1 403 Forbidden\r\n"));
}

#[test]
fn log_and_counters() {
    assert_eq!(server_status_color(200), StatusColor::Green);
    assert_eq!(server_status_color(403), StatusColor::Red);
    assert_eq!(server_status_color(404), StatusColor::Yellow);
    let mut c = ConnectionCounter::new();
    let d = Diagnostics { enabled: true };
    assert_eq!(d.next_connection_id(&mut c), 1);
    assert_eq!(d.next_connection_id(&mut c), 2);
    let mut last = ConnectionCounter { next: u64::MAX };
    assert_eq!(d.next_connection_id(&mut last), u64::MAX);
    assert_eq!(last.next, 0);
    assert_eq!(d.log(3, 4, "accepted"), Some(" conn=3 req=4 accepted\r\n".to_string()));
    assert_eq!(Diagnostics { enabled: false }.log(3, 4, "x"), None);
}

#[test]
fn pipelined_requests_are_answered_in_order_until_close() {
    let lines = [
        "GET / HTTP/1.1\r\n",
        "Host: x\r\n",
        "\r\n",
        "GET /docs/install-rust/ HTTP/1.1\r\n",
        "Host: x\r\n",
        "Connection: close\r\n",
        "\r\n",
        "HEAD /a.css HTTP/1.1\r\n",
        "\r\n",
    ];
    let mut state = ConnState::AwaitingRequest;
    let mut answered = Vec::new();
    let mut stopped = false;
    for l in lines {
        let (next, action) = conn_step(state, ConnEvent::Line(l.to_string()));
        state = next;
        match action {
            ConnAction::Serve { method, path, keep_alive } => {
                answered.push((method, path, keep_alive));
                let (next, after) = conn_step(state, ConnEvent::Sent);
                state = next;
                if matches!(after, ConnAction::Stop) {
                    stopped = true;
                    break;
                }
                assert!(matches!(after, ConnAction::ReadLine));
            }
            ConnAction::Stop => panic!("stopped while reading"),
            ConnAction::ReadLine => {}
        }
    }
    assert!(stopped);
    assert!(matches!(state, ConnState::Closing));
    assert_eq!(
        answered,
        vec![
            ("GET".to_string(), "/".to_string(), true),
            ("GET".to_string(), "/docs/install-rust/".to_string(), false),
        ]
    );
    let (_, a) = conn_step(ConnState::Closing, ConnEvent::Line("HEAD / HTTP/1.1\r\n".to_string()));
    assert!(matches!(a, ConnAction::Stop));
}

#[test]
fn response_choice() {
    let (status, ctype, body) = choose_response(&route("/srv", "/../secret"), "-", None);
    assert_eq!((status, ctype.as_str(), body.as_slice()), (403, "text/plain", &b"Forbidden"[..]));
    let r = route("/srv", "/a.css?x=1");
    let (status, ctype, body) = choose_response(&r, "/srv/a.css", Some(b"p{}".to_vec()));
    assert_eq!((status, ctype.as_str(), body.as_slice()), (200, "text/css", &b"p{}"[..]));
    let (status, ctype, body) = choose_response(&r, "/srv/a.css", None);
    assert_eq!((status, ctype.as_str(), body.as_slice()), (404, "text/plain", &b"404 Not Found"[..]));
    assert_eq!(target_file("/srv/docs", true), "/srv/docs/index.html");
    assert_eq!(target_file("/srv/a.css", false), "/srv/a.css");
    let bytes = response_bytes("GET", 403, "text/plain", b"Forbidden", true);
    assert_eq!(
        String::from_utf8(bytes).unwrap(),
        "HTTP/1.1 403 Forbidden\r\nContent-Type: text/plain\r\nContent-Length: 9\r\nCache-Control: max-age=60\r\nConnection: keep-alive\r\n\r\nForbidden"
    );
}
