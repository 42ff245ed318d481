use dir_scanner::run::{
    api_run, finish, lookup_whitelist, origin_ok, run_plan, settle_output, wait_step, RunOutput,
    RunPlan, RunRequest, WaitStep,
};

#[test]
fn origin_ok_accepts_local_pages_and_clients_without_origin() {
    assert!(origin_ok(None));
    assert!(origin_ok(Some("http://localhost:8008")));
    assert!(origin_ok(Some("http://127.0.0.1:8008")));
    assert!(origin_ok(Some("http://[::1]:8008")));
    assert!(origin_ok(Some("http://[::1]")));
    assert!(origin_ok(Some("http://[::1]/docs")));
    assert!(origin_ok(Some("localhost")));
    assert!(origin_ok(Some("http://localhost/some/page")));
}

#[test]
fn origin_ok_rejects_foreign_sites() {
    assert!(!origin_ok(Some("https://evil.example")));
    assert!(!origin_ok(Some("http://localhost.evil.example")));
    assert!(!origin_ok(Some("http://127.0.0.2:8008")));
    assert!(!origin_ok(Some("null")));
    assert!(!origin_ok(Some("http://[::2]:8008")));
    assert!(!origin_ok(Some("http://[::1]x")));
    assert!(!origin_ok(Some("")));
}

fn reply(p: RunPlan) -> (u16, String) {
    match p {
        RunPlan::Reply { status, body } => (status, body),
        RunPlan::Spawn { command, .. } => panic!("expected a reply, got a command: {command}"),
    }
}

fn spawn(p: RunPlan) -> (String, String, Vec<String>) {
    match p {
        RunPlan::Spawn { command, program, args } => (command, program, args),
        RunPlan::Reply { status, body } => panic!("expected a command, got {status} {body}"),
    }
}

#[test]
fn api_run_rejects_bad_bodies() {
    assert_eq!(reply(api_run(b"not json", true)), (400, r#"{"error":"invalid JSON body"}"#.to_string()));
    assert_eq!(
        reply(api_run(br#"{"script":"ls"}"#, false)),
        (403, r#"{"error":"script execution is only allowed from this server's own pages"}"#.to_string())
    );
    assert_eq!(reply(api_run(br#"{"script":"  \n "}"#, true)), (400, r#"{"error":"empty script"}"#.to_string()));
    assert_eq!(
        reply(api_run(br#"{"id":"rm \"-rf\""}"#, true)),
        (400, r#"{"error":"unknown command id: rm \"-rf\""}"#.to_string())
    );
    assert_eq!(reply(api_run(br#"{}"#, true)), (400, r#"{"error":"unknown command id: "}"#.to_string()));
    assert_eq!(reply(api_run(br#"[1,2]"#, true)), (400, r#"{"error":"unknown command id: "}"#.to_string()));
}

#[test]
fn api_run_whitelisted_commands() {
    assert_eq!(
        spawn(api_run(br#"{"id":"go_version"}"#, false)),
        ("go version".to_string(), "go".to_string(), vec!["version".to_string()])
    );
    assert_eq!(spawn(api_run(br#"{"id":"sw_vers"}"#, false)), ("sw_vers".to_string(), "sw_vers".to_string(), vec![]));
    assert_eq!(
        spawn(api_run(br#"{"id":"uname","script":5}"#, false)),
        ("uname -a".to_string(), "uname".to_string(), vec!["-a".to_string()])
    );
    let (p, a) = lookup_whitelist("open_users").unwrap();
    assert_eq!(p, "open");
    assert_eq!(a, vec!["x-apple.systempreferences:com.apple.preferences.users"]);
    assert!(lookup_whitelist("nope").is_none());
}

#[test]
fn api_run_scripts_are_labelled_by_their_first_line() {
    let (command, program, args) = spawn(api_run(br#"{"script":"\n  brew update  \nbrew upgrade"}"#, true));
    assert_eq!(command, "zsh: brew update");
    assert_eq!(program, "zsh");
    assert_eq!(args, vec!["-lc".to_string(), "\n  brew update  \nbrew upgrade".to_string()]);
    let req = RunRequest { script: Some("echo hi".to_string()), id: Some("date".to_string()) };
    assert_eq!(spawn(run_plan(Some(req), true)).0, "zsh: echo hi");
}

#[test]
fn finish_writes_sorted_json() {
    let out = RunOutput { exit_code: Some(0), stdout: "hello\n".to_string(), stderr: "".to_string() };
    assert_eq!(
        finish("go version", Ok(out)),
        (200, r#"{"command":"go version","exit_code":0,"stderr":"","stdout":"hello\n"}"#.to_string())
    );
    let out = RunOutput { exit_code: None, stdout: "".to_string(), stderr: "tab\there \u{1}".to_string() };
    assert_eq!(
        finish("zsh: x", Ok(out)),
        (200, r#"{"command":"zsh: x","exit_code":null,"stderr":"tab\there \u0001","stdout":""}"#.to_string())
    );
    let out = RunOutput { exit_code: Some(-9), stdout: "".to_string(), stderr: "".to_string() };
    assert!(finish("c", Ok(out)).1.contains(r#""exit_code":-9"#));
    assert_eq!(
        finish("x", Err("No such file or directory (os error 2)".to_string())),
        (500, r#"{"error":"failed to run: No such file or directory (os error 2)"}"#.to_string())
    );
}

#[test]
fn timed_out_commands_lose_their_exit_code() {
    let o = settle_output(Some(1), true, "out".to_string(), "err".to_string());
    assert_eq!(o.exit_code, None);
    assert_eq!(o.stdout, "out");
    assert_eq!(
        o.stderr,
        "err\n[killed: exceeded 120s timeout — interactive commands (sudo, prompts) can't run here]"
    );
    let o = settle_output(Some(1), false, "out".to_string(), "err".to_string());
    assert_eq!(o.exit_code, Some(1));
    assert_eq!(o.stderr, "err");
}

#[test]
fn wait_steps() {
    assert!(matches!(wait_step(true, 10, 5), WaitStep::Done));
    assert!(matches!(wait_step(false, 10, 5), WaitStep::Kill));
    assert!(matches!(wait_step(false, 5, 5), WaitStep::Kill));
    assert!(matches!(wait_step(false, 4, 5), WaitStep::Sleep));
}
