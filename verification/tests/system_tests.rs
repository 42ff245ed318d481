use dir_scanner::system::{
    command_text, env_or, make_output_path, output_dir, report_context, system_info, system_rows,
    Stamp, SystemProbe,
};

fn probe() -> SystemProbe {
    SystemProbe {
        user: Some("ann\n".to_string()),
        hostname: Some("  ".to_string()),
        os_name: None,
        os_version: Some("14.5\n".to_string()),
        os_build: Some("23F79".to_string()),
        platform_os: "macos".to_string(),
        platform_arch: "aarch64".to_string(),
        lang: None,
        processor: Some("Apple M2\n".to_string()),
        cores: Some("8\n".to_string()),
        memory: Some("17179869184\n".to_string()),
        uptime: Some(" up 3 days \n".to_string()),
        date: "Tue, 1 Jul 2025 10:00:00 +0200".to_string(),
        home: Some("/Users/ann".to_string()),
        shell: Some("/bin/zsh".to_string()),
        term: None,
        rustc: Some("rustc 1.80.0\n".to_string()),
        cargo: None,
    }
}

#[test]
fn command_text_and_env() {
    assert_eq!(command_text(Some("  x \n")), "x");
    assert_eq!(command_text(Some(" \n")), "—");
    assert_eq!(command_text(None), "—");
    assert_eq!(env_or(Some("en_US.UTF-8"), "—"), "en_US.UTF-8");
    assert_eq!(env_or(None, "—"), "—");
}

#[test]
fn system_rows_in_order() {
    let rows = system_rows(&probe());
    let expected = vec![
        ("User", "ann"),
        ("Hostname", "—"),
        ("OS", "—"),
        ("OS Version", "14.5"),
        ("Build", "23F79"),
        ("Platform", "macos aarch64"),
        ("User Lang", "—"),
        ("Processor", "Apple M2"),
        ("Cores", "8"),
        ("Memory", "16.0 GB"),
        ("Uptime", "up 3 days"),
        ("Date", "Tue, 1 Jul 2025 10:00:00 +0200"),
        ("Home", "/Users/ann"),
        ("Shell", "/bin/zsh"),
        ("Term", "—"),
        ("Rust", "rustc 1.80.0"),
        ("Cargo", "—"),
    ];
    let got: Vec<(&str, &str)> = rows.iter().map(|(k, v)| (k.as_str(), v.as_str())).collect();
    assert_eq!(got, expected);
    let info = system_info(&probe());
    assert_eq!(info.len(), 17);
    assert_eq!(info[9].key, "Memory");
    assert_eq!(info[9].value, "16.0 GB");
}

#[test]
fn memory_that_is_not_a_number() {
    let mut p = probe();
    p.memory = Some("lots".to_string());
    assert_eq!(system_rows(&p)[9].1, "—");
    p.memory = None;
    assert_eq!(system_rows(&p)[9].1, "—");
}

#[test]
fn output_paths() {
    assert_eq!(output_dir("/Users/ann"), "/Users/ann/Developer/macos-reset");
    let now = Stamp { year: 2026, month: 6, day: 10, hour: 14, minute: 5 };
    assert_eq!(
        make_output_path("/Users/ann", &now),
        "/Users/ann/Developer/macos-reset/tree_output-26.6.10_2.05pm.txt"
    );
    let midnight = Stamp { year: 2009, month: 12, day: 31, hour: 0, minute: 59 };
    assert_eq!(
        make_output_path("/h", &midnight),
        "/h/Developer/macos-reset/tree_output-09.12.31_12.59am.txt"
    );
    let noon = Stamp { year: 2024, month: 2, day: 29, hour: 12, minute: 0 };
    assert_eq!(make_output_path("/h", &noon), "/h/Developer/macos-reset/tree_output-24.2.29_12.00pm.txt");
}

#[test]
fn report_context_fields() {
    let now = Stamp { year: 2026, month: 1, day: 2, hour: 9, minute: 30 };
    let ctx = report_context(vec![("User".to_string(), "ann".to_string())], "/h", &now, "Fri, 2 Jan 2026 09:30:00 +0000".to_string());
    assert_eq!(ctx.output_dir, "/h/Developer/macos-reset");
    assert_eq!(ctx.output_file.as_deref(), Some("/h/Developer/macos-reset/tree_output-26.1.2_9.30am.txt"));
    assert_eq!(ctx.generated, "Fri, 2 Jan 2026 09:30:00 +0000");
    assert_eq!(ctx.system_rows.len(), 1);
}
