use terminal_use::cli::{parse_env, parse_size};
use terminal_use::output::{resolve_format, Format};
use terminal_use::paths::{date_of_day, screenshot_file_name};
use terminal_use::protocol::TermSize;
use terminal_use::server::{idle_timeout_secs, should_exit_idle, invalid_wait_pattern, pid_from_text, pid_path, session_exists, socket_path_text, session_not_found, wait_pattern, WaitState, WaitVerdict};
use terminal_use::spawn::{bracketed_paste, child_env, env_lookup, env_upsert, exec_command};
use terminal_use::version::{current_version, is_dev_build, is_newer, release_asset_url, version_from_tag};

#[test]
fn parse_size_accepts_cols_by_rows() {
    assert_eq!(parse_size("120x40").unwrap(), TermSize { cols: 120, rows: 40 });
    assert_eq!(parse_size("+8x+9").unwrap(), TermSize { cols: 8, rows: 9 });
    assert_eq!(parse_size("120").unwrap_err(), "Invalid size format: \"120\". Expected COLSxROWS (e.g. 120x40)");
    assert_eq!(parse_size("1x2x3").unwrap_err(), "Invalid size format: \"1x2x3\". Expected COLSxROWS (e.g. 120x40)");
    assert_eq!(parse_size("70000x1").unwrap_err(), "Invalid columns: \"70000\"");
    assert_eq!(parse_size("80x-1").unwrap_err(), "Invalid rows: \"-1\"");
    assert_eq!(parse_size("x5").unwrap_err(), "Invalid columns: \"\"");
}

#[test]
fn parse_env_splits_at_the_first_equals() {
    assert_eq!(parse_env("A=b=c").unwrap(), ("A".to_string(), "b=c".to_string()));
    assert_eq!(parse_env("EMPTY=").unwrap(), ("EMPTY".to_string(), "".to_string()));
    assert_eq!(parse_env("nope").unwrap_err(), "Invalid env format: \"nope\". Expected KEY=VALUE");
}

#[test]
fn output_format_choice() {
    assert_eq!(resolve_format(true, true), Format::Json);
    assert_eq!(resolve_format(false, true), Format::Human);
    assert_eq!(resolve_format(false, false), Format::Json);
}

#[test]
fn version_checks() {
    assert_eq!(current_version(), "0.0.0");
    assert!(is_dev_build());
    assert!(is_newer("1.2.3", "1.10.0"));
    assert!(!is_newer("1.10.0", "1.2.3"));
    assert!(!is_newer("1.2.3", "1.2.3"));
    assert!(is_newer("1.0.0-beta", "1.0.0"));
    assert!(is_newer("garbage", "1.0.0"));
    assert!(!is_newer("garbage", "garbage"));
    assert_eq!(version_from_tag("v1.4.2"), "1.4.2");
    assert_eq!(version_from_tag("1.4.2"), "1.4.2");
}

#[test]
fn release_asset_urls() {
    assert_eq!(
        release_asset_url("1.2.3", "linux", "x86_64").unwrap(),
        "https://github.com/flipbit03/terminal-use/releases/download/v1.2.3/tu_linux_x86_64"
    );
    assert_eq!(
        release_asset_url("1.2.3", "macos", "aarch64").unwrap(),
        "https://github.com/flipbit03/terminal-use/releases/download/v1.2.3/tu_macos_aarch64"
    );
    assert_eq!(release_asset_url("1", "windows", "x86_64").unwrap_err(), "unsupported OS: windows");
    assert_eq!(release_asset_url("1", "linux", "riscv64").unwrap_err(), "unsupported architecture: riscv64");
    assert!(release_asset_url("1", "macos", "x86_64").unwrap_err().starts_with("macOS x86_64 binaries"));
}

#[test]
fn auto_png_path_format() {
    let now = std::time::SystemTime::now().duration_since(std::time::UNIX_EPOCH).unwrap();
    let filename = screenshot_file_name("myapp", now.as_secs(), now.subsec_millis());
    assert!(filename.starts_with("tu-screenshot-myapp-"));
    assert!(filename.ends_with(".png"));
    assert!(filename.contains('T'));
}

#[test]
fn auto_png_path_embeds_session_name() {
    let now = std::time::SystemTime::now().duration_since(std::time::UNIX_EPOCH).unwrap();
    let filename = screenshot_file_name("my-session", now.as_secs(), now.subsec_millis());
    assert!(filename.contains("my-session"));
}

#[test]
fn screenshot_names_carry_the_utc_time() {
    // 2024-02-29 13:05:09.750 UTC
    assert_eq!(screenshot_file_name("s", 1_709_211_909, 750), "tu-screenshot-s-20240229T130509.7.png");
    assert_eq!(screenshot_file_name("s", 0, 0), "tu-screenshot-s-19700101T000000.0.png");
    assert_eq!(date_of_day(0), (1970, 1, 1));
    assert_eq!(date_of_day(365), (1971, 1, 1));
    assert_eq!(date_of_day(11_016), (2000, 2, 29));
    assert_eq!(date_of_day(11_322), (2000, 12, 31));
}

fn env_pairs(pairs: &[(&str, &str)]) -> Vec<(Vec<u8>, Vec<u8>)> {
    pairs.iter().map(|(k, v)| (k.as_bytes().to_vec(), v.as_bytes().to_vec())).collect()
}

#[test]
fn explicit_env_overrides_colorterm() {
    let inherited = env_pairs(&[("HOME", "/root")]);
    let env = vec![("COLORTERM".to_string(), "24bit".to_string())];
    let child = child_env(&inherited, "xterm-256color", &env);
    assert_eq!(env_lookup(&child, b"COLORTERM"), Some(b"24bit".to_vec()));
}

#[test]
fn child_environment_defaults() {
    let inherited = env_pairs(&[("COLUMNS", "80"), ("COLORTERM", "256color"), ("LINES", "24"), ("A", "1")]);
    let child = child_env(&inherited, "xterm-256color", &[]);
    assert_eq!(env_lookup(&child, b"COLORTERM"), Some(b"truecolor".to_vec()));
    assert_eq!(env_lookup(&child, b"TERM"), Some(b"xterm-256color".to_vec()));
    assert_eq!(env_lookup(&child, b"COLUMNS"), None);
    assert_eq!(env_lookup(&child, b"LINES"), None);
    assert_eq!(env_lookup(&child, b"A"), Some(b"1".to_vec()));
    assert_eq!(child.len(), 3);
}

#[test]
fn env_upsert_replaces_in_place_or_appends() {
    let mut env = env_pairs(&[("A", "1"), ("B", "2")]);
    env_upsert(&mut env, b"A", b"3");
    env_upsert(&mut env, b"C", b"4");
    assert_eq!(env, env_pairs(&[("A", "3"), ("B", "2"), ("C", "4")]));
}

#[test]
fn exec_command_plans() {
    let args = vec!["-l".to_string(), "/tmp".to_string()];
    assert_eq!(exec_command("ls", &args, false, None), ("ls".to_string(), args.clone()));
    assert_eq!(
        exec_command("ls", &args, true, Some(b"/bin/zsh")),
        ("/bin/zsh".to_string(), vec!["-c".to_string(), "ls -l /tmp".to_string()])
    );
    assert_eq!(
        exec_command("echo hi", &[], true, None),
        ("/bin/sh".to_string(), vec!["-c".to_string(), "echo hi".to_string()])
    );
    assert_eq!(exec_command("x", &[], true, Some(&[0xff, 0xfe])).0, "/bin/sh");
}

#[test]
fn paste_is_bracketed() {
    assert_eq!(bracketed_paste("hé"), b"\x1b[200~h\xc3\xa9\x1b[201~".to_vec());
}

#[test]
fn daemon_paths_and_messages() {
    assert_eq!(pid_path("/tmp/tu-1000.sock"), "/tmp/tu-1000.pid");
    assert_eq!(pid_path("/run/user/1000/tu.sock"), "/run/user/1000/tu.pid");
    assert_eq!(session_not_found("x"), "Session \"x\" not found");
    assert_eq!(invalid_wait_pattern("(", "oops"), "Invalid regex \"(\": oops");
}

#[test]
fn wait_state_machine() {
    let mut w = WaitState::new();
    // no pattern, stability of 100ns
    assert_eq!(w.look(0, 1000, "a", None, Some(100)), WaitVerdict::Pending);
    assert_eq!(w.look(50, 1000, "a", None, Some(100)), WaitVerdict::Pending);
    assert_eq!(w.look(120, 1000, "b", None, Some(100)), WaitVerdict::Pending);
    assert_eq!(w.look(200, 1000, "b", None, Some(100)), WaitVerdict::Pending);
    assert_eq!(w.look(220, 1000, "b", None, Some(100)), WaitVerdict::Satisfied);
    assert_eq!(w.look(1000, 1000, "b", None, Some(100)), WaitVerdict::TimedOut);
    let mut plain = WaitState::new();
    assert_eq!(plain.look(0, 10, "a", None, None), WaitVerdict::Pending);
    assert_eq!(plain.look(10, 10, "a", None, None), WaitVerdict::TimedOut);
}

#[test]
fn wait_pattern_error_carries_the_regex_reason() {
    let message = wait_pattern(Some("(")).unwrap_err();
    assert!(message.starts_with("Invalid regex \"(\": regex parse error:"));
    assert!(message.ends_with("error: unclosed group"));
}

#[test]
fn wait_with_a_pattern() {
    assert!(wait_pattern(None).unwrap().is_none());
    assert!(wait_pattern(Some("(")).unwrap_err().starts_with("Invalid regex \"(\": "));
    let pat = wait_pattern(Some(r"Comp\w+")).unwrap().unwrap();
    let mut w = WaitState::new();
    assert_eq!(w.look(0, 100, "working...", Some(&pat), None), WaitVerdict::Pending);
    assert_eq!(w.look(5, 100, "Complete", Some(&pat), None), WaitVerdict::Satisfied);
}

#[test]
fn idle_timeout_reads_the_variable_or_defaults_to_eight_hours() {
    assert_eq!(idle_timeout_secs(None), 28800);
    assert_eq!(idle_timeout_secs(Some("60")), 60);
    assert_eq!(idle_timeout_secs(Some("+5")), 5);
    assert_eq!(idle_timeout_secs(Some("0")), 0);
    assert_eq!(idle_timeout_secs(Some("abc")), 28800);
    assert_eq!(idle_timeout_secs(Some("-1")), 28800);
    assert_eq!(idle_timeout_secs(Some("")), 28800);
    assert_eq!(idle_timeout_secs(Some("18446744073709551615")), u64::MAX);
    assert_eq!(idle_timeout_secs(Some("18446744073709551616")), 28800);
}

#[test]
fn socket_path_in_runtime_dir_or_tmp() {
    assert_eq!(socket_path_text(Some("/run/user/1000"), 1000), "/run/user/1000/tu.sock");
    assert_eq!(socket_path_text(Some("/run/user/1000/"), 1000), "/run/user/1000/tu.sock");
    assert_eq!(socket_path_text(Some(""), 7), "tu.sock");
    assert_eq!(socket_path_text(None, 1000), "/tmp/tu-1000.sock");
    assert_eq!(socket_path_text(None, 0), "/tmp/tu-0.sock");
}

#[test]
fn pid_file_text_is_read_as_i32() {
    assert_eq!(pid_from_text("4242\n"), Some(4242));
    assert_eq!(pid_from_text("  17  "), Some(17));
    assert_eq!(pid_from_text("+5"), Some(5));
    assert_eq!(pid_from_text("-1"), Some(-1));
    assert_eq!(pid_from_text("-2147483648"), Some(i32::MIN));
    assert_eq!(pid_from_text("2147483647"), Some(i32::MAX));
    assert_eq!(pid_from_text("2147483648"), None);
    assert_eq!(pid_from_text("-+5"), None);
    assert_eq!(pid_from_text("++5"), None);
    assert_eq!(pid_from_text("-"), None);
    assert_eq!(pid_from_text(""), None);
    assert_eq!(pid_from_text("12a"), None);
}

#[test]
fn session_exists_message() {
    assert_eq!(session_exists("web"), "Session \"web\" already exists");
}

#[test]
fn idle_daemon_exits_only_without_sessions_after_the_timeout() {
    assert!(should_exit_idle(0, 28_800_000_000_000, 28800));
    assert!(!should_exit_idle(0, 28_799_999_999_999, 28800));
    assert!(!should_exit_idle(1, 99_000_000_000_000, 28800));
    assert!(should_exit_idle(0, 0, 0));
}
