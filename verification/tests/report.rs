use terminal_use::manager::{allocate_name, sort_by_name};
use terminal_use::protocol::{
    CursorPos, MouseButton, MouseEncoding, MouseEventKind, MouseLastEvent, MouseMode, MouseMods, ScrollDir,
    SessionInfo, TermSize,
};
use terminal_use::self_update::{plan_update, UpdateArgs};
use terminal_use::report::{cursor_line, daemon_status_lines, mouse_state_lines, session_created_line, session_list_lines, status_lines};

fn info(name: &str, pid: u32, alive: bool, exit_code: Option<i32>) -> SessionInfo {
    SessionInfo { name: name.to_string(), pid, alive, exit_code, size: TermSize { cols: 80, rows: 24 } }
}

#[test]
fn empty_session_list_says_so() {
    assert_eq!(session_list_lines(&[]), vec!["No active sessions.".to_string()]);
}

#[test]
fn session_list_has_heading_and_padded_rows() {
    let lines = session_list_lines(&[info("default", 4242, true, None), info("build", 7, false, Some(-3))]);
    assert_eq!(lines.len(), 3);
    assert_eq!(lines[0], format!("{:<20} {:<10} {:<10} {:<10}", "NAME", "PID", "STATUS", "SIZE"));
    assert_eq!(lines[1], "default              4242       alive      80x24");
    assert_eq!(lines[2], "build                7          exited(-3) 80x24");
}

#[test]
fn unknown_exit_code_shows_minus_one() {
    let lines = session_list_lines(&[info("x", 1, false, None)]);
    assert_eq!(lines[1], "x                    1          exited(-1) 80x24");
}

#[test]
fn status_report_lines() {
    let lines = status_lines(&info("web", 99, false, Some(0)));
    assert_eq!(lines, vec!["Name:   web", "PID:    99", "Status: exited(0)", "Size:   80x24"]);
}

#[test]
fn created_and_cursor_lines() {
    assert_eq!(session_created_line("default", 12), "Session \"default\" started (pid 12)");
    assert_eq!(session_created_line("a\"b", 3), "Session \"a\\\"b\" started (pid 3)");
    assert_eq!(cursor_line(CursorPos { row: 5, col: 17 }), "5,17");
}

#[test]
fn mouse_state_when_disabled() {
    let lines = mouse_state_lines(
        MouseMode::Off,
        MouseEncoding::Default,
        TermSize { cols: 120, rows: 40 },
        None,
        &[],
        None,
    );
    assert_eq!(lines, vec!["disabled", "cursor=none screensize=120x40", "buttons_held=none", "last_event=none"]);
}

#[test]
fn mouse_state_with_events() {
    let ev = MouseLastEvent {
        kind: MouseEventKind::Down,
        col: 3,
        row: 4,
        button: Some(MouseButton::Right),
        scroll_dir: None,
        mods: MouseMods { shift: true, alt: false, ctrl: true },
        ts_unix: 1700000000,
    };
    let lines = mouse_state_lines(
        MouseMode::PressRelease,
        MouseEncoding::Sgr,
        TermSize { cols: 80, rows: 24 },
        Some(CursorPos { row: 4, col: 3 }),
        &[MouseButton::Left, MouseButton::Middle],
        Some(ev),
    );
    assert_eq!(lines[0], "mode=PressRelease encoding=Sgr");
    assert_eq!(lines[1], "cursor=(3,4) screensize=80x24");
    assert_eq!(lines[2], "buttons_held=left,middle");
    assert_eq!(lines[3], "last_event=Down (3,4) button=right mods=ctrl,shift at 1700000000");
}

#[test]
fn mouse_state_scroll_event() {
    let ev = MouseLastEvent {
        kind: MouseEventKind::Scroll,
        col: 0,
        row: 9,
        button: None,
        scroll_dir: Some(ScrollDir::Down),
        mods: MouseMods::default(),
        ts_unix: 5,
    };
    let lines = mouse_state_lines(
        MouseMode::AnyMotion,
        MouseEncoding::Utf8,
        TermSize { cols: 10, rows: 10 },
        None,
        &[],
        Some(ev),
    );
    assert_eq!(lines[0], "mode=AnyMotion encoding=Utf8");
    assert_eq!(lines[3], "last_event=Scroll (0,9) dir=down at 5");
}

#[test]
fn allocate_name_prefers_request_then_default_then_numbers() {
    let taken: Vec<String> = vec![];
    assert_eq!(allocate_name(Some("mine".to_string()), &taken), "mine");
    assert_eq!(allocate_name(None, &taken), "default");
    let taken = vec!["default".to_string(), "session-1".to_string(), "session-3".to_string()];
    assert_eq!(allocate_name(None, &taken), "session-2");
    let taken = vec!["default".to_string()];
    assert_eq!(allocate_name(None, &taken), "session-1");
}

#[test]
fn self_update_plans() {
    let check = UpdateArgs { check: true };
    let install = UpdateArgs { check: false };
    let p = plan_update(&check, "1.0.0", "1.2.0");
    assert_eq!(p.lines, vec!["Update available: 1.0.0 -> 1.2.0", "Run `tu self update` to upgrade."]);
    assert!(!p.install);
    let p = plan_update(&install, "1.2.0", "1.2.0");
    assert_eq!(p.lines, vec!["tu 1.2.0 is already the latest version."]);
    assert!(!p.install);
    let p = plan_update(&install, "1.9.0", "1.10.0");
    assert_eq!(p.lines, vec!["Updating tu 1.9.0 -> 1.10.0"]);
    assert!(p.install);
    let p = plan_update(&install, "1.10.0", "1.9.0");
    assert!(!p.install);
}

#[test]
fn session_list_is_sorted_by_name() {
    let sorted = sort_by_name(vec![
        info("zeta", 1, true, None),
        info("Alpha", 2, true, None),
        info("alpha", 3, true, None),
        info("éclair", 4, true, None),
        info("al", 5, true, None),
    ]);
    let names: Vec<&str> = sorted.iter().map(|s| s.name.as_str()).collect();
    assert_eq!(names, vec!["Alpha", "al", "alpha", "zeta", "éclair"]);
    assert!(sort_by_name(vec![]).is_empty());
}

#[test]
fn daemon_status_report() {
    assert_eq!(daemon_status_lines(None, None), vec!["Daemon is not running."]);
    assert_eq!(daemon_status_lines(Some("123\n"), Some(2)), vec!["Daemon is running (pid 123).", "Active sessions: 2"]);
    assert_eq!(daemon_status_lines(Some(""), None), vec!["Daemon is running (pid )."]);
}
