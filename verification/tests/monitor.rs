use terminal_use::viewer::Viewer;
use terminal_use::monitor::{
    build_frame_strings, clamp_index, decode_key, format_elapsed, frame_diff, initial_index, key_action,
    layout_tabs, mouse_cursor_glyph, parse_sgr_mouse, render_frame, truncate_ansi_visible, usable_terminal_size,
    waiting_screen, Key, KeyOutcome,
};
use terminal_use::mouse::{encode, WireEvent};
use terminal_use::protocol::{CursorPos, MouseButton, MouseEncoding, MouseMods};

fn names(n: usize) -> Vec<String> {
    (1..=n).map(|i| format!("win{i}")).collect()
}

/// Count visible (printable) columns in an ANSI-decorated line, skipping
/// CSI escape sequences.
fn visible_width(line: &str) -> usize {
    let mut count = 0;
    let mut chars = line.chars().peekable();
    while let Some(c) = chars.next() {
        if c == '\x1b' {
            if chars.peek() == Some(&'[') {
                chars.next();
                while let Some(&p) = chars.peek() {
                    chars.next();
                    if (0x40..=0x7E).contains(&(p as u32)) {
                        break;
                    }
                }
            }
        } else {
            count += 1;
        }
    }
    count
}

#[test]
fn header_lines_never_exceed_terminal_width() {
    let sessions = names(15);
    let rows_ansi: Vec<String> = (0..40).map(|_| String::new()).collect();
    let frame = build_frame_strings(&sessions, 0, &rows_ansi, 40, 120, (60, 44), 5, None, false);
    for line in &frame.lines {
        assert!(visible_width(line) <= 60, "row exceeds terminal width: {line:?}");
    }
}

#[test]
fn layout_single_line_when_it_fits() {
    let sessions = names(3);
    let (lines, hits) = layout_tabs(&sessions, 0, 200, 2);
    assert_eq!(lines.len(), 1);
    assert_eq!(hits.len(), 3);
    assert!(hits.iter().all(|h| h.term_row == 2));
    assert_eq!((hits[0].start_col, hits[0].end_col), (1, 6));
    assert_eq!(hits[1].start_col, 10);
}

#[test]
fn layout_wraps_when_too_many_tabs() {
    let sessions = names(12);
    let (lines, hits) = layout_tabs(&sessions, 0, 30, 2);
    assert!(lines.len() > 1, "expected wrapping, got {} line(s)", lines.len());
    assert_eq!(hits.len(), 12);
    assert!(hits.iter().any(|h| h.term_row > 2));
    assert!(hits.iter().all(|h| h.start_col >= 1 && h.start_col <= 30));
    for w in hits.windows(2) {
        assert!(w[1].term_row >= w[0].term_row);
    }
}

#[test]
fn layout_hit_columns_match_label_width() {
    let sessions = names(1);
    let (_lines, hits) = layout_tabs(&sessions, 0, 80, 2);
    assert_eq!((hits[0].start_col, hits[0].end_col), (1, 6));
}

#[test]
fn parse_left_press_returns_click() {
    match parse_sgr_mouse(b"0;12;3M") {
        Some(Key::Click { row, col }) => {
            assert_eq!((row, col), (3, 12));
        }
        other => panic!("expected Click, got {:?}", other.is_some()),
    }
}

#[test]
fn parse_release_is_ignored() {
    assert!(parse_sgr_mouse(b"0;12;3m").is_none());
}

#[test]
fn parse_non_left_button_is_ignored() {
    assert!(parse_sgr_mouse(b"2;12;3M").is_none());
    assert!(parse_sgr_mouse(b"64;12;3M").is_none());
    assert!(parse_sgr_mouse(b"32;12;3M").is_none());
}

#[test]
fn parse_modified_left_click_returns_click() {
    for b in [4u32, 8, 16, 28] {
        match parse_sgr_mouse(format!("{b};9;2M").as_bytes()) {
            Some(Key::Click { row, col }) => assert_eq!((row, col), (2, 9)),
            _ => panic!("expected Click for modified left press (button {b})"),
        }
    }
}

#[test]
fn truncate_counts_wide_chars_by_display_width() {
    let line = "日本語";
    let out = truncate_ansi_visible(line, 5);
    assert_eq!(out, "日本");
    assert_eq!(truncate_ansi_visible(line, 6), "日本語");
}

#[test]
fn layout_wraps_on_display_width_for_wide_names() {
    let sessions = vec!["日本語".to_string(), "한국어".to_string()];
    let (lines, hits) = layout_tabs(&sessions, 0, 12, 2);
    assert_eq!(lines.len(), 2, "wide names should wrap by display width");
    assert_eq!(hits[0].term_row, 2);
    assert_eq!(hits[1].term_row, 3);
    assert_eq!((hits[0].start_col, hits[0].end_col), (1, 8));
}

#[test]
fn parse_coalesced_press_release_takes_first() {
    match parse_sgr_mouse(b"0;5;7M\x1b[<0;5;7m") {
        Some(Key::Click { row, col }) => assert_eq!((row, col), (7, 5)),
        _ => panic!("expected Click from leading press"),
    }
}

#[test]
fn parse_malformed_is_ignored() {
    assert!(parse_sgr_mouse(b"garbage").is_none());
    assert!(parse_sgr_mouse(b"0;12M").is_none());
}

#[test]
fn truncate_passes_short_lines_through_unchanged() {
    let line = "\x1b[31mhello\x1b[0m";
    assert_eq!(truncate_ansi_visible(line, 10), line);
}

#[test]
fn truncate_clips_visible_chars_only() {
    let line = "\x1b[31mhello\x1b[32mworld\x1b[0m";
    let out = truncate_ansi_visible(line, 5);
    assert!(out.contains("hello"));
    assert!(!out.contains("world"));
    assert!(out.contains("\x1b[31m"));
}

#[test]
fn truncate_preserves_csi_state_changes_within_window() {
    let line = "\x1b[31ma\x1b[32mb\x1b[33mc";
    let out = truncate_ansi_visible(line, 2);
    assert!(out.contains("\x1b[31m"));
    assert!(out.contains("\x1b[32m"));
    assert!(out.contains('a'));
    assert!(out.contains('b'));
    assert!(!out.contains('c'));
}

#[test]
fn truncate_max_zero_returns_empty() {
    assert_eq!(truncate_ansi_visible("\x1b[31mxxx", 0), "");
}

#[test]
fn truncate_handles_osc_with_st() {
    let line = "\x1b]0;title\x1b\\hello world";
    let out = truncate_ansi_visible(line, 5);
    assert!(out.contains("\x1b]0;title\x1b\\"));
    assert!(out.contains("hello"));
    assert!(!out.contains("world"));
}

#[test]
fn truncate_handles_osc_with_bel() {
    let line = "\x1b]0;title\x07hello world";
    let out = truncate_ansi_visible(line, 5);
    assert!(out.contains("\x1b]0;title\x07"));
    assert!(out.contains("hello"));
    assert!(!out.contains("world"));
}

#[test]
fn truncate_140_to_80_bounds_visible_count() {
    let body: String = (0..140).map(|_| 'X').collect();
    let line = format!("\x1b[31m{body}\x1b[0m");
    let out = truncate_ansi_visible(&line, 79);
    assert_eq!(visible_width(&out), 79);
}

#[test]
fn truncate_output_is_a_prefix_of_the_input() {
    let line = "\x1b[1mab\x1b]2;t\x07cdé日fg";
    for max in 0..12 {
        let out = truncate_ansi_visible(line, max);
        assert!(line.starts_with(&out), "{out:?} is not a prefix");
    }
}

#[test]
fn encoded_left_press_reads_back_as_a_click() {
    let ev = WireEvent::Down {
        col: 11,
        row: 2,
        button: MouseButton::Left,
        mods: MouseMods { shift: false, alt: true, ctrl: true },
    };
    let bytes = encode(&[ev], MouseEncoding::Sgr).unwrap();
    assert_eq!(decode_key(&bytes), Some(Key::Click { row: 3, col: 12 }));
    let release = WireEvent::Up { col: 11, row: 2, button: MouseButton::Left, mods: MouseMods::default() };
    assert_eq!(decode_key(&encode(&[release], MouseEncoding::Sgr).unwrap()), None);
}

#[test]
fn decode_key_reads_quit_and_arrows() {
    assert_eq!(decode_key(b"q"), Some(Key::Quit));
    assert_eq!(decode_key(&[3u8]), Some(Key::Quit));
    assert_eq!(decode_key(b"\x1b[C"), Some(Key::Right));
    assert_eq!(decode_key(b"\x1bOD"), Some(Key::Left));
    assert_eq!(decode_key(b"x"), None);
    assert_eq!(decode_key(b""), None);
}

#[test]
fn format_elapsed_uses_the_largest_unit() {
    assert_eq!(format_elapsed(0), "0s ago");
    assert_eq!(format_elapsed(59), "59s ago");
    assert_eq!(format_elapsed(60), "1m ago");
    assert_eq!(format_elapsed(3599), "59m ago");
    assert_eq!(format_elapsed(7200), "2h ago");
}

#[test]
fn cursor_glyph_reflects_held_state() {
    assert_eq!(mouse_cursor_glyph(false), "\x1b[1;38;5;201m△");
    assert_eq!(mouse_cursor_glyph(true), "\x1b[1;48;5;201;97m△");
}

#[test]
fn single_session_frame_layout() {
    let sessions = vec!["main".to_string()];
    let rows = vec!["hi".to_string(), "there".to_string()];
    let frame = build_frame_strings(&sessions, 0, &rows, 2, 4, (80, 24), 3, Some(CursorPos { row: 1, col: 0 }), false);
    assert!(frame.tab_hits.is_empty());
    assert_eq!(frame.lines.len(), 5);
    assert_eq!(frame.lines[0], "\x1b[90mterminal-use monitor · last change 3s ago · Ctrl+C detach\x1b[0m");
    assert_eq!(frame.lines[1], "\x1b[90m┌─\x1b[0m\x1b[1m main [4x2] \x1b[0m\x1b[90m┐\x1b[0m");
    assert_eq!(frame.lines[2], "\x1b[90m│\x1b[0mhi\x1b[0m\x1b[6G\x1b[90m│\x1b[0m");
    assert_eq!(frame.lines[3], "\x1b[90m│\x1b[0mthere\x1b[0m\x1b[6G\x1b[90m│\x1b[0m\x1b[4;2H\x1b[1;38;5;201m△\x1b[0m");
    assert_eq!(frame.lines[4], "\x1b[90m└────┘\x1b[0m");
}

#[test]
fn frame_cut_at_the_bottom_fades_the_border() {
    let sessions = vec!["s".to_string()];
    let rows: Vec<String> = (0..10).map(|i| format!("r{i}")).collect();
    let frame = build_frame_strings(&sessions, 0, &rows, 10, 4, (80, 8), 0, None, false);
    // status + top border + 5 rows (8 - 2 header - 1), no bottom border
    assert_eq!(frame.lines.len(), 7);
    assert!(frame.lines[6].starts_with("\x1b[90m·"));
    assert!(frame.lines[3].starts_with("\x1b[90m│"));
}

#[test]
fn render_frame_places_plain_tabs_by_name_length() {
    let sessions = names(3);
    let rows: Vec<String> = Vec::new();
    let frame = render_frame(&sessions, 0, &rows, 40, 120, (200, 44), 5, None, false).unwrap();
    let spans: Vec<(u16, u16, u16)> = frame.tab_hits.iter().map(|h| (h.term_row, h.start_col, h.end_col)).collect();
    assert_eq!(spans, vec![(2, 1, 6), (2, 10, 15), (2, 19, 24)]);
    assert!(frame.lines[2].contains(" win1 [120x40] "));
}

#[test]
fn render_frame_matches_build_frame_strings() {
    let sessions = names(3);
    let rows = vec!["a".to_string()];
    let a = render_frame(&sessions, 1, &rows, 1, 10, (50, 20), 61, None, true).unwrap();
    let b = build_frame_strings(&sessions, 1, &rows, 1, 10, (50, 20), 61, None, true);
    assert_eq!(a.lines, b.lines);
    assert_eq!(a.tab_hits.len(), 3);
}

#[test]
fn frame_diff_writes_only_changed_rows() {
    let prev = vec!["a".to_string(), "b".to_string(), "c".to_string()];
    let new = vec!["a".to_string(), "B".to_string()];
    assert_eq!(frame_diff(false, Some(&prev), &new, "s"), "\x1b[2;1H\x1b[2KB\x1b[3;1H\x1b[J");
    assert_eq!(frame_diff(false, Some(&prev), &prev, "s"), "");
    assert_eq!(frame_diff(true, Some(&prev), &new, "s"), "\x1b[2J\x1b[H\x1b]0;tu monitor: s\x07\x1b[1;1H\x1b[2Ka\x1b[2;1H\x1b[2KB");
    assert_eq!(frame_diff(false, None, &new, "s"), "\x1b[1;1H\x1b[2Ka\x1b[2;1H\x1b[2KB");
}

#[test]
fn waiting_screen_draws_a_centred_box() {
    let s = waiting_screen(40, 10);
    assert!(s.starts_with("\x1b[H\x1b[2J\x1b[3;1H    \x1b[90m┌"));
    assert!(s.contains("\x1b[4;1H    \x1b[90m│\x1b[0m\x1b[1m         terminal-use         \x1b[0m"));
    assert!(s.contains("│   Waiting for sessions...    │"));
    assert!(s.ends_with("┘\x1b[0m"));
    // a tiny terminal still starts on row 1
    assert!(waiting_screen(10, 2).starts_with("\x1b[H\x1b[2J\x1b[1;1H\x1b[90m┌"));
}

#[test]
fn key_actions_switch_sessions() {
    let sessions = names(3);
    let (_lines, hits) = layout_tabs(&sessions, 0, 80, 2);
    assert_eq!(key_action(1, Some(Key::Left), &sessions, &hits), KeyOutcome::Switch { index: 0 });
    assert_eq!(key_action(0, Some(Key::Left), &sessions, &hits), KeyOutcome::Stay);
    assert_eq!(key_action(1, Some(Key::Right), &sessions, &hits), KeyOutcome::Switch { index: 2 });
    assert_eq!(key_action(2, Some(Key::Right), &sessions, &hits), KeyOutcome::Stay);
    assert_eq!(key_action(0, Some(Key::Click { row: 2, col: 11 }), &sessions, &hits), KeyOutcome::Switch { index: 1 });
    assert_eq!(key_action(1, Some(Key::Click { row: 2, col: 11 }), &sessions, &hits), KeyOutcome::Stay);
    assert_eq!(key_action(0, Some(Key::Click { row: 5, col: 1 }), &sessions, &hits), KeyOutcome::Stay);
    assert_eq!(key_action(0, Some(Key::Quit), &sessions, &hits), KeyOutcome::Quit);
    assert_eq!(key_action(0, None, &sessions, &hits), KeyOutcome::Stay);
}

#[test]
fn session_indexes() {
    let sessions = names(3);
    assert_eq!(initial_index(&sessions, &"win2".to_string()), 1);
    assert_eq!(initial_index(&sessions, &"nope".to_string()), 0);
    assert_eq!(clamp_index(5, 3), 2);
    assert_eq!(clamp_index(1, 3), 1);
    assert_eq!(usable_terminal_size(Some((100, 30))), (100, 30));
    assert_eq!(usable_terminal_size(Some((0, 30))), (80, 24));
    assert_eq!(usable_terminal_size(None), (80, 24));
}

#[test]
fn viewer_draws_once_then_only_changes() {
    let sessions = vec!["a".to_string(), "b".to_string()];
    let mut v = Viewer::new(0, (80, 24), 1000);
    assert!(v.fetch_due(1000));
    v.start_fetch(1000);
    assert!(!v.fetch_due(1010));
    assert!(v.fetch_due(1033));

    let rows = vec!["hello".to_string(), "world".to_string()];
    let first = v.show_screen(&sessions, rows.clone(), 2, 10, None, false, 1000).unwrap();
    assert!(first.starts_with("\x1b[2J\x1b[H\x1b]0;tu monitor: a\x07"));
    assert!(!v.needs_clear);
    assert_eq!(v.last_change_ms, 1000);

    let second = v.show_screen(&sessions, rows.clone(), 2, 10, None, false, 1500).unwrap();
    assert_eq!(second, "");
    assert_eq!(v.last_change_ms, 1000);

    let third = v.show_screen(&sessions, vec!["hello".to_string(), "there".to_string()], 2, 10, None, false, 1600);
    assert!(third.unwrap().contains("there"));
    assert_eq!(v.last_change_ms, 1600);
}

#[test]
fn viewer_keys_switch_and_quit() {
    let sessions = vec!["a".to_string(), "b".to_string()];
    let mut v = Viewer::new(0, (80, 24), 0);
    v.show_screen(&sessions, vec!["x".to_string()], 1, 5, None, false, 0);
    assert!(!v.handle_key(Some(Key::Left), &sessions));
    assert_eq!(v.current, 0);
    assert!(!v.needs_clear);
    assert!(!v.handle_key(Some(Key::Right), &sessions));
    assert_eq!(v.current, 1);
    assert!(v.needs_clear);
    assert!(v.prev_frame.is_none());
    assert!(v.fetch_due(1));
    assert!(v.handle_key(Some(Key::Quit), &sessions));
}

#[test]
fn viewer_resize_and_empty_list() {
    let mut v = Viewer::new(3, (80, 24), 0);
    v.start_fetch(0);
    v.note_terminal_size((80, 24));
    assert!(!v.fetch_due(1));
    v.note_terminal_size((100, 30));
    assert_eq!(v.term_size, (100, 30));
    assert!(v.fetch_due(1));
    v.keep_in_range(2);
    assert_eq!(v.current, 1);
    v.no_sessions();
    assert!(v.needs_clear);
    v.screen_failed();
    assert!(v.last_rows.is_none());
}
