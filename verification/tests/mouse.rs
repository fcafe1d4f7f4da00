use terminal_use::mouse::{encode, find_regex, find_text, parse_button, parse_mods, parse_scroll_dir, ScreenMatch, WireEvent};
use terminal_use::protocol::{MouseButton, MouseEncoding, MouseMods, ScrollDir};

fn dn(col: u16, row: u16) -> WireEvent {
    WireEvent::Down { col, row, button: MouseButton::Left, mods: MouseMods::default() }
}
fn up(col: u16, row: u16) -> WireEvent {
    WireEvent::Up { col, row, button: MouseButton::Left, mods: MouseMods::default() }
}

#[test]
fn sgr_left_click_press_then_release() {
    let bytes = encode(&[dn(49, 19), up(49, 19)], MouseEncoding::Sgr).unwrap();
    // 0-based 49,19 → 1-based 50,20. Left = 0.
    assert_eq!(bytes, b"\x1b[<0;50;20M\x1b[<0;50;20m");
}

#[test]
fn sgr_right_button_with_ctrl_shift() {
    let ev = WireEvent::Down {
        col: 0,
        row: 0,
        button: MouseButton::Right,
        mods: MouseMods { shift: true, alt: false, ctrl: true },
    };
    // right=2, shift=4, ctrl=16 → 22; coords 1,1 (1-based)
    let bytes = encode(&[ev], MouseEncoding::Sgr).unwrap();
    assert_eq!(bytes, b"\x1b[<22;1;1M");
}

#[test]
fn sgr_middle_button() {
    let ev = WireEvent::Down { col: 9, row: 4, button: MouseButton::Middle, mods: MouseMods::default() };
    let bytes = encode(&[ev], MouseEncoding::Sgr).unwrap();
    assert_eq!(bytes, b"\x1b[<1;10;5M");
}

#[test]
fn sgr_drag_move_sets_motion_bit() {
    let ev = WireEvent::DragMove { col: 4, row: 4, button: MouseButton::Left, mods: MouseMods::default() };
    // motion(32) | left(0) = 32
    let bytes = encode(&[ev], MouseEncoding::Sgr).unwrap();
    assert_eq!(bytes, b"\x1b[<32;5;5M");
}

#[test]
fn sgr_bare_move_uses_button_3() {
    let ev = WireEvent::Move { col: 0, row: 0, mods: MouseMods::default() };
    // motion(32) | nobutton(3) = 35
    let bytes = encode(&[ev], MouseEncoding::Sgr).unwrap();
    assert_eq!(bytes, b"\x1b[<35;1;1M");
}

#[test]
fn sgr_scroll_directions() {
    let mk = |dir| WireEvent::Scroll { col: 0, row: 0, dir, mods: MouseMods::default() };
    let up = encode(&[mk(ScrollDir::Up)], MouseEncoding::Sgr).unwrap();
    let down = encode(&[mk(ScrollDir::Down)], MouseEncoding::Sgr).unwrap();
    let left = encode(&[mk(ScrollDir::Left)], MouseEncoding::Sgr).unwrap();
    let right = encode(&[mk(ScrollDir::Right)], MouseEncoding::Sgr).unwrap();
    assert_eq!(up, b"\x1b[<64;1;1M");
    assert_eq!(down, b"\x1b[<65;1;1M");
    assert_eq!(left, b"\x1b[<66;1;1M");
    assert_eq!(right, b"\x1b[<67;1;1M");
}

#[test]
fn default_legacy_encoding_press() {
    let bytes = encode(&[dn(0, 0)], MouseEncoding::Default).unwrap();
    // Cb=0+32=32 (' '), Cx=1+32=33 ('!'), Cy=1+32=33 ('!')
    assert_eq!(bytes, b"\x1b[M !!");
}

#[test]
fn default_legacy_release_uses_button_3() {
    let bytes = encode(&[up(0, 0)], MouseEncoding::Default).unwrap();
    // Cb = 3 + 32 = 35 ('#')
    assert_eq!(bytes, b"\x1b[M#!!");
}

#[test]
fn default_encoding_rejects_overflow() {
    let err = encode(&[dn(300, 0)], MouseEncoding::Default).unwrap_err();
    assert!(err.message().contains("legacy"));
}

#[test]
fn utf8_encoding_handles_high_coords() {
    // col=300 → 301 → 333 codepoint; just round-trip the bytes.
    let bytes = encode(&[dn(300, 0)], MouseEncoding::Utf8).unwrap();
    assert!(bytes.starts_with(b"\x1b[M "));
    let mut buf = [0u8; 4];
    let cx_bytes = char::from_u32(333).unwrap().encode_utf8(&mut buf).len();
    assert_eq!(&bytes[4..4 + cx_bytes], char::from_u32(333).unwrap().to_string().as_bytes());
    assert_eq!(bytes[4 + cx_bytes], b'!');
}

#[test]
fn parse_mods_accepts_known_combos() {
    assert_eq!(parse_mods("").unwrap(), MouseMods::default());
    let m = parse_mods("Ctrl,Shift").unwrap();
    assert!(m.ctrl && m.shift && !m.alt);
    let m = parse_mods("alt").unwrap();
    assert!(m.alt);
    let m = parse_mods("CTRL, ALT , SHIFT").unwrap();
    assert!(m.ctrl && m.alt && m.shift);
}

#[test]
fn parse_mods_rejects_unknown() {
    assert!(parse_mods("Hyper").is_err());
    assert!(parse_mods("super").is_err());
    assert!(parse_mods("foobar").is_err());
}

#[test]
fn parse_button_variants() {
    assert_eq!(parse_button("left").unwrap(), MouseButton::Left);
    assert_eq!(parse_button("RIGHT").unwrap(), MouseButton::Right);
    assert_eq!(parse_button("Middle").unwrap(), MouseButton::Middle);
    assert!(parse_button("foo").is_err());
}

#[test]
fn screen_match_center_handles_odd_and_even_widths() {
    assert_eq!(ScreenMatch { row: 3, col_start: 10, col_end: 13 }.center(), (11, 3));
    // even: 10..14 (length 4) → midpoint at 10 + 4/2 = 12
    assert_eq!(ScreenMatch { row: 3, col_start: 10, col_end: 14 }.center(), (12, 3));
}

#[test]
fn find_text_basic() {
    let rows = vec!["  Buy upgrade  ".to_string(), "no match here".to_string(), "  Buy upgrade".to_string()];
    let hits = find_text(&rows, "Buy upgrade");
    assert_eq!(hits.len(), 2);
    assert_eq!(hits[0].row, 0);
    assert_eq!(hits[0].col_start, 2);
    assert_eq!(hits[0].col_end, 13);
    assert_eq!(hits[1].row, 2);
}

#[test]
fn find_text_overlapping_does_not_loop() {
    let rows = vec!["aaaa".to_string()];
    let hits = find_text(&rows, "aa");
    // Non-overlapping at byte offsets 0, 2.
    assert_eq!(hits.len(), 2);
}

#[test]
fn find_text_empty_needle_returns_empty() {
    let rows = vec!["hello".to_string()];
    assert!(find_text(&rows, "").is_empty());
}

#[test]
fn find_regex_extracts_matches_per_line() {
    let rows = vec!["Buy 10 carrots".to_string(), "Buy 250 turnips".to_string(), "Sell 5".to_string()];
    let hits = find_regex(&rows, r"Buy\s+\d+").unwrap();
    assert_eq!(hits.len(), 2);
    assert_eq!(hits[0].col_start, 0);
    assert_eq!(hits[1].row, 1);
}

#[test]
fn find_regex_rejects_a_bad_pattern_with_its_text() {
    let rows = vec!["abc".to_string()];
    let err = find_regex(&rows, "(").unwrap_err();
    assert_eq!(err.pattern, "(");
    assert!(err.message().starts_with("invalid regex \"(\": "));
}

#[test]
fn find_text_counts_columns_not_bytes() {
    let rows = vec!["日本 OK".to_string()];
    let hits = find_text(&rows, "OK");
    assert_eq!(hits.len(), 1);
    assert_eq!((hits[0].col_start, hits[0].col_end), (3, 5));
}

#[test]
fn parse_mods_error_messages() {
    assert_eq!(
        parse_mods("super").unwrap_err().message(),
        "modifier \"super\" is not representable in the xterm mouse protocol (only Ctrl, Shift, Alt are supported)"
    );
    assert_eq!(parse_mods("foobar").unwrap_err().message(), "unknown modifier \"foobar\". Valid: Ctrl, Shift, Alt");
}

#[test]
fn parse_scroll_dir_variants() {
    assert_eq!(parse_scroll_dir("UP").unwrap(), ScrollDir::Up);
    assert_eq!(parse_scroll_dir("left").unwrap(), ScrollDir::Left);
    assert!(parse_scroll_dir("sideways").is_err());
}

#[test]
fn utf8_encoding_of_ordinary_coords_matches_legacy() {
    let legacy = encode(&[dn(10, 20)], MouseEncoding::Default).unwrap();
    let utf8 = encode(&[dn(10, 20)], MouseEncoding::Utf8).unwrap();
    assert_eq!(legacy, utf8);
}

#[test]
fn legacy_encoding_error_message() {
    let err = encode(&[dn(300, 0)], MouseEncoding::Default).unwrap_err();
    assert_eq!(
        err.message(),
        "legacy mouse encoding cannot represent col=300 row=0 (max 223). The inner app should enable SGR (DECSET 1006)."
    );
}

#[test]
fn text_matches_are_occurrences_with_center_inside() {
    let rows = vec!["[ OK ]  [ Cancel ]".to_string(), "OKOK".to_string(), "".to_string()];
    let hits = find_text(&rows, "OK");
    assert_eq!(hits.len(), 3);
    for m in &hits {
        let line: Vec<char> = rows[m.row as usize].chars().collect();
        let found: String = line[m.col_start as usize..m.col_end as usize].iter().collect();
        assert_eq!(found, "OK");
        let (col, row) = m.center();
        assert_eq!(row, m.row);
        assert!(m.col_start <= col && col < m.col_end);
    }
}
