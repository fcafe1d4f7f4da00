use terminal_use::emu::{
    cell_from_raw, contents, contents_formatted, cursor_position, mouse_protocol_encoding, mouse_protocol_mode,
    push_bg_sgr, push_fg_sgr, text_rows, Cell, Color, MouseProtocolEncoding, MouseProtocolMode, RawCell, TermColor,
};
use terminal_use::server::text_from_rows;
use terminal_use::emu::screenshot_cells;
use terminal_use::session::{child_status, scrollback_tail, screenshot_text, WaitOutcome};

fn plain(s: &str) -> Cell {
    Cell::new(s.to_string(), Color::Default, Color::Default, false, false, false, false, false)
}

fn raw(c: char, flags: u16) -> RawCell {
    RawCell { c, flags, zerowidth: Vec::new(), fg: TermColor::Named(256), bg: TermColor::Named(257) }
}

#[test]
fn sgr_color_parameters() {
    let mut v = Vec::new();
    push_fg_sgr(&mut v, Color::Idx(1));
    push_fg_sgr(&mut v, Color::Idx(9));
    push_fg_sgr(&mut v, Color::Idx(200));
    push_fg_sgr(&mut v, Color::Rgb(1, 2, 3));
    push_fg_sgr(&mut v, Color::Default);
    assert_eq!(v.iter().collect::<String>(), ";31;91;38;5;200;38;2;1;2;3");
    let mut w = Vec::new();
    push_bg_sgr(&mut w, Color::Idx(0));
    push_bg_sgr(&mut w, Color::Idx(15));
    push_bg_sgr(&mut w, Color::Idx(16));
    push_bg_sgr(&mut w, Color::Rgb(9, 8, 7));
    assert_eq!(w.iter().collect::<String>(), ";40;107;48;5;16;48;2;9;8;7");
}

#[test]
fn screenshot_cells_emits_sgr_only_on_change() {
    let red = Cell::new("A".into(), Color::Idx(1), Color::Default, true, false, false, false, false);
    let red2 = Cell::new("B".into(), Color::Idx(1), Color::Default, true, false, false, false, false);
    let grid = vec![vec![red, red2, plain("")], vec![plain("x")]];
    let rows = screenshot_cells(&grid);
    assert_eq!(rows, vec!["\x1b[0;1;31mAB\x1b[0m \x1b[0m".to_string(), "x\x1b[0m".to_string()]);
}

#[test]
fn contents_formatted_redraws_the_screen() {
    let italic = Cell::new("i".into(), Color::Default, Color::Idx(4), false, true, false, false, false);
    let wide = Cell::new("日".into(), Color::Default, Color::Default, false, false, false, false, false);
    let spacer = Cell::new("".into(), Color::Default, Color::Default, false, false, false, false, true);
    let grid = vec![vec![italic], vec![wide, spacer]];
    let bytes = contents_formatted(&grid);
    assert_eq!(String::from_utf8(bytes).unwrap(), "\x1b[2J\x1b[H\x1b[0;3;44mi\r\n\x1b[0m日\x1b[0m");
}

#[test]
fn text_rows_give_one_character_per_column() {
    let wide = Cell::new("日".into(), Color::Default, Color::Default, false, false, false, false, false);
    let spacer = Cell::new("".into(), Color::Default, Color::Default, false, false, false, false, true);
    let grid = vec![vec![wide, spacer, plain(""), plain("a")]];
    assert_eq!(text_rows(&grid), vec!["日  a".to_string()]);
}

#[test]
fn screenshot_text_trims_rows_and_blank_bottom() {
    let grid = vec![
        vec![plain("a"), plain(""), plain("b"), plain("")],
        vec![plain(""), plain("")],
        vec![plain("c")],
        vec![plain(""), plain("")],
        vec![plain("")],
    ];
    assert_eq!(screenshot_text(&grid), "a b\n\nc");
}

#[test]
fn text_from_rows_matches_screenshot_rules() {
    let rows = vec!["ab  ".to_string(), "   ".to_string(), "c".to_string(), "".to_string()];
    assert_eq!(text_from_rows(&rows), "ab\n\nc");
    assert_eq!(text_from_rows(&["  ".to_string()]), "");
}

#[test]
fn plain_contents_skip_spacers_and_trim() {
    let mut accent = raw('e', 0);
    accent.zerowidth = vec!['\u{301}'];
    let lines = vec![
        vec![raw('h', 0), raw('i', 0), raw(' ', 0), raw(' ', 0)],
        vec![raw('日', 0x20), raw(' ', 0x40), accent],
        vec![raw(' ', 0)],
    ];
    assert_eq!(contents(&lines), "hi\n日e\u{301}\n");
}

#[test]
fn cells_from_the_emulator() {
    let mut c = raw(' ', 0x0001 | 0x1000);
    c.fg = TermColor::Indexed(3);
    c.bg = TermColor::Spec(1, 2, 3);
    let cell = cell_from_raw(&c);
    assert_eq!(cell.contents(), "");
    assert!(cell.inverse() && cell.underline() && !cell.bold());
    assert_eq!(cell.fgcolor(), Color::Idx(3));
    assert_eq!(cell.bgcolor(), Color::Rgb(1, 2, 3));
    let wide_space = cell_from_raw(&raw(' ', 0x20));
    assert_eq!(wide_space.contents(), " ");
    assert_eq!(Color::from_term_color(TermColor::Named(256)), Color::Default);
    assert_eq!(Color::from_term_color(TermColor::Named(9)), Color::Idx(9));
    assert_eq!(Color::from_term_color(TermColor::Named(259)), Color::Idx(3));
}

#[test]
fn mouse_modes_from_mode_bits() {
    assert_eq!(mouse_protocol_mode(0), MouseProtocolMode::Off);
    assert_eq!(mouse_protocol_mode(0x0008), MouseProtocolMode::PressRelease);
    assert_eq!(mouse_protocol_mode(0x0008 | 0x2000), MouseProtocolMode::ButtonMotion);
    assert_eq!(mouse_protocol_mode(0x0008 | 0x2000 | 0x0040), MouseProtocolMode::AnyMotion);
    assert_eq!(mouse_protocol_encoding(0x0020 | 0x4000), MouseProtocolEncoding::Sgr);
    assert_eq!(mouse_protocol_encoding(0x4000), MouseProtocolEncoding::Utf8);
    assert_eq!(mouse_protocol_encoding(0), MouseProtocolEncoding::Default);
}

#[test]
fn cursor_is_clamped_to_the_screen() {
    assert_eq!(cursor_position(1, 3, 3, 10), (1, 3));
    assert_eq!(cursor_position(-4, 3, 3, 10), (0, 3));
    assert_eq!(cursor_position(7, 30, 3, 10), (2, 9));
}

#[test]
fn scrollback_keeps_the_last_lines() {
    let full = "one\r\ntwo\nthree\n";
    assert_eq!(scrollback_tail(full, None), full);
    assert_eq!(scrollback_tail(full, Some(2)), "two\nthree");
    assert_eq!(scrollback_tail(full, Some(10)), "one\ntwo\nthree");
    assert_eq!(scrollback_tail(full, Some(0)), "");
    assert_eq!(scrollback_tail("a\n\nb\r", Some(3)), "a\n\nb\r");
}

#[test]
fn child_status_after_a_wait() {
    assert_eq!(child_status(true, None, WaitOutcome::StillAlive), (true, None));
    assert_eq!(child_status(true, None, WaitOutcome::Exited { code: 3 }), (false, Some(3)));
    assert_eq!(child_status(true, None, WaitOutcome::Signaled { signal: 9 }), (false, Some(137)));
    assert_eq!(child_status(true, None, WaitOutcome::Signaled { signal: 15 }), (false, Some(143)));
    assert_eq!(child_status(true, None, WaitOutcome::Other), (true, None));
    assert_eq!(child_status(true, None, WaitOutcome::Failed), (false, None));
    assert_eq!(child_status(false, Some(0), WaitOutcome::Exited { code: 5 }), (false, Some(0)));
}

#[test]
fn text_rows_keep_one_character_for_a_combining_cell() {
    let grid = vec![vec![plain("e\u{301}"), plain("x")]];
    let rows = text_rows(&grid);
    assert_eq!(rows, vec!["ex".to_string()]);
    assert_eq!(rows[0].chars().count(), 2);
}
