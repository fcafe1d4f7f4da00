use terminal_use::actions::{build_events, pick_match, plan_mouse_request};
use terminal_use::mouse::{ScreenMatch, WireEvent};
use terminal_use::protocol::{
    CursorPos, MouseAction, MouseButton, MouseEncoding, MouseEventKind, MouseMode, MouseTarget, ScrollDir, TermSize,
};
use terminal_use::session::{update_tracker, MouseTracker};

fn coords(col: u16, row: u16) -> MouseTarget {
    MouseTarget::Coords { col, row }
}

/// Cells strictly between two ends of a drag, stepping along the longer axis.
fn interpolate(c1: u16, r1: u16, c2: u16, r2: u16) -> Vec<(u16, u16)> {
    let dx = (c2 as i32 - c1 as i32).abs();
    let dy = (r2 as i32 - r1 as i32).abs();
    let steps = dx.max(dy);
    if steps <= 1 {
        return Vec::new();
    }
    let mut out = Vec::new();
    for i in 1..steps {
        let t = i as f64 / steps as f64;
        let col = (c1 as f64 + (c2 as f64 - c1 as f64) * t).round() as u16;
        let row = (r1 as f64 + (r2 as f64 - r1 as f64) * t).round() as u16;
        out.push((col, row));
    }
    out
}

#[test]
fn build_click_emits_down_up() {
    let action = MouseAction::Click { target: coords(5, 5), button: MouseButton::Left, mods: Default::default(), clicks: 1 };
    let resolve = |t: &MouseTarget| match t {
        MouseTarget::Coords { col, row } => Ok((*col, *row)),
        _ => Err("nope".into()),
    };
    let evs = build_events(&action, &resolve, MouseMode::PressRelease, &interpolate).unwrap();
    assert_eq!(evs.len(), 2);
    assert!(matches!(evs[0], WireEvent::Down { .. }));
    assert!(matches!(evs[1], WireEvent::Up { .. }));
}

#[test]
fn build_double_click_clicks_2_emits_4_events() {
    let action = MouseAction::Click { target: coords(0, 0), button: MouseButton::Left, mods: Default::default(), clicks: 2 };
    let resolve = |t: &MouseTarget| match t {
        MouseTarget::Coords { col, row } => Ok((*col, *row)),
        _ => Err("nope".into()),
    };
    let evs = build_events(&action, &resolve, MouseMode::PressRelease, &interpolate).unwrap();
    assert_eq!(evs.len(), 4);
}

#[test]
fn build_drag_emits_down_path_up() {
    let action = MouseAction::Drag { from: coords(0, 0), to: coords(5, 0), button: MouseButton::Left, mods: Default::default() };
    let resolve = |t: &MouseTarget| match t {
        MouseTarget::Coords { col, row } => Ok((*col, *row)),
        _ => Err("nope".into()),
    };
    let evs = build_events(&action, &resolve, MouseMode::ButtonMotion, &interpolate).unwrap();
    // Down + 4 intermediate (cols 1..=4) + Up
    assert_eq!(evs.len(), 6);
    assert!(matches!(evs[0], WireEvent::Down { col: 0, row: 0, .. }));
    assert!(matches!(evs[5], WireEvent::Up { col: 5, row: 0, .. }));
    for ev in &evs[1..5] {
        assert!(matches!(ev, WireEvent::DragMove { .. }));
    }
}

#[test]
fn build_move_rejected_when_mode_lacks_motion() {
    let action = MouseAction::Move { target: coords(0, 0), mods: Default::default() };
    let resolve = |_: &MouseTarget| Ok((0, 0));
    let err = build_events(&action, &resolve, MouseMode::PressRelease, &interpolate).unwrap_err();
    assert!(err.contains("does not report bare motion"));
}

#[test]
fn build_scroll_amount_replicates() {
    let action = MouseAction::Scroll { target: None, dir: ScrollDir::Down, amount: 5, mods: Default::default() };
    let resolve = |_: &MouseTarget| Ok((0, 0));
    let evs = build_events(&action, &resolve, MouseMode::PressRelease, &interpolate).unwrap();
    assert_eq!(evs.len(), 5);
}

#[test]
fn build_events_passes_resolution_errors_through() {
    let action = MouseAction::Down { target: coords(1, 1), button: MouseButton::Left, mods: Default::default() };
    let resolve = |_: &MouseTarget| Err("no such cell".to_string());
    assert_eq!(build_events(&action, &resolve, MouseMode::AnyMotion, &interpolate).unwrap_err(), "no such cell");
}

fn ev_down(col: u16, row: u16, button: MouseButton) -> WireEvent {
    WireEvent::Down { col, row, button, mods: Default::default() }
}
fn ev_up(col: u16, row: u16, button: MouseButton) -> WireEvent {
    WireEvent::Up { col, row, button, mods: Default::default() }
}

#[test]
fn tracker_down_records_position_and_held_button() {
    let mut t = MouseTracker::default();
    update_tracker(&mut t, &[ev_down(10, 5, MouseButton::Left)]);
    assert_eq!(t.cursor, Some(CursorPos { row: 5, col: 10 }));
    assert_eq!(t.buttons_held, vec![MouseButton::Left]);
    let last = t.last_event.as_ref().unwrap();
    assert_eq!(last.kind, MouseEventKind::Down);
    assert_eq!(last.col, 10);
    assert_eq!(last.row, 5);
}

#[test]
fn tracker_up_releases_button_keeps_cursor() {
    let mut t = MouseTracker::default();
    update_tracker(&mut t, &[ev_down(10, 5, MouseButton::Left), ev_up(11, 5, MouseButton::Left)]);
    assert!(t.buttons_held.is_empty());
    assert_eq!(t.cursor, Some(CursorPos { row: 5, col: 11 }));
}

#[test]
fn tracker_click_leaves_no_held_buttons() {
    let mut t = MouseTracker::default();
    update_tracker(&mut t, &[ev_down(0, 0, MouseButton::Left), ev_up(0, 0, MouseButton::Left)]);
    assert!(t.buttons_held.is_empty());
}

#[test]
fn tracker_drag_ends_clean() {
    let mut t = MouseTracker::default();
    let evs = vec![
        ev_down(0, 0, MouseButton::Left),
        WireEvent::DragMove { col: 1, row: 0, button: MouseButton::Left, mods: Default::default() },
        WireEvent::DragMove { col: 2, row: 0, button: MouseButton::Left, mods: Default::default() },
        ev_up(3, 0, MouseButton::Left),
    ];
    update_tracker(&mut t, &evs);
    assert!(t.buttons_held.is_empty());
    assert_eq!(t.cursor, Some(CursorPos { row: 0, col: 3 }));
    let last = t.last_event.as_ref().unwrap();
    assert_eq!(last.kind, MouseEventKind::Up);
}

#[test]
fn tracker_two_buttons_held_in_order() {
    let mut t = MouseTracker::default();
    update_tracker(&mut t, &[ev_down(0, 0, MouseButton::Left), ev_down(0, 0, MouseButton::Right)]);
    assert_eq!(t.buttons_held, vec![MouseButton::Left, MouseButton::Right]);
    update_tracker(&mut t, &[ev_up(0, 0, MouseButton::Left)]);
    assert_eq!(t.buttons_held, vec![MouseButton::Right]);
}

#[test]
fn tracker_double_down_does_not_dup() {
    let mut t = MouseTracker::default();
    update_tracker(&mut t, &[ev_down(0, 0, MouseButton::Left), ev_down(1, 0, MouseButton::Left)]);
    assert_eq!(t.buttons_held, vec![MouseButton::Left]);
}

#[test]
fn tracker_scroll_does_not_move_cursor() {
    let mut t = MouseTracker::default();
    update_tracker(&mut t, &[ev_down(20, 10, MouseButton::Left)]);
    update_tracker(&mut t, &[ev_up(20, 10, MouseButton::Left)]);
    let cursor_before = t.cursor;
    update_tracker(&mut t, &[WireEvent::Scroll { col: 0, row: 0, dir: ScrollDir::Down, mods: Default::default() }]);
    assert_eq!(t.cursor, cursor_before);
    assert_eq!(t.last_event.as_ref().unwrap().kind, MouseEventKind::Scroll);
}

#[test]
fn tracker_clamp_clears_cursor_when_out_of_bounds() {
    let mut t = MouseTracker { cursor: Some(CursorPos { row: 30, col: 90 }), ..Default::default() };
    t.clamp_to_size(&TermSize { cols: 80, rows: 24 });
    assert!(t.cursor.is_none());
}

#[test]
fn tracker_clamp_keeps_cursor_when_in_bounds() {
    let mut t = MouseTracker { cursor: Some(CursorPos { row: 10, col: 50 }), ..Default::default() };
    t.clamp_to_size(&TermSize { cols: 80, rows: 24 });
    assert_eq!(t.cursor, Some(CursorPos { row: 10, col: 50 }));
}

#[test]
fn pick_match_disambiguation() {
    let hits = vec![
        ScreenMatch { row: 0, col_start: 0, col_end: 3 },
        ScreenMatch { row: 1, col_start: 4, col_end: 6 },
    ];
    assert_eq!(pick_match(&hits, 0, "x").unwrap(), (1, 0));
    assert_eq!(pick_match(&hits, 1, "x").unwrap(), (5, 1));
    assert!(pick_match(&hits, 5, "x").is_err());
    assert!(pick_match(&[], 0, "x").is_err());
}

#[test]
fn tracker_release_of_unheld_button_changes_nothing_held() {
    let mut t = MouseTracker::default();
    update_tracker(&mut t, &[ev_down(1, 1, MouseButton::Left)]);
    t.release(MouseButton::Right);
    assert_eq!(t.buttons_held, vec![MouseButton::Left]);
}

#[test]
fn tracker_press_then_release_restores_held_set() {
    let mut t = MouseTracker::default();
    t.press(MouseButton::Middle);
    let before = t.buttons_held.clone();
    t.press(MouseButton::Right);
    t.release(MouseButton::Right);
    assert_eq!(t.buttons_held, before);
}

fn screen() -> Vec<String> {
    vec!["hello world".to_string(), "  OK  ".to_string()]
}

#[test]
fn mouse_request_without_reporting_is_refused() {
    let action = MouseAction::Click { target: coords(1, 1), button: MouseButton::Left, mods: Default::default(), clicks: 1 };
    let err = plan_mouse_request("s", &action, false, MouseMode::Off, MouseEncoding::Sgr, 20, 2, &screen(), Some((0, 0)), &interpolate)
        .err()
        .unwrap();
    assert_eq!(
        err,
        "session \"s\" has not enabled mouse reporting (DECSET 1000/1002/1006). Use --force to send raw bytes anyway."
    );
    let forced = plan_mouse_request("s", &action, true, MouseMode::Off, MouseEncoding::Sgr, 20, 2, &screen(), None, &interpolate);
    assert!(forced.is_ok());
}

#[test]
fn mouse_request_with_unresolved_target_is_refused_before_gliding() {
    let action = MouseAction::Down { target: coords(30, 1), button: MouseButton::Left, mods: Default::default() };
    let err = plan_mouse_request("s", &action, false, MouseMode::AnyMotion, MouseEncoding::Sgr, 20, 2, &screen(), Some((0, 0)), &interpolate)
        .err()
        .unwrap();
    assert_eq!(err, "coords (30,1) out of bounds (terminal is 20x2)");
}

#[test]
fn mouse_click_glides_then_writes_its_events() {
    let target = MouseTarget::Text { needle: "OK".to_string(), match_index: 0 };
    let action = MouseAction::Click { target, button: MouseButton::Left, mods: Default::default(), clicks: 1 };
    let plan = plan_mouse_request("s", &action, false, MouseMode::PressRelease, MouseEncoding::Sgr, 20, 2, &screen(), Some((0, 0)), &interpolate)
        .unwrap();
    assert_eq!(plan.glide, Some(((0, 0), (3, 1))));
    let (events, bytes) = plan.write.unwrap().unwrap();
    assert_eq!(events.len(), 2);
    assert_eq!(bytes, b"\x1b[<0;4;2M\x1b[<0;4;2m".to_vec());
}

#[test]
fn mouse_move_glides_and_writes_nothing_more() {
    let action = MouseAction::Move { target: coords(4, 0), mods: Default::default() };
    let plan = plan_mouse_request("s", &action, false, MouseMode::PressRelease, MouseEncoding::Sgr, 20, 2, &screen(), Some((1, 0)), &interpolate)
        .unwrap();
    assert_eq!(plan.glide, Some(((1, 0), (4, 0))));
    assert_eq!(plan.write, Ok(None));
    let still = plan_mouse_request("s", &action, false, MouseMode::PressRelease, MouseEncoding::Sgr, 20, 2, &screen(), Some((4, 0)), &interpolate)
        .unwrap();
    assert_eq!(still.glide, None);
}

#[test]
fn mouse_drag_to_a_missing_end_fails_after_the_glide() {
    let action = MouseAction::Drag {
        from: coords(0, 0),
        to: MouseTarget::Text { needle: "absent".to_string(), match_index: 0 },
        button: MouseButton::Left,
        mods: Default::default(),
    };
    let plan = plan_mouse_request("s", &action, false, MouseMode::ButtonMotion, MouseEncoding::Sgr, 20, 2, &screen(), Some((3, 1)), &interpolate)
        .unwrap();
    assert_eq!(plan.glide, Some(((3, 1), (0, 0))));
    assert_eq!(plan.write.unwrap_err(), "no match for text \"absent\" on visible screen");
}

#[test]
fn mouse_scroll_does_not_glide() {
    let action = MouseAction::Scroll { target: None, dir: ScrollDir::Down, amount: 2, mods: Default::default() };
    let plan = plan_mouse_request("s", &action, false, MouseMode::PressRelease, MouseEncoding::Sgr, 20, 2, &screen(), Some((3, 1)), &interpolate)
        .unwrap();
    assert_eq!(plan.glide, None);
    let (events, _bytes) = plan.write.unwrap().unwrap();
    assert_eq!(events.len(), 2);
}

#[test]
fn mouse_encoding_error_is_reported_after_the_glide() {
    let action = MouseAction::Click { target: coords(300, 0), button: MouseButton::Left, mods: Default::default(), clicks: 1 };
    let plan = plan_mouse_request("s", &action, false, MouseMode::PressRelease, MouseEncoding::Default, 400, 2, &[], None, &interpolate)
        .unwrap();
    assert_eq!(plan.glide, None);
    assert!(plan.write.unwrap_err().starts_with("encode mouse events: legacy mouse encoding cannot represent col=300"));
}
