use terminal_use::mouse_cmd::{build_optional_target, build_target, mods_to_str, TargetOpts};
use terminal_use::protocol::{MouseMods, MouseTarget};

fn empty_target() -> TargetOpts {
    TargetOpts::default()
}

#[test]
fn build_target_coords_pair() {
    let t = build_target(Some(5), Some(7), &empty_target()).unwrap();
    assert!(matches!(t, MouseTarget::Coords { col: 5, row: 7 }));
}

#[test]
fn build_target_on_text() {
    let mut opts = empty_target();
    opts.on_text = Some("Buy".into());
    let t = build_target(None, None, &opts).unwrap();
    assert!(matches!(t, MouseTarget::Text { ref needle, match_index: 0 } if needle == "Buy"));
}

#[test]
fn build_target_on_regex_with_match_index() {
    let mut opts = empty_target();
    opts.on_regex = Some(r"\d+".into());
    opts.match_index = 2;
    let t = build_target(None, None, &opts).unwrap();
    assert!(matches!(t, MouseTarget::Regex { ref pattern, match_index: 2 } if pattern == r"\d+"));
}

#[test]
fn build_target_partial_coords_errors() {
    assert!(build_target(Some(1), None, &empty_target()).is_err());
    assert!(build_target(None, Some(1), &empty_target()).is_err());
}

#[test]
fn build_target_no_input_errors() {
    assert!(build_target(None, None, &empty_target()).is_err());
}

#[test]
fn build_target_conflicting_inputs_errors() {
    let mut opts = empty_target();
    opts.on_text = Some("X".into());
    assert!(build_target(Some(1), Some(1), &opts).is_err());

    let mut opts = empty_target();
    opts.on_text = Some("X".into());
    opts.on_regex = Some("Y".into());
    assert!(build_target(None, None, &opts).is_err());
}

#[test]
fn build_optional_target_none_is_ok() {
    let t = build_optional_target(None, None, &empty_target()).unwrap();
    assert!(t.is_none());
}

#[test]
fn build_optional_target_with_coords() {
    let t = build_optional_target(Some(0), Some(0), &empty_target()).unwrap();
    assert!(matches!(t, Some(MouseTarget::Coords { col: 0, row: 0 })));
}

#[test]
fn build_target_error_messages() {
    assert_eq!(
        build_target(Some(1), None, &empty_target()).unwrap_err(),
        "provide both <col> and <row>, or neither (with --on-text / --on-regex)"
    );
    assert_eq!(
        build_target(None, None, &empty_target()).unwrap_err(),
        "no target: provide <col> <row>, --on-text, or --on-regex"
    );
    let mut opts = empty_target();
    opts.on_text = Some("X".into());
    assert_eq!(
        build_target(Some(1), Some(1), &opts).unwrap_err(),
        "specify exactly one of: positional <col> <row>, --on-text, --on-regex"
    );
}

#[test]
fn mods_to_str_lists_held_modifiers_in_order() {
    assert_eq!(mods_to_str(&MouseMods { shift: true, alt: true, ctrl: true }), "ctrl,shift,alt");
    assert_eq!(mods_to_str(&MouseMods { shift: false, alt: true, ctrl: false }), "alt");
    assert_eq!(mods_to_str(&MouseMods::default()), "");
}
