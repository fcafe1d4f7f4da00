use terminal_use::keys::{resolve_key, resolve_keys};

#[test]
fn test_basic_keys() {
    assert_eq!(resolve_key("Enter").unwrap(), b"\r");
    assert_eq!(resolve_key("enter").unwrap(), b"\r");
    assert_eq!(resolve_key("Tab").unwrap(), b"\t");
    assert_eq!(resolve_key("Escape").unwrap(), b"\x1b");
    assert_eq!(resolve_key("Space").unwrap(), b" ");
    assert_eq!(resolve_key("Backspace").unwrap(), b"\x7f");
}

#[test]
fn test_arrows() {
    assert_eq!(resolve_key("Up").unwrap(), b"\x1bOA");
    assert_eq!(resolve_key("Down").unwrap(), b"\x1bOB");
    assert_eq!(resolve_key("Right").unwrap(), b"\x1bOC");
    assert_eq!(resolve_key("Left").unwrap(), b"\x1bOD");
}

#[test]
fn test_function_keys() {
    assert_eq!(resolve_key("F1").unwrap(), b"\x1bOP");
    assert_eq!(resolve_key("F5").unwrap(), b"\x1b[15~");
    assert_eq!(resolve_key("F12").unwrap(), b"\x1b[24~");
}

#[test]
fn test_ctrl() {
    assert_eq!(resolve_key("Ctrl+C").unwrap(), vec![0x03]);
    assert_eq!(resolve_key("Ctrl+D").unwrap(), vec![0x04]);
    assert_eq!(resolve_key("Ctrl+Z").unwrap(), vec![0x1a]);
    assert_eq!(resolve_key("Ctrl+L").unwrap(), vec![0x0c]);
}

#[test]
fn test_alt() {
    assert_eq!(resolve_key("Alt+f").unwrap(), vec![0x1b, b'f']);
}

#[test]
fn test_shift_tab() {
    assert_eq!(resolve_key("Shift+Tab").unwrap(), b"\x1b[Z");
}

#[test]
fn test_modified_arrows() {
    assert_eq!(resolve_key("Shift+Up").unwrap(), b"\x1b[1;2A");
    assert_eq!(resolve_key("Ctrl+Shift+Up").unwrap(), b"\x1b[1;6A");
}

#[test]
fn test_single_char() {
    assert_eq!(resolve_key("a").unwrap(), b"a");
    assert_eq!(resolve_key("Z").unwrap(), b"Z");
    assert_eq!(resolve_key("!").unwrap(), b"!");
}

#[test]
fn test_unknown_key() {
    assert!(resolve_key("FooBar").is_err());
}

#[test]
fn test_resolve_keys_sequence() {
    let keys = vec!["Down".into(), "Down".into(), "Enter".into()];
    let result = resolve_keys(&keys).unwrap();
    assert_eq!(result, b"\x1bOB\x1bOB\r");
}

#[test]
fn resolve_keys_is_the_concatenation_of_each_key() {
    let keys: Vec<String> = vec!["Ctrl+C".into(), "a".into(), "F5".into(), "Shift+Tab".into()];
    let mut expected = Vec::new();
    for k in &keys {
        expected.extend(resolve_key(k).unwrap());
    }
    assert_eq!(resolve_keys(&keys).unwrap(), expected);
}

#[test]
fn resolve_keys_reports_the_first_unknown_name() {
    let keys: Vec<String> = vec!["Enter".into(), "Nope".into(), "Bogus".into()];
    match resolve_keys(&keys) {
        Err(terminal_use::keys::KeyError::Unknown { name }) => assert_eq!(name, "Nope"),
        other => panic!("expected an unknown-key error, got {other:?}"),
    }
}

#[test]
fn ctrl_letters_map_to_control_codes() {
    assert_eq!(resolve_key("Ctrl+A").unwrap(), vec![0x01]);
    assert_eq!(resolve_key("ctrl+a").unwrap(), vec![0x01]);
    assert_eq!(resolve_key("Ctrl+Alt+Up").unwrap(), b"\x1b[1;7A");
    assert_eq!(resolve_key("Alt+Enter").unwrap(), vec![0x1b, 0x0d]);
    assert!(resolve_key("Ctrl+Alt+A").is_err());
}

#[test]
fn unknown_key_message_lists_valid_keys() {
    let err = resolve_key("Nope").unwrap_err();
    assert_eq!(
        err.message(),
        "Unknown key: \"Nope\". Valid keys: Enter, Tab, Escape, Space, Backspace, Delete, Insert, \
         Up, Down, Left, Right, Home, End, PageUp, PageDown, F1-F12, \
         Ctrl+<key>, Alt+<key>, Shift+<key>"
    );
}
