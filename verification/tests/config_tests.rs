use rustmux::config::{
    Action, canonical_key_name, normalize_mode, parse_action, parse_send_key,
    validate_scrollback_lines, validate_shell,
};

#[test]
fn key_names_are_canonicalized_without_losing_shift() {
    assert_eq!(canonical_key_name("Ctrl B").unwrap(), "ctrl b");
    assert_eq!(canonical_key_name("Escape").unwrap(), "esc");
    assert_eq!(canonical_key_name("G").unwrap(), "G");
}

#[test]
fn parameterized_actions_reject_unrelated_arguments() {
    assert_eq!(
        parse_action("switch-mode", Some("normal".to_owned()), Some(1), None).unwrap_err(),
        "switch-mode accepts only the 'mode' argument"
    );
    assert_eq!(
        parse_action(
            "send-key",
            Some("normal".to_owned()),
            None,
            Some("x".to_owned())
        )
        .unwrap_err(),
        "send-key accepts only the 'key' argument"
    );
    assert_eq!(
        parse_action("go-to-window", None, Some(1), Some("x".to_owned())).unwrap_err(),
        "go-to-window accepts only the 'index' argument"
    );
}

#[test]
fn key_names_accept_aliases_and_reject_unknown_forms() {
    assert_eq!(canonical_key_name("  PgUp ").unwrap(), "pageup");
    assert_eq!(canonical_key_name("page-down").unwrap(), "pagedown");
    assert_eq!(canonical_key_name("Return").unwrap(), "enter");
    assert_eq!(canonical_key_name("ALT é").unwrap(), "alt é");
    assert_eq!(canonical_key_name("").unwrap_err(), "key name cannot be empty");
    assert_eq!(canonical_key_name("ctrl 1").unwrap_err(), "unsupported control key 'ctrl 1'");
    assert_eq!(canonical_key_name("shift a").unwrap_err(), "unsupported key 'shift a'");
    assert_eq!(canonical_key_name("f12").unwrap_err(), "unsupported key 'f12'");
}

#[test]
fn send_key_produces_terminal_bytes() {
    assert_eq!(parse_send_key("ctrl b").unwrap(), vec![2]);
    assert_eq!(parse_send_key("alt x").unwrap(), b"\x1bx");
    assert_eq!(parse_send_key("up").unwrap(), b"\x1b[A");
    assert_eq!(parse_send_key("del").unwrap(), b"\x1b[3~");
    assert_eq!(parse_send_key("é").unwrap(), "é".as_bytes());
}

#[test]
fn actions_are_normalized_and_validated() {
    assert_eq!(parse_action(" Next_Window ", None, None, None).unwrap(), Action::NextWindow);
    assert_eq!(
        parse_action("switch-mode", Some(" Pane ".to_owned()), None, None).unwrap(),
        Action::SwitchMode("pane".to_owned())
    );
    assert_eq!(
        parse_action("send-key", None, None, Some("ctrl a".to_owned())).unwrap(),
        Action::SendKey(vec![1])
    );
    assert_eq!(parse_action("go-to-window", None, Some(3), None).unwrap(), Action::GoToWindow(3));
    assert_eq!(
        parse_action("go-to-window", None, Some(0), None).unwrap_err(),
        "go-to-window index starts at 1"
    );
    assert_eq!(
        parse_action("detach", None, Some(1), None).unwrap_err(),
        "action 'detach' does not accept arguments"
    );
    assert_eq!(parse_action("fly", None, None, None).unwrap_err(), "unknown action 'fly'");
    assert_eq!(
        parse_action("switch-mode", Some("a b".to_owned()), None, None).unwrap_err(),
        "invalid mode name 'a b'"
    );
}

#[test]
fn settings_are_range_checked() {
    assert_eq!(validate_scrollback_lines(1), Ok(1));
    assert!(validate_scrollback_lines(0).is_err());
    assert!(validate_scrollback_lines(1_000_001).is_err());
    assert_eq!(validate_shell("fish".to_owned()), Ok("fish".to_owned()));
    assert!(validate_shell("  ".to_owned()).is_err());
    assert!(validate_shell("a\0b".to_owned()).is_err());
    assert_eq!(normalize_mode("Locked").unwrap(), "locked");
}

#[test]
fn canonical_key_names_canonicalise_to_themselves() {
    for key in ["Ctrl A", " alt X ", "PgUp", "Return", "escape", "page-down", "A", "é", "del", "TAB"] {
        let canonical = canonical_key_name(key).unwrap();
        assert_eq!(canonical_key_name(&canonical), Ok(canonical.clone()));
    }
    assert_eq!(canonical_key_name("Ctrl A"), Ok("ctrl a".to_owned()));
    assert!(canonical_key_name("foo").is_err());
}

#[test]
fn action_names_parse_like_their_normalized_spelling() {
    assert_eq!(parse_action(" Next_Window ", None, None, None), Ok(Action::NextWindow));
    assert_eq!(parse_action("next-window", None, None, None), Ok(Action::NextWindow));
    assert_eq!(
        parse_action(" Switch_Mode", Some("normal".to_owned()), None, None),
        parse_action("switch-mode", Some("normal".to_owned()), None, None)
    );
    assert_eq!(parse_action(" Bogus_Name ", None, None, None), Err("unknown action ' Bogus_Name '".to_owned()));
    assert_eq!(parse_action("bogus-name", None, None, None), Err("unknown action 'bogus-name'".to_owned()));
}
