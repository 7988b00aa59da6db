use std::path::PathBuf;

use rustmux::app::{
    InternalDndBridge, RenameEdit, TextSelection, default_session_selection, edit_window_name,
    kitty_dnd_data_response, matching_history_lines, matching_session_info, mime_types,
    preferred_spawn_directory, selection_contains,
};
use rustmux::input::{DecodedKey, MousePosition, decode_key};
use rustmux::session::SessionInfo;

#[test]
fn yazi_directory_overrides_stale_terminal_directory() {
    let shell_directory = PathBuf::from("/shell/directory");
    let foreground = PathBuf::from("/yazi/directory");

    assert_eq!(
        preferred_spawn_directory(
            Some(shell_directory.clone()),
            Some("yazi"),
            Some(foreground.clone())
        ),
        Some(foreground)
    );
    assert_eq!(
        preferred_spawn_directory(
            Some(shell_directory.clone()),
            Some("nvim"),
            Some(PathBuf::from("/editor/directory"))
        ),
        Some(shell_directory.clone())
    );
    assert_eq!(
        preferred_spawn_directory(Some(shell_directory.clone()), Some("yazi"), None),
        Some(shell_directory)
    );
}

#[test]
fn directory_falls_back_to_process_without_shell_integration() {
    let directory = PathBuf::from("/workspace");
    assert_eq!(
        preferred_spawn_directory(None, Some("sh"), Some(directory.clone())),
        Some(directory)
    );
    assert_eq!(preferred_spawn_directory(None, None, None), None);
}

#[test]
fn selection_must_span_multiple_cells_before_copying() {
    let single_cell = TextSelection {
        window_id: 9,
        start: MousePosition { column: 2, row: 1 },
        end: MousePosition { column: 2, row: 1 },
        keyboard: false,
    };
    let multiple_cells = TextSelection {
        end: MousePosition { column: 3, row: 1 },
        ..single_cell
    };

    assert!(!single_cell.spans_multiple_cells());
    assert!(multiple_cells.spans_multiple_cells());
    assert!(!selection_contains(Some(&single_cell), 9, 1, 2, 5));
    assert!(selection_contains(Some(&multiple_cells), 9, 1, 2, 5));
    assert!(selection_contains(Some(&multiple_cells), 9, 1, 3, 5));

    let keyboard_cell = TextSelection {
        keyboard: true,
        ..single_cell
    };
    assert!(keyboard_cell.is_visible());
    assert!(selection_contains(Some(&keyboard_cell), 9, 1, 2, 5));
}

#[test]
fn history_search_matches_lines_case_insensitively() {
    let lines = vec![
        "cargo check".to_owned(),
        "Finished release".to_owned(),
        "cargo test".to_owned(),
    ];
    assert_eq!(matching_history_lines(&lines, "CARGO"), vec![0, 2]);
    assert!(matching_history_lines(&lines, "").is_empty());
}

#[test]
fn session_manager_searches_case_insensitively() {
    let sessions = ["alpha", "Personal", "work"].map(|name| SessionInfo {
        name: name.to_owned(),
        tabs: 1,
        panes: 1,
        connected: false,
        created_at: 1,
        last_connected_at: 1,
        saved: false,
    });
    assert_eq!(matching_session_info(&sessions, "son")[0].name, "Personal");
    assert_eq!(matching_session_info(&sessions, "W")[0].name, "work");
    assert!(matching_session_info(&sessions, "new").is_empty());
}

#[test]
fn internal_dnd_bridge_serves_yazi_uri_list_to_another_pane() {
    let mut bridge = InternalDndBridge::default();
    bridge.begin_source(1, b"text/uri-list text/plain");
    bridge.cache_pre_sent_data(1, Some(0), false, b"ZmlsZTovLy90bXAvYQ==");
    bridge.begin_target(2, b"text/uri-list");

    assert!(bridge.routes_response_to_source(2, Some('m')));
    assert!(bridge.routes_response_to_source(2, Some('r')));
    assert!(!bridge.routes_response_to_source(1, Some('m')));
    assert_eq!(
        bridge.data_response(2, 1).unwrap(),
        b"\x1b]72;t=r:x=1:m=1;ZmlsZTovLy90bXAvYQ==\x1b\\\x1b]72;t=r:x=1:m=0;\x1b\\"
    );
    assert!(bridge.data_response(1, 1).is_none());
}

#[test]
fn internal_dnd_bridge_matches_target_mime_indexes_to_source_indexes() {
    let mut bridge = InternalDndBridge::default();
    bridge.begin_source(7, b"text/plain text/uri-list");
    bridge.cache_pre_sent_data(7, Some(1), true, b"ZmlsZTov");
    bridge.cache_pre_sent_data(7, None, false, b"Ly90bXAvYg==");
    bridge.begin_target(9, b"text/uri-list text/plain");

    assert_eq!(
        bridge.data_response(9, 1).unwrap(),
        b"\x1b]72;t=r:x=1:m=1;ZmlsZTovLy90bXAvYg==\x1b\\\x1b]72;t=r:x=1:m=0;\x1b\\"
    );
    assert!(bridge.data_response(9, 2).is_none());
}

fn key(name: &str, event_type: u8) -> DecodedKey {
    DecodedKey {
        name: name.to_owned(),
        raw: name.as_bytes().to_vec(),
        event_type,
    }
}

#[test]
fn window_names_are_limited_to_64_characters() {
    let mut name = "x".repeat(63);
    assert_eq!(edit_window_name(&mut name, &key("终", 1)), RenameEdit::Continue);
    assert_eq!(name.chars().count(), 64);
    assert_eq!(edit_window_name(&mut name, &key("y", 1)), RenameEdit::Continue);
    assert_eq!(name.chars().count(), 64);
    assert_eq!(edit_window_name(&mut name, &key("y", 3)), RenameEdit::Continue);
    let mut empty = String::new();
    assert_eq!(edit_window_name(&mut empty, &key("backspace", 1)), RenameEdit::Continue);
    assert!(empty.is_empty());
    assert_eq!(edit_window_name(&mut empty, &key("ctrl a", 1)), RenameEdit::Continue);
    assert!(empty.is_empty());
}

#[test]
fn yazi_is_recognized_in_any_ascii_case() {
    let shell = std::path::PathBuf::from("/shell");
    let yazi = std::path::PathBuf::from("/yazi");
    assert_eq!(
        preferred_spawn_directory(Some(shell.clone()), Some("YaZi"), Some(yazi.clone())),
        Some(yazi.clone())
    );
    assert_eq!(
        preferred_spawn_directory(Some(shell.clone()), Some("yazi2"), Some(yazi)),
        Some(shell)
    );
}

#[test]
fn selection_is_ordered_in_reading_order() {
    let selection = TextSelection {
        window_id: 1,
        start: MousePosition { column: 2, row: 3 },
        end: MousePosition { column: 4, row: 1 },
        keyboard: false,
    };
    assert!(selection_contains(Some(&selection), 1, 2, 0, 10));
    assert!(!selection_contains(Some(&selection), 1, 3, 3, 10));
    assert!(!selection_contains(Some(&selection), 2, 2, 0, 10));
    assert!(!selection_contains(None, 1, 2, 0, 10));
}

#[test]
fn default_selection_prefers_a_detached_other_session() {
    let sessions = [("a", true), ("b", false), ("c", false)].map(|(name, connected)| SessionInfo {
        name: name.to_owned(),
        tabs: 1,
        panes: 1,
        connected,
        created_at: 1,
        last_connected_at: 1,
        saved: false,
    });
    assert_eq!(default_session_selection(&sessions, "b"), 2);
    assert_eq!(default_session_selection(&sessions, "x"), 1);
    assert_eq!(default_session_selection(&sessions[..1], "x"), 0);
}

#[test]
fn mime_types_split_on_whitespace_and_reject_invalid_utf8() {
    assert_eq!(mime_types(b" text/plain\t\ntext/uri-list  "), vec!["text/plain", "text/uri-list"]);
    assert!(mime_types(b"\xff text/plain").is_empty());
}

#[test]
fn drop_data_responses_need_a_positive_offer_index() {
    assert_eq!(kitty_dnd_data_response(0, b"abc"), None);
    assert_eq!(
        kitty_dnd_data_response(12, b""),
        Some(b"\x1b]72;t=r:x=12:m=1;\x1b\\\x1b]72;t=r:x=12:m=0;\x1b\\".to_vec())
    );
}

#[test]
fn dnd_bridge_ignores_data_from_other_panes_and_clears_on_overflow() {
    let mut bridge = InternalDndBridge::default();
    bridge.begin_source(1, b"text/plain");
    bridge.cache_pre_sent_data(2, Some(0), false, b"abc");
    bridge.begin_target(2, b"text/plain");
    assert!(bridge.data_response(2, 1).is_none());
    bridge.cache_pre_sent_data(1, Some(0), true, b"ab");
    bridge.cache_pre_sent_data(1, None, false, b"c");
    assert_eq!(
        bridge.data_response(2, 1).unwrap(),
        b"\x1b]72;t=r:x=1:m=1;abc\x1b\\\x1b]72;t=r:x=1:m=0;\x1b\\"
    );
    assert!(bridge.accepts_pre_sent_continuation(1) == false);
    let large = vec![b'x'; 4 * 1024 * 1024 + 1];
    bridge.cache_pre_sent_data(1, Some(0), false, &large);
    assert_eq!(bridge.source_window_id(), None);
    assert!(bridge.data_response(2, 1).is_none());
}

#[test]
fn window_name_editor_accepts_text_backspace_confirm_and_cancel() {
    let mut name = "fish".to_owned();
    let text = DecodedKey {
        name: "终".to_owned(),
        raw: "终".as_bytes().to_vec(),
        event_type: 1,
    };
    assert_eq!(edit_window_name(&mut name, &text), RenameEdit::Continue);
    assert_eq!(name, "fish终");

    let (backspace, _) = decode_key(b"\x7f");
    assert_eq!(
        edit_window_name(&mut name, &backspace),
        RenameEdit::Continue
    );
    assert_eq!(name, "fish");

    let (enter, _) = decode_key(b"\r");
    assert_eq!(edit_window_name(&mut name, &enter), RenameEdit::Confirm);
    let (escape, _) = decode_key(b"\x1b");
    assert_eq!(edit_window_name(&mut name, &escape), RenameEdit::Cancel);
}

#[test]
fn window_name_editor_accepts_kitty_text_and_ignores_key_releases() {
    let mut name = String::new();
    let (press, _) = decode_key(b"\x1b[121u");
    let (release, _) = decode_key(b"\x1b[121;1:3u");

    assert_eq!(edit_window_name(&mut name, &press), RenameEdit::Continue);
    assert_eq!(name, "y");
    assert_eq!(edit_window_name(&mut name, &release), RenameEdit::Continue);
    assert_eq!(name, "y");
}
