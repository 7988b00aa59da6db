use rustmux::config::{Config, ConfigFile};
use rustmux::input::DecodedKey;
use rustmux::manager::{ManagerCommand, SessionManagerState};
use rustmux::picker::{handle_key, SessionManagerView};
use std::ops::ControlFlow;
use rustmux::session::{SessionError, SessionInfo};

fn manager_config() -> Config {
    let table: &[(&str, &[&str])] = &[
        ("up", &["k", "up"]),
        ("down", &["j", "down"]),
        ("search", &["/"]),
        ("complete", &["tab"]),
        ("open", &["enter"]),
        ("rename", &["Ctrl r"]),
        ("save", &["Ctrl a"]),
        ("delete", &["delete"]),
        ("disconnect", &["Ctrl x"]),
        ("cancel", &["esc"]),
        ("backspace", &["backspace"]),
    ];
    let file = ConfigFile {
        shell: None,
        autosave_interval_seconds: None,
        default_mode: Some("locked".to_owned()),
        clear_defaults: false,
        compact: None,
        scrollback_lines: None,
        notifications: None,
        session_manager: table
            .iter()
            .map(|(action, keys)| (action.to_string(), keys.iter().map(|k| k.to_string()).collect()))
            .collect(),
        keybinds: vec![("locked".to_owned(), Vec::new())],
    };
    Config::from_file(&file, None).unwrap()
}

fn key(name: &str) -> DecodedKey {
    DecodedKey { name: name.to_owned(), raw: name.as_bytes().to_vec(), event_type: 1 }
}

fn session(name: &str, connected: bool) -> SessionInfo {
    SessionInfo {
        name: name.to_owned(),
        tabs: 1,
        panes: 1,
        connected,
        created_at: 0,
        last_connected_at: 0,
        saved: false,
    }
}

fn sessions() -> Vec<SessionInfo> {
    vec![session("main", true), session("work", true), session("notes", false), session("build", false)]
}

fn selected(state: &SessionManagerState) -> Option<String> {
    state.selected_session_name()
}

#[test]
fn manager_opens_on_the_first_detached_other_session() {
    let state = SessionManagerState::open(sessions(), "main");
    assert_eq!(state.selected, 2);
    assert!(!state.searching);
    assert!(state.query.is_empty());
    assert_eq!(selected(&state).as_deref(), Some("notes"));
    let attached = SessionManagerState::open(vec![session("main", true), session("work", true)], "main");
    assert_eq!(attached.selected, 0);
}

#[test]
fn manager_moves_the_selection_around_the_list() {
    let config = manager_config();
    let mut state = SessionManagerState::open(sessions(), "main");
    assert!(matches!(state.handle_key(&config, &key("j"), "main"), Ok(ManagerCommand::Redraw)));
    assert_eq!(state.selected, 3);
    state.handle_key(&config, &key("down"), "main").unwrap();
    assert_eq!(state.selected, 0);
    state.handle_key(&config, &key("k"), "main").unwrap();
    assert_eq!(state.selected, 3);
    state.handle_key(&config, &key("up"), "main").unwrap();
    assert_eq!(state.selected, 2);
}

#[test]
fn manager_search_filters_completes_and_cancels() {
    let config = manager_config();
    let mut state = SessionManagerState::open(sessions(), "main");
    state.handle_key(&config, &key("/"), "main").unwrap();
    assert!(state.searching);
    state.handle_key(&config, &key("W"), "main").unwrap();
    assert_eq!(state.query, "W");
    assert_eq!(state.selected, 0);
    assert_eq!(selected(&state).as_deref(), Some("work"));
    state.handle_key(&config, &key("!"), "main").unwrap();
    assert_eq!(state.query, "W");
    state.handle_key(&config, &key("j"), "main").unwrap();
    assert_eq!(state.query, "Wj");
    assert_eq!(selected(&state), None);
    state.handle_key(&config, &key("backspace"), "main").unwrap();
    assert_eq!(state.query, "W");
    state.handle_key(&config, &key("tab"), "main").unwrap();
    assert_eq!(state.query, "work");
    assert!(matches!(state.handle_key(&config, &key("esc"), "main"), Ok(ManagerCommand::Redraw)));
    assert!(!state.searching);
    assert!(state.query.is_empty());
    assert!(matches!(state.handle_key(&config, &key("esc"), "main"), Ok(ManagerCommand::Close)));
}

#[test]
fn manager_query_is_limited_to_sixty_four_bytes() {
    let config = manager_config();
    let mut state = SessionManagerState::open(sessions(), "main");
    state.handle_key(&config, &key("/"), "main").unwrap();
    for _ in 0..70 {
        state.handle_key(&config, &key("a"), "main").unwrap();
    }
    assert_eq!(state.query.len(), 64);
}

#[test]
fn manager_opens_switches_or_closes_on_the_current_session() {
    let config = manager_config();
    let mut state = SessionManagerState::open(sessions(), "main");
    match state.handle_key(&config, &key("enter"), "main") {
        Ok(ManagerCommand::Switch(target)) => assert_eq!(target, "notes"),
        _ => panic!("expected a switch"),
    }
    state.selected = 0;
    assert!(matches!(state.handle_key(&config, &key("enter"), "main"), Ok(ManagerCommand::Close)));

    let mut empty = SessionManagerState::open(Vec::new(), "main");
    assert!(matches!(empty.handle_key(&config, &key("enter"), "main"), Ok(ManagerCommand::Ignore)));
}

#[test]
fn manager_rejects_an_invalid_session_name_without_changing_state() {
    let config = manager_config();
    let mut state = SessionManagerState::open(vec![session("bad name", false)], "main");
    let before = (state.selected, state.query.clone(), state.searching);
    assert!(matches!(state.handle_key(&config, &key("enter"), "main"), Err(SessionError::InvalidName)));
    assert_eq!((state.selected, state.query.clone(), state.searching), before);
}

#[test]
fn manager_deletes_and_disconnects_other_sessions_only() {
    let config = manager_config();
    let mut state = SessionManagerState::open(sessions(), "main");
    match state.handle_key(&config, &key("delete"), "main") {
        Ok(ManagerCommand::Delete(target)) => assert_eq!(target, "notes"),
        _ => panic!("expected a delete"),
    }
    match state.handle_key(&config, &key("ctrl x"), "main") {
        Ok(ManagerCommand::Disconnect(target)) => assert_eq!(target, "notes"),
        _ => panic!("expected a disconnect"),
    }
    assert!(matches!(state.handle_key(&config, &key("ctrl a"), "main"), Ok(ManagerCommand::Save)));
    state.selected = 0;
    assert!(matches!(state.handle_key(&config, &key("ctrl x"), "main"), Ok(ManagerCommand::Ignore)));
    match state.handle_key(&config, &key("delete"), "main") {
        Ok(ManagerCommand::DeleteCurrent(target)) => assert_eq!(target, "main"),
        _ => panic!("expected the current session to be deleted"),
    }
}

#[test]
fn manager_renames_and_keeps_the_renamed_session_selected() {
    let config = manager_config();
    let mut state = SessionManagerState::open(sessions(), "main");
    state.handle_key(&config, &key("ctrl r"), "main").unwrap();
    assert_eq!(state.rename_input.as_deref(), Some("notes"));
    state.handle_key(&config, &key("backspace"), "main").unwrap();
    state.handle_key(&config, &key("backspace"), "main").unwrap();
    state.handle_key(&config, &key("j"), "main").unwrap();
    assert_eq!(state.rename_input.as_deref(), Some("notj"));
    let command = state.handle_key(&config, &key("enter"), "main");
    match command {
        Ok(ManagerCommand::RenameOther(from, to)) => {
            assert_eq!(from, "notes");
            assert_eq!(to, "notj");
        }
        _ => panic!("expected a rename"),
    }
    state.finish_rename("notj");
    assert_eq!(state.rename_input, None);
    let mut renamed = sessions();
    renamed.insert(0, session("notj", false));
    renamed.retain(|s| s.name != "notes");
    state.refresh(renamed, "main");
    assert_eq!(selected(&state), Some("notj".to_owned()));
}

#[test]
fn manager_rename_of_the_current_session_is_reported_as_such() {
    let config = manager_config();
    let mut state = SessionManagerState::open(sessions(), "main");
    state.selected = 0;
    state.handle_key(&config, &key("ctrl r"), "main").unwrap();
    state.handle_key(&config, &key("2"), "main").unwrap();
    match state.handle_key(&config, &key("enter"), "main") {
        Ok(ManagerCommand::RenameCurrent(to)) => assert_eq!(to, "main2"),
        _ => panic!("expected the current session to be renamed"),
    }
    state.finish_rename("main2");
    state.handle_key(&config, &key("ctrl r"), "main2").unwrap();
    assert!(matches!(state.handle_key(&config, &key("esc"), "main2"), Ok(ManagerCommand::Redraw)));
    assert_eq!(state.rename_input, None);
}

#[test]
fn manager_refresh_falls_back_to_the_default_selection() {
    let mut state = SessionManagerState::open(sessions(), "main");
    state.refresh(vec![session("main", true), session("other", false)], "main");
    assert_eq!(state.selected, 1);
    state.clear_query();
    assert!(state.query.is_empty());
}

fn picker_view(all: &[SessionInfo]) -> SessionManagerView {
    SessionManagerView {
        searching: false,
        query: String::new(),
        sessions: all.iter().map(|s| session(&s.name, s.connected)).collect(),
        selected: 0,
        current: String::new(),
        rename_input: None,
        create_input: None,
    }
}

fn press(config: &Config, all: &[SessionInfo], view: &mut SessionManagerView, names: &[&str]) -> ControlFlow<Option<String>> {
    let mut error = None;
    for name in names {
        let result = handle_key(config, all, view, &mut error, &key(name));
        if result.is_break() {
            return result;
        }
    }
    ControlFlow::Continue(())
}

#[test]
fn picker_opens_the_selected_session_or_cancels() {
    let config = manager_config();
    let all = sessions();
    let mut view = picker_view(&all);
    assert_eq!(press(&config, &all, &mut view, &["j", "j", "enter"]), ControlFlow::Break(Some("notes".to_owned())));
    let mut view = picker_view(&all);
    assert_eq!(press(&config, &all, &mut view, &["k", "enter"]), ControlFlow::Break(Some("build".to_owned())));
    assert_eq!(press(&config, &all, &mut view, &["esc"]), ControlFlow::Break(None));
    assert_eq!(press(&config, &all, &mut view, &["ctrl c"]), ControlFlow::Break(None));
}

#[test]
fn picker_ignores_key_releases_and_keeps_the_error_until_a_key_acts() {
    let config = manager_config();
    let all = sessions();
    let mut view = picker_view(&all);
    let mut error = Some("old".to_owned());
    let release = DecodedKey { name: "esc".to_owned(), raw: b"\x1b".to_vec(), event_type: 3 };
    assert_eq!(handle_key(&config, &all, &mut view, &mut error, &release), ControlFlow::Continue(()));
    assert_eq!(error.as_deref(), Some("old"));
    assert_eq!(handle_key(&config, &all, &mut view, &mut error, &key("j")), ControlFlow::Continue(()));
    assert_eq!(error, None);
    assert_eq!(view.selected, 1);
}

#[test]
fn picker_search_filters_and_escape_restores_the_full_list() {
    let config = manager_config();
    let all = sessions();
    let mut view = picker_view(&all);
    press(&config, &all, &mut view, &["/", "o"]);
    assert!(view.searching);
    assert_eq!(view.query, "o");
    let names: Vec<&str> = view.sessions.iter().map(|s| s.name.as_str()).collect();
    assert_eq!(names, ["work", "notes"]);
    press(&config, &all, &mut view, &["down", "tab"]);
    assert_eq!(view.query, "notes");
    assert_eq!(view.sessions.len(), 1);
    press(&config, &all, &mut view, &["backspace", "backspace", "backspace", "backspace", "backspace", "q"]);
    assert_eq!(view.query, "q");
    assert!(view.sessions.is_empty());
    assert_eq!(view.selected, 0);
    press(&config, &all, &mut view, &["esc"]);
    assert!(!view.searching);
    assert_eq!(view.sessions.len(), 4);
    assert_eq!(view.selected, 2);
}

#[test]
fn picker_name_entry_refuses_taken_names_and_edits_text() {
    let config = manager_config();
    let all = sessions();
    let mut view = picker_view(&all);
    view.create_input = Some(String::new());
    assert_eq!(press(&config, &all, &mut view, &["enter"]), ControlFlow::Continue(()));
    let mut error = None;
    for name in ["w", "o", "r", "k", "!"] {
        handle_key(&config, &all, &mut view, &mut error, &key(name));
    }
    assert_eq!(view.create_input.as_deref(), Some("work"));
    assert_eq!(handle_key(&config, &all, &mut view, &mut error, &key("enter")), ControlFlow::Continue(()));
    assert_eq!(error.as_deref(), Some("session 'work' already exists"));
    assert_eq!(
        press(&config, &all, &mut view, &["backspace", "s", "j", "enter"]),
        ControlFlow::Break(Some("worsj".to_owned()))
    );
    press(&config, &all, &mut view, &["esc"]);
    assert!(view.create_input.is_none());
}
