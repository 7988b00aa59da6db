use rustmux::input::{DecodedKey, MouseAction, MousePosition};
use rustmux::routing::{route_key, route_mouse, KeyRoute, MouseContext, MouseRoute, Overlay};
use rustmux::attention::{OutputFacts, PaneAttention, RedrawRequest};
use rustmux::reload::{apply_reload, same_snapshot, ConfigReloader, ConfigSnapshot, ReloadOutcome, CONFIG_RELOAD_INTERVAL_MS};
use rustmux::config::{
    canonical_key_name, parse_send_key, Action, ActionSpec, BindingDisplay, BindingSpec, Config,
    ConfigFile, NotificationsFile, DEFAULT_CONFIG_TOML,
};

fn text(value: &toml::Value) -> Result<String, String> {
    value.as_str().map(str::to_owned).ok_or_else(|| "expected a string".to_owned())
}

fn texts(value: &toml::Value) -> Result<Vec<String>, String> {
    value
        .as_array()
        .ok_or_else(|| "expected an array".to_owned())?
        .iter()
        .map(text)
        .collect()
}

fn number(value: &toml::Value) -> Result<u64, String> {
    value
        .as_integer()
        .and_then(|n| u64::try_from(n).ok())
        .ok_or_else(|| "expected a number".to_owned())
}

fn flag(value: &toml::Value) -> Result<bool, String> {
    value.as_bool().ok_or_else(|| "expected a boolean".to_owned())
}

fn display(value: &toml::Value) -> Result<BindingDisplay, String> {
    match text(value)?.as_str() {
        "always" => Ok(BindingDisplay::Always),
        "help" | "help-menu" => Ok(BindingDisplay::Help),
        "hidden" | "never" => Ok(BindingDisplay::Hidden),
        other => Err(format!("unknown display '{other}'")),
    }
}

fn action_spec(value: &toml::Value) -> Result<ActionSpec, String> {
    if let Some(name) = value.as_str() {
        return Ok(ActionSpec::Name(name.to_owned()));
    }
    let table = value.as_table().ok_or_else(|| "expected an action".to_owned())?;
    let mut action = None;
    let mut mode = None;
    let mut index = None;
    let mut key = None;
    for (field, value) in table {
        match field.as_str() {
            "action" => action = Some(text(value)?),
            "mode" => mode = Some(text(value)?),
            "index" => index = Some(number(value)? as usize),
            "key" => key = Some(text(value)?),
            other => return Err(format!("unknown field '{other}'")),
        }
    }
    Ok(ActionSpec::Detailed {
        action: action.ok_or_else(|| "missing action".to_owned())?,
        mode,
        index,
        key,
    })
}

fn action_specs(value: &toml::Value) -> Result<Vec<ActionSpec>, String> {
    value
        .as_array()
        .ok_or_else(|| "expected an array".to_owned())?
        .iter()
        .map(action_spec)
        .collect()
}

fn binding_spec(value: &toml::Value) -> Result<BindingSpec, String> {
    if value.is_array() {
        return Ok(BindingSpec::Actions(action_specs(value)?));
    }
    let table = value.as_table().ok_or_else(|| "expected a binding".to_owned())?;
    let mut actions = None;
    let mut shown = None;
    for (field, value) in table {
        match field.as_str() {
            "actions" => actions = Some(action_specs(value)?),
            "display" => shown = Some(display(value)?),
            other => return Err(format!("unknown field '{other}'")),
        }
    }
    Ok(BindingSpec::Detailed { actions, display: shown })
}

fn config_file(source: &str) -> Result<ConfigFile, String> {
    let value: toml::Value = toml::from_str(source).map_err(|error| error.to_string())?;
    let table = value.as_table().ok_or_else(|| "expected a table".to_owned())?;
    let mut file = ConfigFile {
        shell: None,
        autosave_interval_seconds: None,
        default_mode: None,
        clear_defaults: false,
        compact: None,
        scrollback_lines: None,
        notifications: None,
        session_manager: Vec::new(),
        keybinds: Vec::new(),
    };
    for (field, value) in table {
        match field.as_str() {
            "shell" => file.shell = Some(text(value)?),
            "autosave_interval_seconds" => file.autosave_interval_seconds = Some(number(value)?),
            "default_mode" => file.default_mode = Some(text(value)?),
            "clear_defaults" => file.clear_defaults = flag(value)?,
            "compact" => file.compact = Some(flag(value)?),
            "scrollback_lines" => file.scrollback_lines = Some(number(value)? as usize),
            "notifications" => {
                let mut notifications = NotificationsFile {
                    enabled: None,
                    command_duration_seconds: None,
                    exclude_applications: None,
                };
                for (field, value) in value.as_table().ok_or_else(|| "expected a table".to_owned())? {
                    match field.as_str() {
                        "enabled" => notifications.enabled = Some(flag(value)?),
                        "command_duration_seconds" => {
                            notifications.command_duration_seconds = Some(number(value)?)
                        }
                        "exclude_applications" => notifications.exclude_applications = Some(texts(value)?),
                        other => return Err(format!("unknown field '{other}'")),
                    }
                }
                file.notifications = Some(notifications);
            }
            "session_manager" => {
                for (action, keys) in value.as_table().ok_or_else(|| "expected a table".to_owned())? {
                    file.session_manager.push((action.clone(), texts(keys)?));
                }
            }
            "keybinds" => {
                for (mode, bindings) in value.as_table().ok_or_else(|| "expected a table".to_owned())? {
                    let mut entries = Vec::new();
                    for (key, binding) in bindings.as_table().ok_or_else(|| "expected a table".to_owned())? {
                        entries.push((key.clone(), binding_spec(binding)?));
                    }
                    file.keybinds.push((mode.clone(), entries));
                }
            }
            other => return Err(format!("unknown field '{other}'")),
        }
    }
    Ok(file)
}

fn test_defaults() -> Config {
    Config::from_file(&config_file(DEFAULT_CONFIG_TOML).unwrap(), None).unwrap()
}

#[test]
fn session_manager_bindings_distinguish_navigation_from_text() {
    let config = test_defaults();
    assert_eq!(config.session_manager_action("j", false), Some("down"));
    assert_eq!(config.session_manager_action("k", false), Some("up"));
    assert_eq!(config.session_manager_action("/", false), Some("search"));
    assert_eq!(config.session_manager_action("j", true), None);
    assert_eq!(config.session_manager_action("k", true), None);
    assert_eq!(config.session_manager_action("down", true), Some("down"));
    assert_eq!(config.session_manager_action("esc", true), Some("cancel"));
    assert_eq!(canonical_key_name("Del").unwrap(), "delete");
    assert_eq!(parse_send_key("delete").unwrap(), b"\x1b[3~");
}

#[test]
fn session_manager_bindings_can_be_replaced_disabled_and_validated() {
    let mut config = test_defaults();
    config
        .apply_user(
            &config_file(
                r#"
[session_manager]
down = ["n"]
up = ["p"]
search = ["Ctrl f"]
delete = []
"#,
            )
            .unwrap(),
        )
        .unwrap();
    assert_eq!(config.session_manager_action("j", false), None);
    assert_eq!(config.session_manager_action("n", false), Some("down"));
    assert_eq!(config.session_manager_action("n", true), None);
    assert_eq!(
        config.session_manager_action("ctrl f", false),
        Some("search")
    );
    assert_eq!(config.session_manager_action("delete", false), None);
    assert!(config
        .apply_user(&config_file("[session_manager]\nunknown = []").unwrap())
        .is_err());
    assert!(config
        .apply_user(&config_file("[session_manager]\nup = [\"n\"]").unwrap())
        .is_err());
}

#[test]
fn default_config_has_zellij_style_modes() {
    let file = config_file(DEFAULT_CONFIG_TOML).unwrap();
    let config = Config::from_file(&file, None).unwrap();

    assert_eq!(config.default_mode(), "locked");
    assert!(!config.compact());
    assert_eq!(
        config.actions("locked", "ctrl b"),
        Some(&[Action::SwitchMode("normal".to_owned())][..])
    );
    assert!(config.actions("scroll", "E").is_some());
    assert_eq!(
        config.actions("normal", ","),
        Some(&[Action::RenameWindow][..])
    );
    assert_eq!(
        config.actions("normal", "s"),
        Some(&[Action::SwitchSession][..])
    );
    assert_eq!(
        config.actions("normal", "i"),
        Some(
            &[
                Action::SwitchMode("locked".to_owned()),
                Action::ToggleFloatingTerminal
            ][..]
        )
    );
    assert_eq!(
        config.actions("normal", "<"),
        Some(
            &[
                Action::MoveWindowLeft,
                Action::SwitchMode("locked".to_owned())
            ][..]
        )
    );
    assert_eq!(config.command_notification_seconds(), Some(10));
    assert!(config.notification_excludes_application(Some("yazi")));
    assert!(config.notification_excludes_application(Some("nvim")));
    assert_eq!(
        config.actions("pane", "r"),
        Some(
            &[
                Action::NewPaneRight,
                Action::SwitchMode("locked".to_owned())
            ][..]
        )
    );
    assert_eq!(
        config.actions("pane", "alt h"),
        Some(&[Action::MovePaneLeft][..])
    );
}

#[test]
fn user_config_overlays_and_unbinds_defaults() {
    let defaults = config_file(DEFAULT_CONFIG_TOML).unwrap();
    let mut config = Config::from_file(&defaults, None).unwrap();
    let user = config_file(
        r#"
[keybinds.normal]
c = []
z = ["new-window"]
"#,
    )
    .unwrap();

    config.apply_user(&user).unwrap();

    assert!(config.actions("normal", "c").is_none());
    assert_eq!(
        config.actions("normal", "z"),
        Some(&[Action::NewWindow][..])
    );
    assert!(config.actions("locked", "ctrl b").is_some());
}

#[test]
fn binding_display_controls_status_and_help_visibility() {
    let defaults = config_file(DEFAULT_CONFIG_TOML).unwrap();
    let mut config = Config::from_file(&defaults, None).unwrap();
    let user = config_file(
        r#"
[keybinds.normal]
c = { display = "help" }
n = { display = "hidden" }
z = { actions = ["new-window"], display = "help" }
"#,
    )
    .unwrap();

    config.apply_user(&user).unwrap();

    assert_eq!(config.actions("normal", "c").unwrap()[0], Action::NewWindow);
    assert_eq!(
        config.actions("normal", "z"),
        Some(&[Action::NewWindow][..])
    );
    let status = config.describe_status_mode("normal");
    assert!(!status.iter().any(|hint| hint.starts_with("c=")));
    assert!(!status.iter().any(|hint| hint.starts_with("n=")));
    assert!(!status.iter().any(|hint| hint.starts_with("z=")));
    let help = config.describe_help_mode("normal");
    assert!(help.iter().any(|hint| hint.starts_with("c=")));
    assert!(!help.iter().any(|hint| hint.starts_with("n=")));
    assert!(help.iter().any(|hint| hint.starts_with("z=")));
}

#[test]
fn binding_display_rejects_unknown_values_and_display_only_new_bindings() {
    assert!(config_file(
        r#"
[keybinds.normal]
c = { display = "sometimes" }
"#
    )
    .is_err());

    let defaults = config_file(DEFAULT_CONFIG_TOML).unwrap();
    let mut config = Config::from_file(&defaults, None).unwrap();
    let user = config_file(
        r#"
[keybinds.normal]
z = { display = "help" }
"#,
    )
    .unwrap();
    assert_eq!(
        config.apply_user(&user).unwrap_err(),
        "binding 'z' in mode 'normal' needs actions because it does not already exist"
    );
}

#[test]
fn clear_defaults_supports_entirely_custom_modes() {
    let defaults = config_file(DEFAULT_CONFIG_TOML).unwrap();
    let mut config = Config::from_file(&defaults, None).unwrap();
    let user = config_file(
        r#"
default_mode = "base"
clear_defaults = true

[keybinds.base]
"Ctrl a" = [{ action = "switch-mode", mode = "command" }]

[keybinds.command]
q = [{ action = "switch-mode", mode = "base" }]
"#,
    )
    .unwrap();

    config.apply_user(&user).unwrap();

    assert_eq!(config.default_mode(), "base");
    assert!(!config.has_mode("locked"));
    assert!(config.actions("command", "q").is_some());
}

#[test]
fn user_can_change_or_disable_command_notifications() {
    let defaults = config_file(DEFAULT_CONFIG_TOML).unwrap();
    let mut config = Config::from_file(&defaults, None).unwrap();
    let user = config_file(
        r#"
[notifications]
command_duration_seconds = 25
"#,
    )
    .unwrap();
    config.apply_user(&user).unwrap();
    assert_eq!(config.command_notification_seconds(), Some(25));

    let disabled = config_file(
        r#"
[notifications]
enabled = false
"#,
    )
    .unwrap();
    config.apply_user(&disabled).unwrap();
    assert_eq!(config.command_notification_seconds(), None);
}

#[test]
fn user_can_exclude_applications_from_command_notifications() {
    let defaults = config_file(DEFAULT_CONFIG_TOML).unwrap();
    let mut config = Config::from_file(&defaults, None).unwrap();
    let user = config_file(
        r#"
[notifications]
exclude_applications = ["yazi", "/usr/bin/NVIM", "yazi"]
"#,
    )
    .unwrap();

    config.apply_user(&user).unwrap();

    assert!(config.notification_excludes_application(Some("yazi")));
    assert!(config.notification_excludes_application(Some("/opt/homebrew/bin/nvim")));
    assert!(!config.notification_excludes_application(Some("cargo")));
    assert!(!config.notification_excludes_application(None));
    assert!(config.notification_excludes_any_application(&["yazi", "cat", "rm"]));
    assert!(!config.notification_excludes_any_application(&["cat", "rm"]));

    let clear = config_file(
        r#"
[notifications]
exclude_applications = []
"#,
    )
    .unwrap();
    config.apply_user(&clear).unwrap();
    assert!(!config.notification_excludes_application(Some("yazi")));
}

#[test]
fn empty_notification_application_name_is_rejected() {
    let defaults = config_file(DEFAULT_CONFIG_TOML).unwrap();
    let mut config = Config::from_file(&defaults, None).unwrap();
    let user = config_file(
        r#"
[notifications]
exclude_applications = ["  "]
"#,
    )
    .unwrap();

    assert_eq!(
        config.apply_user(&user).unwrap_err(),
        "notification application names cannot be empty"
    );
}

#[test]
fn user_can_enable_compact_layout() {
    let defaults = config_file(DEFAULT_CONFIG_TOML).unwrap();
    let mut config = Config::from_file(&defaults, None).unwrap();
    let user = config_file("compact = true").unwrap();

    config.apply_user(&user).unwrap();

    assert!(config.compact());
}

#[test]
fn user_can_configure_scrollback_capacity() {
    let defaults = config_file(DEFAULT_CONFIG_TOML).unwrap();
    let mut config = Config::from_file(&defaults, None).unwrap();
    let user = config_file("scrollback_lines = 25000").unwrap();
    config.apply_user(&user).unwrap();
    assert_eq!(config.scrollback_lines(), 25_000);

    let invalid = config_file("scrollback_lines = 0").unwrap();
    assert!(config.apply_user(&invalid).is_err());
    assert_eq!(config.scrollback_lines(), 25_000);
}

#[test]
fn binding_descriptions_are_sorted_and_labelled() {
    let config = test_defaults();
    let help = config.describe_help_mode("pane");
    let mut sorted = help.clone();
    sorted.sort();
    assert_eq!(help, sorted);
    assert!(help.contains(&"H=resize-left".to_owned()));
    assert!(help.contains(&"r=new-pane-right + mode:locked".to_owned()));
    assert!(help.contains(&"alt h=move-pane-left".to_owned()));
    assert!(!config.describe_status_mode("pane").contains(&"alt h=move-pane-left".to_owned()));
    let normal = config.describe_status_mode("normal");
    assert!(normal.contains(&"1=window:1 + mode:locked".to_owned()));
    assert!(config.describe_status_mode("missing").is_empty());
}

#[test]
fn invalid_defaults_and_switch_targets_are_reported() {
    let missing_default = config_file("default_mode = \"base\"\n[keybinds.other]\nq = [\"detach\"]").unwrap();
    assert_eq!(
        Config::from_file(&missing_default, None).unwrap_err(),
        "default_mode 'base' has no keybinds table"
    );
    let dangling = config_file(
        "[keybinds.locked]\nq = [{ action = \"switch-mode\", mode = \"nowhere\" }]",
    )
    .unwrap();
    assert_eq!(
        Config::from_file(&dangling, None).unwrap_err(),
        "switch-mode target 'nowhere' has no keybinds table"
    );
    let fallback = config_file("[keybinds.base]\nq = [\"detach\"]").unwrap();
    assert_eq!(Config::from_file(&fallback, Some("Base")).unwrap().default_mode(), "base");
    assert_eq!(Config::from_file(&fallback, None).unwrap_err(), "default_mode 'locked' has no keybinds table");
    let shell = config_file("shell = \"  \"\n[keybinds.locked]\nq = [\"detach\"]").unwrap();
    assert_eq!(
        Config::from_file(&shell, None).unwrap_err(),
        "shell must be a nonempty executable name or path"
    );
}

#[test]
fn session_manager_keys_bound_twice_name_both_actions() {
    let file = config_file(
        "[session_manager]\nup = [\"k\"]\ndown = [\"K\", \"k\"]\n[keybinds.locked]\nq = [\"detach\"]",
    )
    .unwrap();
    let error = Config::from_file(&file, None).unwrap_err();
    assert_eq!(error, "session manager key 'k' is bound to both 'down' and 'up'");
    let unknown = config_file("[session_manager]\nfly = [\"f\"]\n[keybinds.locked]\nq = [\"detach\"]").unwrap();
    assert_eq!(
        Config::from_file(&unknown, None).unwrap_err(),
        "unknown session manager action 'fly'"
    );
    let config = test_defaults();
    let keys = config.session_manager_keys();
    assert!(keys.iter().any(|(action, keys)| action == "cancel" && keys == &vec!["esc".to_owned()]));
}

#[test]
fn loading_applies_the_user_file_over_the_defaults() {
    let defaults = config_file(DEFAULT_CONFIG_TOML).unwrap();
    let user = config_file("compact = true\nscrollback_lines = 500\n").unwrap();
    let config = Config::load(&defaults, Some(&user)).unwrap();
    assert!(config.compact());
    assert_eq!(config.scrollback_lines(), 500);
    let plain = Config::load(&defaults, None).unwrap();
    assert!(!plain.compact());
    let bad = config_file("scrollback_lines = 0").unwrap();
    assert_eq!(
        Config::load(&defaults, Some(&bad)).unwrap_err(),
        "scrollback_lines must be between 1 and 1000000"
    );
}

const CUSTOM: &str = r#"
default_mode = "base"
clear_defaults = true
compact = true

[keybinds.base]
"Ctrl a" = [{ action = "switch-mode", mode = "base" }]
"#;

fn loaded(user: &str) -> Config {
    let defaults = config_file(DEFAULT_CONFIG_TOML).unwrap();
    Config::load(&defaults, Some(&config_file(user).unwrap())).unwrap()
}

#[test]
fn a_failed_reload_keeps_the_running_configuration() {
    let mut config = loaded("scrollback_lines = 2000");
    let mut mode = "normal".to_owned();
    let mut help = Some("pane".to_owned());
    let outcome = apply_reload(&mut config, &mut mode, &mut help, 1, Err("invalid config.toml".to_owned()));
    assert_eq!(outcome, ReloadOutcome::Failed("invalid config.toml".to_owned()));
    assert_eq!(config.scrollback_lines(), 2000);
    assert_eq!(mode, "normal");
    assert_eq!(help.as_deref(), Some("pane"));
}

#[test]
fn a_reload_without_the_current_mode_falls_back_to_its_default() {
    let mut config = test_defaults();
    let mut mode = "scroll".to_owned();
    let mut help = Some("pane".to_owned());
    let custom = loaded(CUSTOM);
    let outcome = apply_reload(&mut config, &mut mode, &mut help, 2, Ok(custom));
    assert_eq!(
        outcome,
        ReloadOutcome::Applied { mode_reset: true, leave_scroll: true, compact_changed: true, help_closed: true }
    );
    assert_eq!(mode, "base");
    assert_eq!(help, None);
    assert!(config.compact());
    let mut keep = "base".to_owned();
    let mut no_help = None;
    let again = loaded(CUSTOM);
    assert_eq!(
        apply_reload(&mut config, &mut keep, &mut no_help, 0, Ok(again)),
        ReloadOutcome::Applied { mode_reset: false, leave_scroll: false, compact_changed: false, help_closed: false }
    );
    assert_eq!(keep, "base");
}

#[test]
fn the_config_file_is_read_at_most_every_interval_and_reported_on_change() {
    let mut reloader = ConfigReloader::new(ConfigSnapshot::Missing, 1_000);
    assert!(!reloader.due(1_000));
    assert!(!reloader.due(1_499));
    assert!(reloader.due(1_500));
    assert!(!reloader.due(1_600));
    assert!(reloader.due(2_000));
    assert!(!reloader.observe(ConfigSnapshot::Missing));
    assert!(reloader.observe(ConfigSnapshot::Contents(b"compact = true".to_vec())));
    assert!(!reloader.observe(ConfigSnapshot::Contents(b"compact = true".to_vec())));
    assert!(reloader.observe(ConfigSnapshot::Contents(b"compact = false".to_vec())));
    assert!(reloader.observe(ConfigSnapshot::ReadError("denied".to_owned())));
    assert!(matches!(reloader.snapshot(), ConfigSnapshot::ReadError(e) if e == "denied"));
    assert!(same_snapshot(&ConfigSnapshot::Missing, &ConfigSnapshot::Missing));
    assert!(!same_snapshot(&ConfigSnapshot::Missing, &ConfigSnapshot::Contents(Vec::new())));
    assert_eq!(CONFIG_RELOAD_INTERVAL_MS, 500);
}

fn facts(completions_ms: Vec<u64>) -> OutputFacts {
    OutputFacts {
        bell: false,
        command_started: false,
        completions_ms,
        terminal_changed: false,
        graphics_changed: false,
        shared_memory_graphics: false,
        active: false,
        floating: false,
        in_shown_tab: false,
        client_attached: true,
    }
}

#[test]
fn long_commands_notify_unless_an_excluded_application_ran() {
    let config = test_defaults();
    let mut pane = PaneAttention::new();
    let actions = pane.output_step(&config, &facts(vec![9_999, 10_000, 25_000]));
    assert_eq!(actions.notify_ms, vec![10_000, 25_000]);
    assert!(pane.bell_pending);
    assert_eq!(actions.redraw, RedrawRequest::Scheduled);

    let mut quiet = PaneAttention::new();
    quiet.note_application("/usr/bin/NVIM".to_owned());
    quiet.note_application("/usr/bin/nvim".to_owned());
    assert_eq!(quiet.applications.len(), 1);
    let actions = quiet.output_step(&config, &facts(vec![60_000]));
    assert!(actions.notify_ms.is_empty());
    assert!(!quiet.bell_pending);
    assert_eq!(actions.redraw, RedrawRequest::Nothing);
    assert!(quiet.applications.is_empty());
}

#[test]
fn bells_and_visible_changes_ask_for_redraws() {
    let config = test_defaults();
    let mut pane = PaneAttention::new();
    let mut bell = facts(Vec::new());
    bell.bell = true;
    bell.shared_memory_graphics = true;
    assert_eq!(pane.output_step(&config, &bell).redraw, RedrawRequest::Immediate);
    assert!(pane.bell_pending);
    assert_eq!(pane.output_step(&config, &bell).redraw, RedrawRequest::Nothing);
    let mut visible_change = facts(Vec::new());
    visible_change.terminal_changed = true;
    visible_change.in_shown_tab = true;
    assert_eq!(pane.output_step(&config, &visible_change).redraw, RedrawRequest::Scheduled);
    visible_change.floating = true;
    assert_eq!(pane.output_step(&config, &visible_change).redraw, RedrawRequest::Nothing);
    visible_change.active = true;
    assert_eq!(pane.output_step(&config, &visible_change).redraw, RedrawRequest::Scheduled);
    let mut started = facts(Vec::new());
    pane.note_application("yazi".to_owned());
    started.command_started = true;
    pane.output_step(&config, &started);
    assert!(pane.applications.is_empty());
}

fn key(name: &str, event_type: u8) -> DecodedKey {
    DecodedKey { name: name.to_owned(), raw: name.as_bytes().to_vec(), event_type }
}

#[test]
fn keys_go_to_overlays_bindings_or_the_focused_pane() {
    let config = test_defaults();
    assert_eq!(route_key(&config, &Overlay::Nothing, "locked", &key("ctrl b", 1)), KeyRoute::Run);
    assert_eq!(route_key(&config, &Overlay::Nothing, "locked", &key("x", 1)), KeyRoute::Forward);
    assert_eq!(route_key(&config, &Overlay::Nothing, "locked", &key("x", 3)), KeyRoute::Forward);
    assert_eq!(route_key(&config, &Overlay::Nothing, "normal", &key("c", 1)), KeyRoute::Run);
    assert_eq!(route_key(&config, &Overlay::Nothing, "normal", &key("c", 3)), KeyRoute::Ignore);
    assert_eq!(route_key(&config, &Overlay::Nothing, "normal", &key("ctrl q", 1)), KeyRoute::Ignore);
    let help = Overlay::Help("normal".to_owned());
    assert_eq!(route_key(&config, &help, "locked", &key("esc", 1)), KeyRoute::CloseHelp);
    assert_eq!(route_key(&config, &help, "locked", &key("?", 1)), KeyRoute::CloseHelp);
    assert_eq!(route_key(&config, &help, "locked", &key("n", 1)), KeyRoute::CloseHelpAndRun);
    assert_eq!(route_key(&config, &help, "locked", &key("ctrl q", 1)), KeyRoute::Ignore);
    assert_eq!(route_key(&config, &Overlay::SessionManager, "locked", &key("x", 1)), KeyRoute::ToSessionManager);
    assert_eq!(route_key(&config, &Overlay::Rename, "locked", &key("x", 1)), KeyRoute::ToRename);
    assert_eq!(route_key(&config, &Overlay::HistorySearch, "locked", &key("x", 1)), KeyRoute::ToHistorySearch);
}

#[test]
fn status_bar_presses_hold_the_mouse_until_release() {
    let at = MousePosition { column: 3, row: 0 };
    let context = MouseContext {
        status_mouse_down: false,
        selecting: false,
        dragging: false,
        on_status_bar: true,
        overlay_open: false,
        window_tab: None,
        border: false,
        history_mode: false,
        locked: true,
        other_pane: Some(2),
    };
    assert_eq!(route_mouse(context, MouseAction::SelectStart(at)), (true, MouseRoute::StatusBar { click: true }));
    let held = MouseContext { status_mouse_down: true, on_status_bar: false, ..context };
    assert_eq!(route_mouse(held, MouseAction::SelectExtend(at)), (true, MouseRoute::StatusBar { click: false }));
    assert_eq!(route_mouse(held, MouseAction::SelectEnd(at)), (false, MouseRoute::StatusBar { click: false }));
    let below = MouseContext { on_status_bar: false, ..context };
    assert_eq!(route_mouse(below, MouseAction::SelectStart(at)), (false, MouseRoute::Pane { focus: Some(2) }));
    assert_eq!(route_mouse(below, MouseAction::ScrollUp(at)), (false, MouseRoute::Pane { focus: None }));
    let modal = MouseContext { overlay_open: true, ..below };
    assert_eq!(route_mouse(modal, MouseAction::SelectStart(at)), (false, MouseRoute::Swallow));
    let tab = MouseContext { window_tab: Some(4), ..below };
    assert_eq!(route_mouse(tab, MouseAction::SelectStart(at)), (false, MouseRoute::SelectTab(4)));
    let selecting = MouseContext { selecting: true, ..context };
    assert_eq!(route_mouse(selecting, MouseAction::SelectEnd(at)), (false, MouseRoute::Pane { focus: None }));
    let unlocked = MouseContext { locked: false, ..below };
    assert_eq!(route_mouse(unlocked, MouseAction::SelectStart(at)), (false, MouseRoute::Ignore));
}

#[test]
fn rebinding_a_key_keeps_one_binding_for_it() {
    let config = loaded("[keybinds.normal]\nc = [\"detach\"]\n\"C\" = [\"new-window\"]\n");
    let help = config.describe_help_mode("normal");
    assert_eq!(help.iter().filter(|line| line.starts_with("c=")).count(), 1);
    assert!(help.contains(&"c=detach".to_owned()));
    assert!(help.contains(&"C=new-window".to_owned()));
}
