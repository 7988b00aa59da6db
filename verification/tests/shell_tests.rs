use rustmux::shell::select_shell;

fn resolve(name: &str) -> Option<String> {
    match name {
        "fish" | "zsh" | "/bin/sh" => Some(name.to_string()),
        _ => None,
    }
}

#[test]
fn explicit_shells_take_precedence_and_do_not_silently_fall_back() {
    assert_eq!(
        select_shell(Some("fish"), Some("zsh"), None, resolve).unwrap(),
        "fish"
    );
    assert_eq!(
        select_shell(None, Some("zsh"), Some("fish"), resolve).unwrap(),
        "zsh"
    );
    assert!(select_shell(Some("missing"), Some("zsh"), None, resolve).is_err());
    assert_eq!(
        select_shell(None, None, Some("missing"), resolve).unwrap(),
        "/bin/sh"
    );
    assert_eq!(
        select_shell(None, None, Some("fish"), resolve).unwrap(),
        "fish"
    );
}

#[test]
fn shell_errors_name_the_missing_shell_and_the_fallback_is_last() {
    assert_eq!(
        select_shell(None, Some("missing"), Some("fish"), resolve),
        Err("cannot start shell 'missing': executable not found or not executable".to_string())
    );
    let nothing = |_: &str| None;
    assert_eq!(
        select_shell(None, None, Some(""), nothing),
        Err("cannot find a usable shell; set RUSTMUX_SHELL or shell in config.toml".to_string())
    );
    assert_eq!(
        select_shell(None, None, Some(""), resolve).unwrap(),
        "/bin/sh"
    );
}
