use rustmux::theme::{parse_color, Preset, Theme, ThemeConfig};

/// Read a `[theme]`-style TOML document the way the configuration file does:
/// unknown keys and non-string colours are refused.
fn theme_config(source: &str) -> Result<ThemeConfig, String> {
    let value: toml::Value = toml::from_str(source).map_err(|error| error.to_string())?;
    let table = value.as_table().ok_or_else(|| "expected a table".to_owned())?;
    let mut config = ThemeConfig::default();
    for (key, value) in table {
        match key.as_str() {
            "preset" => {
                config.preset = match value.as_str() {
                    Some("mocha") => Preset::Mocha,
                    Some("light") => Preset::Light,
                    _ => return Err("unknown preset".to_owned()),
                }
            }
            "colors" => {
                let colors = value.as_table().ok_or_else(|| "expected a table".to_owned())?;
                for (name, color) in colors {
                    let color = color.as_str().ok_or_else(|| "expected a string".to_owned())?;
                    config.colors.push((name.clone(), color.to_owned()));
                }
            }
            other => return Err(format!("unknown field '{other}'")),
        }
    }
    Ok(config)
}

#[test]
fn presets_accept_partial_overrides_without_changing_other_colors() {
    let config = theme_config("preset = 'light'\n[colors]\naccent = '#01Abef'\n").unwrap();
    let theme = config.resolve().unwrap();
    assert_eq!(theme.accent, (1, 171, 239));
    assert_eq!(theme.background, (245, 246, 250));
    assert_eq!(ThemeConfig::default().resolve().unwrap(), Theme::default());
}

#[test]
fn theme_rejects_unknown_options_and_malformed_colors() {
    for source in ["preset = 'unknown'", "presett = 'light'", "[colors]\naccent = 123"] {
        assert!(theme_config(source).is_err());
    }
    for source in [
        "[colors]\nacent = '#112233'",
        "[colors]\naccent = '#abc'",
        "[colors]\naccent = '112233'",
        "[colors]\naccent = '#gg0000'",
        "[colors]\naccent = '#é1234'",
    ] {
        assert!(theme_config(source).unwrap().resolve().is_err());
    }
}

#[test]
fn theme_errors_name_the_colour_and_the_value() {
    let unknown = ThemeConfig { preset: Preset::Mocha, colors: vec![("acent".to_owned(), "#112233".to_owned())] };
    assert_eq!(unknown.resolve().unwrap_err(), "unknown theme color 'acent'");
    let malformed = ThemeConfig { preset: Preset::Light, colors: vec![("teal".to_owned(), "#12345".to_owned())] };
    assert_eq!(
        malformed.resolve().unwrap_err(),
        "theme color 'teal' must be #RRGGBB, got '#12345'"
    );
}

#[test]
fn later_overrides_apply_in_order_and_every_colour_has_a_name() {
    let names = [
        "badge_text",
        "background",
        "surface",
        "surface_highlight",
        "border",
        "muted",
        "foreground",
        "error",
        "accent",
        "orange",
        "warning",
        "blue",
        "secondary",
        "key",
        "purple",
        "teal",
    ];
    let config = ThemeConfig {
        preset: Preset::Mocha,
        colors: names.iter().map(|name| (name.to_string(), "#0A0b0C".to_owned())).collect(),
    };
    let theme = config.resolve().unwrap();
    assert_eq!(theme.badge_text, (10, 11, 12));
    assert_eq!(theme.teal, (10, 11, 12));
    assert_eq!(theme.surface_highlight, (10, 11, 12));
    assert_eq!(parse_color("#FFffFF"), Some((255, 255, 255)));
    assert_eq!(parse_color("#00000"), None);
    assert_eq!(parse_color("FFFFFF"), None);
}
