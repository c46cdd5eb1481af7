use polybar_iconography::colors::{Color, ColorParseError};
use polybar_iconography::settings::{col_env, get_default_settings, StyleEnv};

fn empty_env() -> StyleEnv {
    StyleEnv {
        monitor: None,
        ws_start: None,
        ws_end: None,
        ws_separator: None,
        accent: None,
        urgent_foreground: None,
        urgent_background: None,
        urgent_accent: None,
        foreground: None,
        background: None,
        focused_foreground: None,
        focused_background: None,
        focused_accent: None,
    }
}

fn rgb(r: u8, g: u8, b: u8) -> Option<Color> {
    Some(Color { a: None, r, g, b })
}

#[test]
fn defaults_without_environment() {
    let s = get_default_settings(&empty_env()).unwrap();
    let d = &s.draw_settings;
    assert_eq!(s.monitor, None);
    assert!(s.icons.icons.is_empty());
    assert_eq!(d.separator, "\u{250a}");
    assert_eq!(d.prefix, None);
    assert_eq!(d.focused_node_draw_mode.overline, rgb(0xff, 0xff, 0xff));
    assert_eq!(d.urgent_node_draw_mode.background, rgb(0xaa, 0x22, 0x22));
    assert_eq!(d.urgent_node_draw_mode.foreground, None);
    assert_eq!(d.focused_workspace_draw_mode.foreground, rgb(0xff, 0xff, 0xff));
    assert_eq!(d.focused_workspace_draw_mode.underline, rgb(0xac, 0x21, 0xc4));
    assert_eq!(d.workspace_draw_mode.foreground, None);
}

#[test]
fn environment_overrides_defaults() {
    let mut env = empty_env();
    env.monitor = Some("DP-1".to_string());
    env.ws_separator = Some(" | ".to_string());
    env.accent = Some("#123".to_string());
    env.foreground = Some("".to_string());
    env.focused_accent = Some("80ff0000".to_string());
    let s = get_default_settings(&env).unwrap();
    assert_eq!(s.monitor, Some("DP-1".to_string()));
    assert_eq!(s.draw_settings.separator, " | ");
    assert_eq!(s.draw_settings.focused_node_draw_mode.overline, rgb(0x11, 0x22, 0x33));
    assert_eq!(s.draw_settings.workspace_draw_mode.foreground, None);
    assert_eq!(
        s.draw_settings.focused_workspace_draw_mode.underline,
        Some(Color { a: Some(0x80), r: 0xff, g: 0, b: 0 })
    );
}

#[test]
fn bad_environment_color_is_refused() {
    let mut env = empty_env();
    env.urgent_background = Some("#zzz".to_string());
    assert_eq!(
        get_default_settings(&env).err(),
        Some(ColorParseError::CharOutOfRange('z'))
    );
}

#[test]
fn color_setting_values() {
    assert_eq!(col_env(&None), Ok(None));
    assert_eq!(col_env(&Some(String::new())), Ok(None));
    assert_eq!(col_env(&Some("fff".to_string())), Ok(rgb(0xff, 0xff, 0xff)));
    assert_eq!(
        col_env(&Some("12345".to_string())),
        Err(ColorParseError::InvalidStringLength(5))
    );
}
