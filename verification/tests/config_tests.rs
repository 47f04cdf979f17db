use scout::config::{Config, Theme};

#[test]
fn test_default_config() {
    let config = Config::default();
    assert!(config.show_icons);
    assert_eq!(config.max_results, 5);
    assert_eq!(config.theme.font_size, 14);
    assert_eq!(config.terminal_emulator, "kitty");
    assert_eq!(config.window_width, 600);
    assert_eq!(config.window_height, 260);
    assert_eq!(config.icon_size, 32);
}

#[test]
fn test_default_theme() {
    let theme = Theme::default();
    assert_eq!(theme.font_size, 14);
}

#[test]
fn test_config_clone() {
    let config = Config::default();
    let cloned = config.clone();

    assert_eq!(config.show_icons, cloned.show_icons);
    assert_eq!(config.max_results, cloned.max_results);
    assert_eq!(config.theme.font_size, cloned.theme.font_size);
}

#[test]
fn test_theme_clone() {
    let theme = Theme { font_size: 18, ..Theme::default() };
    let cloned = theme.clone();

    assert_eq!(theme.font_size, cloned.font_size);
}

#[test]
fn test_default_theme_colors() {
    let theme = Theme::default();
    assert_eq!(theme.font_family, "Sans");
    assert_eq!(theme.bg_color, "#171717");
    assert_eq!(theme.font_color, "#f0f0f0");
    assert_eq!(theme.selection_color, "#1e46c9");
    assert_eq!(theme.entry_min_height, 32);
    assert_eq!(theme.entry_border_color, "#3a3a3a");
    assert_eq!(theme.entry_border_radius, 4);
}
