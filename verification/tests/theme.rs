use helto_launcher::error::LauncherError;
use helto_launcher::theme::{first_theme_file, theme_dir_from_exe, theme_dirs_from, theme_files};
use helto_launcher::theme::{is_hex_color, Theme};

fn valid_theme() -> Theme {
    Theme {
        name: "Catppuccin Mocha".into(),
        window_background: "#1e1e2e".into(),
        panel_background: "#181825".into(),
        search_background: "#313244".into(),
        search_text: "#cdd6f4".into(),
        list_item_background: "#1e1e2e".into(),
        list_item_hover: "#313244".into(),
        list_item_selected: "#45475a".into(),
        text: "#cdd6f4".into(),
        muted_text: "#a6adc8".into(),
        accent: "#89b4fa".into(),
        warning: "#f9e2af".into(),
        error: "#f38ba8".into(),
        border: "#45475a".into(),
        favorite_active: "#f5c2e7".into(),
        favorite_inactive: "#6c7086".into(),
    }
}

#[test]
fn validates_theme_colors() {
    valid_theme().validate("catppuccin-mocha").unwrap();
}

#[test]
fn rejects_invalid_theme_color() {
    let mut theme = valid_theme();
    theme.accent = "blue".into();

    let err = theme.validate("catppuccin-mocha").unwrap_err();
    assert!(err.to_string().contains("accent"));
}

#[test]
fn reports_first_invalid_color() {
    let mut theme = valid_theme();
    theme.border = "".into();
    theme.search_text = "#12345".into();

    let err = theme.validate("mine").unwrap_err();
    assert_eq!(
        err.to_string(),
        "Could not load theme `mine`: missing or invalid color `search_text`"
    );
}

#[test]
fn hex_colors() {
    assert!(is_hex_color("#1e1e2e"));
    assert!(is_hex_color("1E1E2EFF"));
    assert!(!is_hex_color("##1e1e2e"));
    assert!(!is_hex_color("#1e1e2"));
    assert!(!is_hex_color("#1e1e2g"));
    assert!(!is_hex_color("#ééé"));
}

#[test]
fn css_fills_in_colors() {
    let css = valid_theme().css();
    assert!(css.starts_with("\n.launcher-window {\n    background-color: #1e1e2e;\n    color: #cdd6f4;\n}"));
    assert!(css.contains("button.launcher-logout-button {\n    background-color: alpha(#89b4fa, 0.18);"));
    assert!(css.contains(".launcher-favorite-inactive {\n    color: #6c7086;\n}"));
    assert!(!css.contains("{window_background}"));
    assert!(css.ends_with(".launcher-warning {\n    color: #f9e2af;\n}\n"));
}

#[test]
fn derives_theme_dir_from_release_binary_path() {
    let path = "/home/thhel/git/helto-launcher/target/release/helto-launcher";

    assert_eq!(
        theme_dir_from_exe(path),
        Some("/home/thhel/git/helto-launcher/themes".to_string())
    );
}

#[test]
fn derives_theme_dir_from_debug_binary_path() {
    let path = "/home/thhel/git/helto-launcher/target/debug/helto-launcher";

    assert_eq!(
        theme_dir_from_exe(path),
        Some("/home/thhel/git/helto-launcher/themes".to_string())
    );
}

#[test]
fn ignores_non_cargo_binary_path() {
    let path = "/usr/bin/helto-launcher";

    assert_eq!(theme_dir_from_exe(path), None);
}

#[test]
fn theme_search_order() {
    let dirs = theme_dirs_from(
        None,
        Some("/home/me"),
        Some("/src/helto/target/debug/helto-launcher"),
    );
    assert_eq!(
        dirs,
        [
            "/home/me/.config/helto-launcher/themes",
            "/src/helto/themes",
            "themes"
        ]
    );
}

#[test]
fn theme_files_in_search_order() {
    let files = theme_files("nord", &["/a/themes".to_string(), "themes".to_string()]);
    assert_eq!(files, ["/a/themes/nord.toml", "themes/nord.toml"]);
}

#[test]
fn first_existing_theme_file_is_loaded() {
    assert_eq!(first_theme_file("nord", &[false, true, true]), Ok(1));
    assert_eq!(first_theme_file("nord", &[true, false]), Ok(0));
}

#[test]
fn missing_theme_file_is_an_error() {
    let error = first_theme_file("nord", &[false, false]).unwrap_err();
    assert_eq!(
        error,
        LauncherError::Theme {
            theme: "nord".into(),
            reason: "theme file was not found".into(),
        }
    );
    assert_eq!(
        error.to_string(),
        "Could not load theme `nord`: theme file was not found"
    );
    assert!(first_theme_file("nord", &[]).is_err());
}
