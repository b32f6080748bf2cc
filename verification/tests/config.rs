use helto_launcher::config::Config;
use helto_launcher::config::config_path_with_env;
use helto_launcher::state::state_path_with_env;

#[test]
fn default_config_has_expected_commands() {
    let config = Config::default();

    assert_eq!(config.theme, "catppuccin-mocha");
    assert_eq!(config.commands.logout, ["systemctl", "--user", "exit"]);
    assert_eq!(config.commands.restart, ["systemctl", "reboot"]);
    assert_eq!(config.commands.poweroff, ["systemctl", "poweroff"]);
}

#[test]
fn parses_privileged_apps() {
    // The configuration that the TOML table `[privileged_apps]` with these two
    // entries and `theme = "catppuccin-mocha"` reads into.
    let mut config = Config::default();
    config.theme = "catppuccin-mocha".to_string();
    config
        .privileged_apps
        .insert("org.example.AdminTool.desktop".to_string(), true);
    config.privileged_apps.insert("normal.desktop".to_string(), false);

    assert!(config.is_privileged("org.example.AdminTool.desktop"));
    assert!(!config.is_privileged("normal.desktop"));
    assert!(!config.is_privileged("unknown.desktop"));
}

#[test]
fn later_privileged_entry_replaces_earlier_one() {
    let mut config = Config::default();
    config.privileged_apps.insert("a.desktop".to_string(), true);
    config.privileged_apps.insert("a.desktop".to_string(), false);

    assert!(!config.is_privileged("a.desktop"));
    assert_eq!(config.privileged_apps.len(), 1);
}

#[test]
fn uses_xdg_config_home_when_available() {
    let path = config_path_with_env(Some("/tmp/config"), Some("/home/me"));

    assert_eq!(path, "/tmp/config/helto-launcher/config.toml");
}

#[test]
fn falls_back_to_home_config() {
    let path = config_path_with_env(None, Some("/home/me"));

    assert_eq!(path, "/home/me/.config/helto-launcher/config.toml");
}

#[test]
fn falls_back_to_current_dir_without_home() {
    let path = config_path_with_env(None, None);

    assert_eq!(path, "./.config/helto-launcher/config.toml");
}

#[test]
fn uses_xdg_state_home_when_available() {
    let path = state_path_with_env(Some("/tmp/state"), Some("/home/me"));

    assert_eq!(path, "/tmp/state/helto-launcher/state.toml");
}

#[test]
fn falls_back_to_local_state() {
    let path = state_path_with_env(None, Some("/home/me"));

    assert_eq!(path, "/home/me/.local/state/helto-launcher/state.toml");
}
