use helto_launcher::config::Config;
use helto_launcher::desktop::DesktopApp;
use helto_launcher::error::LauncherError;
use helto_launcher::exec::CommandLine;
use helto_launcher::launch::{command_for_app, spawn_error};

fn app() -> DesktopApp {
    DesktopApp {
        id: "admin.desktop".into(),
        path: "admin.desktop".into(),
        name: "Admin".into(),
        generic_name: None,
        comment: None,
        exec_line: "admin --flag".into(),
        command: CommandLine {
            program: "admin".into(),
            args: vec!["--flag".into()],
        },
        icon: None,
        terminal: false,
        categories: Vec::new(),
        keywords: Vec::new(),
    }
}

#[test]
fn wraps_privileged_apps_with_pkexec() {
    let mut config = Config::default();
    config
        .privileged_apps
        .insert("admin.desktop".to_string(), true);

    let command = command_for_app(&app(), &config);

    assert_eq!(command.as_vec(), ["pkexec", "admin", "--flag"]);
}

#[test]
fn unprivileged_apps_run_as_is() {
    let config = Config::default();

    let command = command_for_app(&app(), &config);

    assert_eq!(command.as_vec(), ["admin", "--flag"]);
}

#[test]
fn spawn_errors_name_the_cause() {
    let missing = spawn_error("Admin", "admin", true, "not found");
    assert_eq!(
        missing.to_string(),
        "Could not launch Admin: executable `admin` was not found"
    );

    let failed = spawn_error("Admin", "admin", false, "permission denied");
    assert_eq!(
        failed,
        LauncherError::Launch {
            app_name: "Admin".to_string(),
            source: "permission denied".to_string(),
        }
    );
    assert_eq!(failed.to_string(), "Could not launch Admin: permission denied");
}
