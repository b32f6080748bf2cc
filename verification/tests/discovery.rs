use helto_launcher::discovery::{discover_apps_from_dirs, discover_apps_with_errors, DesktopFile};
use helto_launcher::error::LauncherError;
use helto_launcher::discovery::desktop_file_id;

fn file(dir: &str, name: &str, contents: Option<&str>) -> DesktopFile {
    DesktopFile {
        dir: dir.to_string(),
        path: format!("{dir}/{name}"),
        contents: contents.map(str::to_string),
    }
}

#[test]
fn nested_desktop_id_uses_dash_separator() {
    let id = desktop_file_id(
        "/usr/share/applications",
        "/usr/share/applications/kde/org.kde.foo.desktop",
    );

    assert_eq!(id, "kde-org.kde.foo.desktop");
}

#[test]
fn desktop_id_outside_base_is_file_name() {
    let id = desktop_file_id("/usr/share/applications", "/opt/apps/tool.desktop");

    assert_eq!(id, "tool.desktop");
}

#[test]
fn discovers_valid_desktop_entries_from_fixture_dir() {
    let dir = "tests/fixtures/desktop_entries";
    let files = vec![
        file(
            dir,
            "firefox.desktop",
            Some("[Desktop Entry]\nName=Firefox\nExec=firefox %u\n"),
        ),
        file(dir, "hidden.desktop", Some("[Desktop Entry]\nName=Hidden\nExec=hidden\nHidden=true\n")),
        file(dir, "invalid.desktop", Some("[Desktop Entry]\nExec=invalid\n")),
        file(
            dir,
            "nodisplay.desktop",
            Some("[Desktop Entry]\nName=NoDisplay\nExec=nodisplay\nNoDisplay=true\n"),
        ),
        file(
            dir,
            "terminal.desktop",
            Some("[Desktop Entry]\nName=Terminal\nExec=xterm\nTerminal=true\n"),
        ),
    ];
    let apps = discover_apps_from_dirs(&files);
    let ids: Vec<_> = apps.iter().map(|app| app.id.as_str()).collect();

    assert!(ids.contains(&"firefox.desktop"));
    assert!(ids.contains(&"terminal.desktop"));
    assert!(!ids.contains(&"hidden.desktop"));
    assert!(!ids.contains(&"nodisplay.desktop"));
    assert!(!ids.contains(&"invalid.desktop"));
}

#[test]
fn first_directory_wins_and_ids_are_sorted() {
    let files = vec![
        file("/home/me/apps", "zed.desktop", Some("[Desktop Entry]\nName=Zed Local\nExec=zed\n")),
        file("/home/me/apps", "broken.desktop", None),
        file("/usr/share/applications", "alpha.desktop", Some("[Desktop Entry]\nName=Alpha\nExec=alpha\n")),
        file("/usr/share/applications", "zed.desktop", Some("[Desktop Entry]\nName=Zed System\nExec=zed\n")),
    ];
    let apps = discover_apps_from_dirs(&files);
    let names: Vec<_> = apps.iter().map(|app| app.name.as_str()).collect();

    assert_eq!(names, ["Alpha", "Zed Local"]);
}

#[test]
fn invalid_entries_are_reported_with_their_errors() {
    let dir = "/apps";
    let files = vec![
        file(dir, "ok.desktop", Some("[Desktop Entry]\nName=Ok\nExec=ok\n")),
        file(dir, "noname.desktop", Some("[Desktop Entry]\nExec=x\n")),
        file(dir, "unread.desktop", None),
        file(dir, "hidden.desktop", Some("[Desktop Entry]\nHidden=true\n")),
        file(dir, "quote.desktop", Some("[Desktop Entry]\nName=Q\nExec=\"open\n")),
    ];
    let (apps, errors) = discover_apps_with_errors(&files);
    assert_eq!(apps, discover_apps_from_dirs(&files));
    assert_eq!(apps.len(), 1);
    let positions: Vec<usize> = errors.iter().map(|(i, _)| *i).collect();
    assert_eq!(positions, [1, 4]);
    assert!(matches!(&errors[0].1, LauncherError::DesktopEntry { path, .. } if path == "/apps/noname.desktop"));
    assert_eq!(
        errors[1].1,
        LauncherError::ExecLine {
            exec_line: "\"open".into(),
            reason: "unterminated quote".into(),
        }
    );
}
