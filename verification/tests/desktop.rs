use helto_launcher::desktop::parse_desktop_entry;
use helto_launcher::error::LauncherError;

#[test]
fn parses_desktop_entry() {
    let app = parse_desktop_entry(
        "firefox.desktop".to_string(),
        "/usr/share/applications/firefox.desktop".to_string(),
        r#"
[Desktop Entry]
Name=Firefox
GenericName=Web Browser
Comment=Browse the Web
Exec=firefox %u
Icon=firefox
Terminal=false
Categories=Network;WebBrowser;
Keywords=web;browser;
"#,
    )
    .unwrap()
    .unwrap();

    assert_eq!(app.name, "Firefox");
    assert_eq!(app.command.as_vec(), ["firefox"]);
    assert_eq!(app.categories, ["Network", "WebBrowser"]);
    assert_eq!(app.keywords, ["web", "browser"]);
}

#[test]
fn skips_hidden_entries() {
    let app = parse_desktop_entry(
        "hidden.desktop".to_string(),
        "hidden.desktop".to_string(),
        "[Desktop Entry]\nName=Hidden\nExec=hidden\nHidden=true\n",
    )
    .unwrap();

    assert!(app.is_none());
}

#[test]
fn fails_without_name() {
    let err = parse_desktop_entry(
        "invalid.desktop".to_string(),
        "invalid.desktop".to_string(),
        "[Desktop Entry]\nExec=invalid\n",
    )
    .unwrap_err();

    assert!(err.to_string().contains("missing required `Name`"));
}

#[test]
fn reads_optional_fields_and_flags() {
    let app = parse_desktop_entry(
        "term.desktop".to_string(),
        "/apps/term.desktop".to_string(),
        "# comment\n[Desktop Entry]\nName = Term\nName=Terminal\nName[de]=Konsole\nExec= xterm -e  %c \nTerminal=TRUE\nIcon=\nComment=\n[Other Group]\nName=Ignored\n",
    )
    .unwrap()
    .unwrap();

    assert_eq!(app.id, "term.desktop");
    assert_eq!(app.path, "/apps/term.desktop");
    assert_eq!(app.name, "Terminal");
    assert_eq!(app.exec_line, "xterm -e  %c");
    assert_eq!(app.command.as_vec(), ["xterm", "-e", "Terminal"]);
    assert!(app.terminal);
    assert_eq!(app.icon, None);
    assert_eq!(app.comment, None);
    assert_eq!(app.generic_name, None);
    assert!(app.categories.is_empty());
}

#[test]
fn no_display_entries_are_skipped() {
    let app = parse_desktop_entry(
        "nodisplay.desktop".to_string(),
        "nodisplay.desktop".to_string(),
        "[Desktop Entry]\r\nName=Quiet\r\nExec=quiet\r\nNoDisplay=True\r\n",
    )
    .unwrap();

    assert!(app.is_none());
}

#[test]
fn fails_without_exec() {
    let err = parse_desktop_entry(
        "noexec.desktop".to_string(),
        "/x/noexec.desktop".to_string(),
        "[Desktop Entry]\nName=Nothing\nExec=   \n",
    )
    .unwrap_err();

    assert_eq!(
        err,
        LauncherError::DesktopEntry {
            path: "/x/noexec.desktop".to_string(),
            reason: "missing required `Exec` field".to_string(),
        }
    );
    assert_eq!(
        err.to_string(),
        "Could not parse desktop entry: /x/noexec.desktop: missing required `Exec` field"
    );
}

#[test]
fn exec_errors_are_reported() {
    let err = parse_desktop_entry(
        "bad.desktop".to_string(),
        "bad.desktop".to_string(),
        "[Desktop Entry]\nName=Bad\nExec=bad \"open\n",
    )
    .unwrap_err();

    assert_eq!(
        err.to_string(),
        "Could not parse Exec line `bad \"open`: unterminated quote"
    );
}

#[test]
fn fields_outside_desktop_entry_are_ignored() {
    let err = parse_desktop_entry(
        "other.desktop".to_string(),
        "other.desktop".to_string(),
        "[Desktop Action new]\nName=New\nExec=new\n",
    )
    .unwrap_err();

    assert!(err.to_string().contains("missing required `Name`"));
}
