use helto_launcher::favorites::Favorites;
use helto_launcher::desktop::DesktopApp;
use helto_launcher::exec::CommandLine;
use helto_launcher::interaction::{
    favorite_slots, handle_key, icon_source, moved_selection, result_label, result_subtitle,
    FavoriteSlot, IconSource, KeyAction, KeyInput,
};
use helto_launcher::discovery::application_dirs_from;
use helto_launcher::power::PowerAction;

#[test]
fn keys_map_to_actions() {
    assert_eq!(handle_key(KeyInput::Escape, None, false, false, true, None), KeyAction::Close);
    assert_eq!(
        handle_key(KeyInput::Enter, None, false, false, true, Some(3)),
        KeyAction::LaunchVisible(3)
    );
    assert_eq!(
        handle_key(KeyInput::Enter, None, false, false, true, None),
        KeyAction::LaunchVisible(0)
    );
    assert_eq!(
        handle_key(KeyInput::Other, Some('3'), true, false, true, None),
        KeyAction::LaunchFavorite(2)
    );
    assert_eq!(
        handle_key(KeyInput::Other, Some('7'), true, true, true, None),
        KeyAction::LaunchVisible(6)
    );
    assert_eq!(
        handle_key(KeyInput::Other, Some('n'), true, false, false, None),
        KeyAction::MoveSelection(1)
    );
    assert_eq!(
        handle_key(KeyInput::Up, None, false, false, false, None),
        KeyAction::MoveSelection(-1)
    );
    assert_eq!(
        handle_key(KeyInput::Other, Some('Q'), false, false, true, None),
        KeyAction::Power(PowerAction::Poweroff)
    );
    assert_eq!(
        handle_key(KeyInput::Other, Some('q'), false, false, false, None),
        KeyAction::Ignore
    );
    assert_eq!(
        handle_key(KeyInput::Other, Some('0'), false, true, true, None),
        KeyAction::Ignore
    );
}

#[test]
fn selection_stays_on_screen() {
    assert_eq!(moved_selection(None, -1), 0);
    assert_eq!(moved_selection(Some(0), -1), 0);
    assert_eq!(moved_selection(Some(4), 1), 5);
}

#[test]
fn result_labels_cycle_shortcuts() {
    assert_eq!(result_label(0, "Firefox"), "Alt+1  Firefox");
    assert_eq!(result_label(10, "Term"), "Alt+2  Term");
}

#[test]
fn favorite_panel_slots() {
    let favorites = Favorites {
        items: vec!["a".into(), "gone".into(), "b".into()],
    };
    let slots = favorite_slots(&favorites, &["a", "b", "c"]);
    assert_eq!(
        slots,
        [
            FavoriteSlot::Filled { app_id: "a".into(), badge: 1 },
            FavoriteSlot::Filled { app_id: "b".into(), badge: 3 },
            FavoriteSlot::Empty { badge: 4 },
            FavoriteSlot::Empty { badge: 5 },
        ]
    );
}

#[test]
fn application_dirs_order() {
    let dirs = application_dirs_from(
        Some("/data"),
        Some("/home/me"),
        Some(&["/usr/share".to_string(), "/opt/share".to_string()]),
    );
    assert_eq!(
        dirs,
        [
            "/data/applications",
            "/home/me/.local/share/applications",
            "/usr/share/applications",
            "/opt/share/applications",
            "/usr/local/share/applications"
        ]
    );
    let defaults = application_dirs_from(None, None, None);
    assert_eq!(
        defaults,
        ["/usr/local/share/applications", "/usr/share/applications"]
    );
}

fn app_with(icon: Option<&str>, generic: Option<&str>, comment: Option<&str>) -> DesktopApp {
    DesktopApp {
        id: "app.desktop".into(),
        path: "/apps/app.desktop".into(),
        name: "App".into(),
        generic_name: generic.map(str::to_string),
        comment: comment.map(str::to_string),
        exec_line: "app".into(),
        command: CommandLine {
            program: "app".into(),
            args: Vec::new(),
        },
        icon: icon.map(str::to_string),
        terminal: false,
        categories: Vec::new(),
        keywords: Vec::new(),
    }
}

#[test]
fn icons_come_from_files_or_the_icon_theme() {
    assert_eq!(
        icon_source(&app_with(Some("/opt/app/icon.png"), None, None)),
        IconSource::File("/opt/app/icon.png")
    );
    assert_eq!(
        icon_source(&app_with(Some("firefox"), None, None)),
        IconSource::Named("firefox")
    );
    assert_eq!(
        icon_source(&app_with(None, None, None)),
        IconSource::Named("application-x-executable")
    );
}

#[test]
fn subtitle_prefers_generic_name() {
    assert_eq!(
        result_subtitle(&app_with(None, Some("Web Browser"), Some("Browse"))),
        Some("Web Browser")
    );
    assert_eq!(result_subtitle(&app_with(None, None, Some("Browse"))), Some("Browse"));
    assert_eq!(result_subtitle(&app_with(None, None, None)), None);
}

#[test]
fn application_dirs_compare_paths_not_text() {
    let dirs = application_dirs_from(
        None,
        None,
        Some(&["/usr//share".to_string(), "/usr/local/share/".to_string()]),
    );
    assert_eq!(
        dirs,
        ["/usr//share/applications", "/usr/local/share/applications"]
    );
}
