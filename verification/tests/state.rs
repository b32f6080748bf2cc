use helto_launcher::state::{LauncherState, STATE_VERSION};

#[test]
fn records_launches() {
    let mut state = LauncherState::default();
    assert_eq!(state.version, STATE_VERSION);
    state.favorites.add("firefox.desktop");
    state.record_launch("firefox.desktop");
    state.record_launch("firefox.desktop");
    state.record_launch("term.desktop");

    assert_eq!(state.favorites.items, ["firefox.desktop"]);
    assert_eq!(state.launch_counts.get("firefox.desktop"), Some(&2));
    assert_eq!(state.launch_counts.get("term.desktop"), Some(&1));
    assert_eq!(state.launch_counts.get("other.desktop"), None);
    assert_eq!(state.last_selected_app.as_deref(), Some("term.desktop"));
}

#[test]
fn launch_counts_list_each_app_once_in_first_launch_order() {
    let mut state = LauncherState::default();
    state.record_launch("term.desktop");
    state.record_launch("firefox.desktop");
    state.record_launch("term.desktop");

    let counts = &state.launch_counts;
    assert_eq!(counts.len(), 2);
    let listed: Vec<(String, u64)> = (0..counts.len())
        .map(|i| {
            let (key, value) = counts.entry(i);
            (key.clone(), *value)
        })
        .collect();
    assert_eq!(
        listed,
        [("term.desktop".to_string(), 2), ("firefox.desktop".to_string(), 1)]
    );
}
