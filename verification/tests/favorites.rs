use helto_launcher::favorites::{Favorites, MAX_FAVORITES};

#[test]
fn enforces_max_favorites() {
    let mut favorites = Favorites::default();
    for id in ["a", "b", "c", "d", "e"] {
        assert!(favorites.add(id));
    }

    assert!(!favorites.add("f"));
    assert_eq!(favorites.items.len(), MAX_FAVORITES);
}

#[test]
fn toggles_and_reorders() {
    let mut favorites = Favorites::default();
    assert!(favorites.toggle("a"));
    assert!(favorites.toggle("b"));
    assert!(!favorites.toggle("a"));
    assert_eq!(favorites.items, ["b"]);

    favorites.add("c");
    favorites.add("d");
    assert!(favorites.reorder(2, 0));
    assert_eq!(favorites.items, ["d", "b", "c"]);
}

#[test]
fn hides_unavailable_without_removing() {
    let favorites = Favorites {
        items: vec!["a".into(), "stale".into(), "b".into()],
    };
    let available = ["a", "b"];

    assert_eq!(favorites.visible_items(&available), ["a", "b"]);
    assert_eq!(favorites.items[1], "stale");
}

#[test]
fn add_rejects_duplicates() {
    let mut favorites = Favorites::default();
    assert!(favorites.add("a"));
    assert!(!favorites.add("a"));
    assert!(favorites.contains("a"));
    assert!(!favorites.contains("b"));
    assert_eq!(favorites.items, ["a"]);
}

#[test]
fn can_add_when_present_even_if_full() {
    let mut favorites = Favorites::default();
    for id in ["a", "b", "c", "d", "e"] {
        favorites.add(id);
    }
    assert!(favorites.can_add("c"));
    assert!(!favorites.can_add("z"));
}

#[test]
fn toggle_twice_restores_list() {
    let mut favorites = Favorites {
        items: vec!["x".into(), "y".into()],
    };
    assert!(favorites.toggle("z"));
    assert!(!favorites.toggle("z"));
    assert_eq!(favorites.items, ["x", "y"]);
}

#[test]
fn remove_drops_every_copy() {
    let mut favorites = Favorites {
        items: vec!["a".into(), "b".into(), "a".into()],
    };
    assert!(favorites.remove("a"));
    assert_eq!(favorites.items, ["b"]);
    assert!(!favorites.remove("a"));
}

#[test]
fn reorder_rejects_bad_positions() {
    let mut favorites = Favorites {
        items: vec!["a".into(), "b".into()],
    };
    assert!(!favorites.reorder(0, 0));
    assert!(!favorites.reorder(2, 0));
    assert!(!favorites.reorder(0, 2));
    assert!(favorites.reorder(0, 1));
    assert_eq!(favorites.items, ["b", "a"]);
}
