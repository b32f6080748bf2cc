use helto_launcher::desktop::DesktopApp;
use helto_launcher::exec::CommandLine;
use helto_launcher::search::{filter_and_rank, query_is_blank};
use helto_launcher::strmap::StringMap;

fn app(id: &str, name: &str, keywords: &[&str], generic: Option<&str>) -> DesktopApp {
    DesktopApp {
        id: id.into(),
        path: id.into(),
        name: name.into(),
        generic_name: generic.map(str::to_string),
        comment: Some("Example app".into()),
        exec_line: name.into(),
        command: CommandLine {
            program: name.into(),
            args: Vec::new(),
        },
        icon: None,
        terminal: false,
        categories: Vec::new(),
        keywords: keywords.iter().map(|value| value.to_string()).collect(),
    }
}

#[test]
fn ranks_stronger_name_matches_first() {
    let apps = vec![
        app("contains.desktop", "Best Firefox", &[], None),
        app("prefix.desktop", "Fire Control", &[], None),
        app("keyword.desktop", "Browser", &["fire"], None),
    ];

    let results = filter_and_rank(&apps, "fire", &StringMap::new());
    let ids: Vec<_> = results
        .iter()
        .map(|result| result.app.id.as_str())
        .collect();

    assert_eq!(
        ids,
        ["prefix.desktop", "contains.desktop", "keyword.desktop"]
    );
}

#[test]
fn empty_query_sorts_by_launch_count_then_name() {
    let apps = vec![
        app("b.desktop", "Beta", &[], None),
        app("a.desktop", "Alpha", &[], None),
        app("c.desktop", "Gamma", &[], None),
    ];
    let mut counts = StringMap::new();
    counts.insert("c.desktop".to_string(), 4);
    counts.insert("a.desktop".to_string(), 4);

    let results = filter_and_rank(&apps, "", &counts);
    let ids: Vec<_> = results
        .iter()
        .map(|result| result.app.id.as_str())
        .collect();

    assert_eq!(ids, ["a.desktop", "c.desktop", "b.desktop"]);
}

#[test]
fn scores_every_kind_of_match() {
    let apps = vec![
        app("fuzzy.desktop", "Gimp Editor", &[], None),
        app("exact.desktop", "GE", &[], None),
        app("generic.desktop", "Viewer", &[], Some("Image GE Tool")),
        app("none.desktop", "Xyz", &[], None),
    ];

    let results = filter_and_rank(&apps, "  gE ", &StringMap::new());
    let scored: Vec<_> = results
        .iter()
        .map(|result| (result.app.id.as_str(), result.score))
        .collect();

    assert_eq!(
        scored,
        [
            ("exact.desktop", 0),
            ("generic.desktop", 4),
            ("fuzzy.desktop", 5)
        ]
    );
}

#[test]
fn equal_scores_keep_name_then_input_order() {
    let apps = vec![
        app("2.desktop", "Term", &[], None),
        app("1.desktop", "term", &[], None),
        app("0.desktop", "Terminal", &[], None),
    ];

    let results = filter_and_rank(&apps, "term", &StringMap::new());
    let ids: Vec<_> = results
        .iter()
        .map(|result| result.app.id.as_str())
        .collect();

    assert_eq!(ids, ["2.desktop", "1.desktop", "0.desktop"]);
}

fn ids<'a>(results: &[helto_launcher::search::SearchResult<'a>]) -> Vec<&'a str> {
    results.iter().map(|result| result.app.id.as_str()).collect()
}

#[test]
fn blank_queries_are_recognized() {
    assert!(query_is_blank(""));
    assert!(query_is_blank(" \t\n"));
    assert!(!query_is_blank(" Fi "));
}

#[test]
fn case_and_surrounding_blanks_are_ignored() {
    let apps = vec![
        app("contains.desktop", "Best Firefox", &[], None),
        app("prefix.desktop", "Fire Control", &[], None),
        app("keyword.desktop", "Browser", &["fire"], None),
    ];
    let counts = StringMap::new();
    assert_eq!(
        filter_and_rank(&apps, "  FiRe\t", &counts),
        filter_and_rank(&apps, "fire", &counts)
    );
}

#[test]
fn launch_counts_do_not_reorder_a_search() {
    let apps = vec![
        app("b.desktop", "Beta Term", &[], None),
        app("a.desktop", "Alpha Term", &[], None),
    ];
    let mut counts = StringMap::new();
    counts.insert("b.desktop".to_string(), 9);
    let with_counts = filter_and_rank(&apps, "term", &counts);
    let without = filter_and_rank(&apps, "term", &StringMap::new());
    assert_eq!(with_counts, without);
    assert_eq!(ids(&with_counts), ["a.desktop", "b.desktop"]);
}
