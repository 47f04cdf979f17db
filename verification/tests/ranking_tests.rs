use scout::config::Config;
use scout::entry::{AppDescriptor, Entry, EntryKind, SystemAction};
use scout::search::{get_entries, resolve, top_matches};

fn app(name: &str, exec: &str) -> AppDescriptor {
    AppDescriptor {
        display_name: name.to_string(),
        executable_path: exec.to_string(),
        requires_terminal: false,
        icon_reference: String::new(),
    }
}

fn sample_catalog() -> Vec<Entry> {
    let apps = vec![app("Firefox", "/usr/bin/firefox"), app("Files", "/usr/bin/files")];
    get_entries(&apps)
}

fn cfg_with(max_results: usize) -> Config {
    let mut cfg = Config::default();
    cfg.max_results = max_results;
    cfg
}

fn titles(entries: &[Entry]) -> Vec<String> {
    entries.iter().map(|e| e.title.clone()).collect()
}

#[test]
fn catalog_order_and_fixed_actions() {
    let catalog = sample_catalog();
    assert_eq!(catalog.len(), 6);
    assert_eq!(
        titles(&catalog),
        vec!["Firefox", "Files", "Shutdown", "Restart", "Sleep", "Hibernate"]
    );
    assert!(matches!(catalog[2].kind, EntryKind::Action(SystemAction::Shutdown)));
    assert!(matches!(catalog[3].kind, EntryKind::Action(SystemAction::Restart)));
    assert!(matches!(catalog[4].kind, EntryKind::Action(SystemAction::Sleep)));
    assert!(matches!(catalog[5].kind, EntryKind::Action(SystemAction::Hibernate)));
}

#[test]
fn empty_query_returns_catalog_head() {
    let catalog = sample_catalog();
    let cfg = cfg_with(2);
    let result = resolve(&catalog, "", &cfg);
    assert_eq!(titles(&result), vec!["Firefox", "Files"]);
}

#[test]
fn all_space_query_is_empty_query() {
    let catalog = sample_catalog();
    let cfg = cfg_with(3);
    let result = resolve(&catalog, "   ", &cfg);
    assert_eq!(titles(&result), vec!["Firefox", "Files", "Shutdown"]);
}

#[test]
fn empty_query_short_catalog() {
    let catalog = sample_catalog();
    let cfg = cfg_with(100);
    let result = resolve(&catalog, "", &cfg);
    assert_eq!(result.len(), 6);
}

#[test]
fn fuzzy_query_picks_only_match() {
    let catalog = sample_catalog();
    let cfg = cfg_with(5);
    let result = resolve(&catalog, "fire", &cfg);
    assert_eq!(titles(&result), vec!["Firefox"]);
}

#[test]
fn fuzzy_query_without_match_is_empty() {
    let catalog = sample_catalog();
    let cfg = cfg_with(5);
    let result = resolve(&catalog, "zzqqy", &cfg);
    assert!(result.is_empty());
}

#[test]
fn complete_expression_yields_single_calc_entry() {
    let catalog = sample_catalog();
    let cfg = cfg_with(5);
    let result = resolve(&catalog, "10/2", &cfg);
    assert_eq!(result.len(), 1);
    assert_eq!(result[0].title, "5");
    assert!(matches!(result[0].kind, EntryKind::Result(_)));
}

#[test]
fn complete_expression_ranked_first() {
    let catalog = sample_catalog();
    let cfg = cfg_with(5);
    let result = resolve(&catalog, "2+2", &cfg);
    assert_eq!(result[0].title, "4");
    assert!(matches!(result[0].kind, EntryKind::Result(_)));
    assert_eq!(result.iter().filter(|e| matches!(e.kind, EntryKind::Result(_))).count(), 1);
}

#[test]
fn incomplete_expression_falls_back_to_prefix() {
    let catalog = sample_catalog();
    let cfg = cfg_with(5);
    let result = resolve(&catalog, "2+", &cfg);
    assert!(!result.is_empty());
    assert_eq!(result[0].title, "2");
    assert!(matches!(result[0].kind, EntryKind::Result(_)));
}

#[test]
fn empty_catalog_non_empty_query() {
    let catalog: Vec<Entry> = Vec::new();
    let cfg = cfg_with(5);
    assert!(resolve(&catalog, "hello", &cfg).is_empty());
    let result = resolve(&catalog, "2+2", &cfg);
    assert_eq!(titles(&result), vec!["4"]);
}

#[test]
fn result_is_bounded_by_max_results() {
    let mut apps = Vec::new();
    for i in 0..40 {
        let name = format!("app{}", i);
        apps.push(app(&name, "/usr/bin/app"));
    }
    let catalog = get_entries(&apps);
    let cfg = cfg_with(3);
    assert!(resolve(&catalog, "", &cfg).len() <= 3);
    assert!(resolve(&catalog, "app", &cfg).len() <= 3);
    assert!(resolve(&catalog, "2+2", &cfg).len() <= 3);
}

#[test]
fn zero_max_results_yields_nothing() {
    let catalog = sample_catalog();
    let cfg = cfg_with(0);
    assert!(resolve(&catalog, "2+2", &cfg).is_empty());
    assert!(resolve(&catalog, "", &cfg).is_empty());
}

#[test]
fn resolve_is_deterministic() {
    let catalog = sample_catalog();
    let cfg = cfg_with(5);
    for query in ["", "fire", "2+2", "2+", "files"] {
        let a = resolve(&catalog, query, &cfg);
        let b = resolve(&catalog, query, &cfg);
        assert_eq!(titles(&a), titles(&b));
    }
}

#[test]
fn equal_scores_keep_catalog_order() {
    let apps = vec![app("Editor", "/usr/bin/one"), app("Editor", "/usr/bin/two")];
    let catalog = get_entries(&apps);
    let result = top_matches(&catalog, "editor", 5);
    assert_eq!(result.len(), 2);
    match (&result[0].kind, &result[1].kind) {
        (EntryKind::App(first), EntryKind::App(second)) => {
            assert_eq!(first.executable_path, "/usr/bin/one");
            assert_eq!(second.executable_path, "/usr/bin/two");
        },
        _ => panic!("expected two application entries"),
    }
}

#[test]
fn top_matches_truncates() {
    let catalog = sample_catalog();
    let result = top_matches(&catalog, "", 4);
    assert_eq!(titles(&result), vec!["Firefox", "Files", "Shutdown", "Restart"]);
}
