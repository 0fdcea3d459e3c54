use pinpath::breaking::detect_breaking_changes;
use pinpath::config::{ConfigDiscovery, ConfigGenerator, ProjectStructure};
use pinpath::state::{FileHash, TrackedEndpoint};
use pinpath::text::{
    chars_of, decimal_chars, extension_of, includes, split_lines, split_tokens, text_of, to_lower,
    trim,
};
use pinpath::languages::{parse_file_content, source_kind, SourceKind};
use pinpath::metrics::ProjectSize;
use pinpath::watch::{
    convert_notify_event, is_skipped_directory, should_parse_file, should_visit, WatchEvent,
    WatchEventKind, WatcherRegistry,
};
use pinpath::{
    ChangeType, Endpoint, EndpointChange, EndpointChanges, EndpointState, FileEvent, FileEventType,
    HttpMethod,
};
use std::time::SystemTime;

fn endpoint(method: HttpMethod, path: &str, handler: &str, line: usize) -> Endpoint {
    Endpoint {
        method,
        path: path.to_string(),
        handler: handler.to_string(),
        line,
        column: 1,
        documentation: None,
    }
}

fn text(chars: &[char]) -> String {
    chars.iter().collect()
}

fn texts(rows: &[Vec<char>]) -> Vec<String> {
    rows.iter().map(|r| text(r)).collect()
}

fn raw(kind: WatchEventKind, paths: &[&str]) -> WatchEvent {
    WatchEvent { kind, paths: paths.iter().map(|p| p.to_string()).collect() }
}

fn shape(events: &[FileEvent]) -> Vec<(String, String)> {
    events
        .iter()
        .map(|e| {
            let kind = match &e.event_type {
                FileEventType::Created => "created".to_string(),
                FileEventType::Modified => "modified".to_string(),
                FileEventType::Deleted => "deleted".to_string(),
                FileEventType::Renamed { from, to } => format!("renamed {} {}", from, to),
            };
            (e.path.clone(), kind)
        })
        .collect()
}

#[test]
fn raw_events_become_file_events() {
    assert_eq!(
        shape(&convert_notify_event(raw(WatchEventKind::Create, &["a.js", "b.js"]))),
        vec![
            ("a.js".to_string(), "created".to_string()),
            ("b.js".to_string(), "created".to_string())
        ]
    );
    assert_eq!(
        shape(&convert_notify_event(raw(WatchEventKind::Modify, &["a.js"]))),
        vec![("a.js".to_string(), "modified".to_string())]
    );
    assert_eq!(
        shape(&convert_notify_event(raw(WatchEventKind::Remove, &["a.js"]))),
        vec![("a.js".to_string(), "deleted".to_string())]
    );
    assert_eq!(convert_notify_event(raw(WatchEventKind::Access, &["a.js"])).len(), 0);
    assert_eq!(
        shape(&convert_notify_event(raw(WatchEventKind::Any, &["a.js"]))),
        vec![("a.js".to_string(), "modified".to_string())]
    );
    assert_eq!(
        shape(&convert_notify_event(raw(WatchEventKind::Other, &["old.js", "new.js"]))),
        vec![("new.js".to_string(), "renamed old.js new.js".to_string())]
    );
    assert_eq!(
        shape(&convert_notify_event(raw(WatchEventKind::Other, &["a", "b", "c"]))),
        vec![
            ("a".to_string(), "modified".to_string()),
            ("b".to_string(), "modified".to_string()),
            ("c".to_string(), "modified".to_string())
        ]
    );
    assert_eq!(convert_notify_event(raw(WatchEventKind::Other, &[])).len(), 0);
}

#[test]
fn events_tell_which_file_to_read() {
    let created = FileEvent { path: "a.py".to_string(), event_type: FileEventType::Created };
    assert_eq!(created.file_to_read(), Some("a.py"));
    let unknown = FileEvent { path: "a.txt".to_string(), event_type: FileEventType::Modified };
    assert_eq!(unknown.file_to_read(), None);
    let deleted = FileEvent { path: "a.py".to_string(), event_type: FileEventType::Deleted };
    assert_eq!(deleted.file_to_read(), None);
    let renamed = FileEvent {
        path: "b.txt".to_string(),
        event_type: FileEventType::Renamed { from: "a.txt".to_string(), to: "b.php".to_string() },
    };
    assert_eq!(renamed.file_to_read(), Some("b.php"));
    assert!(should_parse_file("x/y.rb"));
    assert!(!should_parse_file("x/y"));
}

#[test]
fn walks_leave_out_dependencies_and_build_output() {
    for name in ["node_modules", ".git", ".pinpath", "target", "dist", "build"] {
        assert!(is_skipped_directory(name));
        assert!(!should_visit(name, true));
        assert!(should_visit(name, false));
    }
    assert!(!is_skipped_directory("src"));
    assert!(should_visit("src", true));
}

#[test]
fn breaking_changes_are_removals_and_changed_paths_or_methods() {
    let mut changes = EndpointChanges::new();
    assert_eq!(detect_breaking_changes(&changes).len(), 0);
    changes.removed.push(endpoint(HttpMethod::Get, "/gone", "h", 1));
    changes.removed.push(endpoint(HttpMethod::Delete, "/also", "h", 2));
    changes.added.push(endpoint(HttpMethod::Get, "/new", "h", 3));
    changes.modified.push(EndpointChange {
        old: endpoint(HttpMethod::Get, "/a", "h", 4),
        new: endpoint(HttpMethod::Get, "/b", "h", 4),
        change_type: ChangeType::PathChanged,
    });
    changes.modified.push(EndpointChange {
        old: endpoint(HttpMethod::Get, "/c", "h", 5),
        new: endpoint(HttpMethod::Get, "/c", "other", 5),
        change_type: ChangeType::HandlerChanged,
    });
    changes.modified.push(EndpointChange {
        old: endpoint(HttpMethod::Get, "/d", "h", 6),
        new: endpoint(HttpMethod::Post, "/d", "h", 6),
        change_type: ChangeType::MethodChanged,
    });
    assert_eq!(
        detect_breaking_changes(&changes),
        vec![
            "Removed endpoint: Get /gone".to_string(),
            "Removed endpoint: Delete /also".to_string(),
            "Changed path: Get /a -> /b".to_string(),
            "Changed method: Get /d -> Post /d".to_string(),
        ]
    );
}

fn structure(file_count: usize) -> ProjectStructure {
    ProjectStructure {
        project_type: "single".to_string(),
        file_count,
        total_size: 0,
        roots: vec![],
    }
}

#[test]
fn scan_settings_follow_the_file_count() {
    let generator = ConfigGenerator::new(true);
    assert!(generator.is_debug());
    let small = generator.calculate_performance_config(&structure(1000));
    assert_eq!(
        (
            small.threads.as_str(),
            small.cache_strategy.as_str(),
            small.max_file_size.as_str(),
            small.estimated_scan_time.as_str()
        ),
        ("auto", "minimal", "1MB", "<10 seconds")
    );
    let medium = generator.calculate_performance_config(&structure(5000));
    assert_eq!(
        (
            medium.threads.as_str(),
            medium.cache_strategy.as_str(),
            medium.max_file_size.as_str(),
            medium.estimated_scan_time.as_str()
        ),
        ("4", "balanced", "1MB", "30-60 seconds")
    );
    let large = generator.calculate_performance_config(&structure(10000));
    assert_eq!(
        (
            large.threads.as_str(),
            large.cache_strategy.as_str(),
            large.max_file_size.as_str(),
            large.estimated_scan_time.as_str()
        ),
        ("8", "balanced", "512KB", "30-60 seconds")
    );
    let huge = generator.calculate_performance_config(&structure(10001));
    assert_eq!(
        (
            huge.threads.as_str(),
            huge.cache_strategy.as_str(),
            huge.max_file_size.as_str(),
            huge.estimated_scan_time.as_str()
        ),
        ("8", "aggressive", "512KB", "2-5 minutes")
    );
}

#[test]
fn project_structure_is_told_from_its_directories() {
    let discovery = ConfigDiscovery::new(false);
    assert!(!discovery.is_debug());
    for name in ["apps", "packages", "services", "libs", "src", "backend", "frontend", "api", "web"] {
        assert!(discovery.is_potential_app_root(name));
    }
    assert!(!discovery.is_potential_app_root("server"));
    assert!(discovery.is_uncounted_directory(".next"));
    assert!(discovery.is_uncounted_directory("__pycache__"));
    assert!(!discovery.is_uncounted_directory("src"));
    assert!(discovery.manifest_mentions_workspaces("{ \"workspaces\": [] }"));
    assert!(discovery.manifest_mentions_workspaces("members = [\"packages/a\"]"));
    assert!(!discovery.manifest_mentions_workspaces("{ \"name\": \"x\" }"));
    assert!(discovery.is_monorepo(true, 0));
    assert!(discovery.is_monorepo(false, 2));
    assert!(!discovery.is_monorepo(false, 1));
    let roots = vec!["./api".to_string(), "./web".to_string()];
    assert_eq!(discovery.describe_structure(true, 3, 9, roots.clone()).project_type, "monorepo");
    let multi = discovery.describe_structure(false, 3, 9, roots.clone());
    assert_eq!(multi.project_type, "multi-app");
    assert_eq!((multi.file_count, multi.total_size, multi.roots.len()), (3, 9, 2));
    assert_eq!(
        discovery.describe_structure(false, 3, 9, vec!["./api".to_string()]).project_type,
        "single"
    );
}

#[test]
fn snapshots_keep_the_last_entry_of_an_identity() {
    let now = SystemTime::now();
    let entries = vec![
        TrackedEndpoint { file: "a.js".to_string(), endpoint: endpoint(HttpMethod::Get, "/a", "first", 1) },
        TrackedEndpoint { file: "b.js".to_string(), endpoint: endpoint(HttpMethod::Get, "/b", "h", 1) },
        TrackedEndpoint { file: "c.js".to_string(), endpoint: endpoint(HttpMethod::Get, "/a", "last", 1) },
    ];
    let hashes = vec![
        FileHash { path: "a.js".to_string(), hash: "1".to_string() },
        FileHash { path: "a.js".to_string(), hash: "2".to_string() },
    ];
    let state = EndpointState::from_snapshot(entries, hashes, now);
    assert_eq!(state.entries().len(), 2);
    assert_eq!(state.entries()[0].endpoint.path, "/b");
    assert_eq!(state.entries()[1].endpoint.handler, "last");
    assert_eq!(state.entries()[1].file, "c.js");
    assert_eq!(state.file_hashes().len(), 1);
    assert_eq!(state.hash_of("a.js"), Some("2"));
    assert_eq!(state.hash_of("b.js"), None);
    assert_eq!(state.last_updated(), now);
    assert_eq!(state.endpoints_for_file("c.js").len(), 1);
    assert_eq!(state.endpoints_for_file("a.js").len(), 0);
}

#[test]
fn inventory_gives_way_to_a_file_that_takes_an_identity_over() {
    let mut state = EndpointState::new(SystemTime::now());
    let first = state.reconcile_file(
        "a.js",
        vec![endpoint(HttpMethod::Get, "/x", "a", 1), endpoint(HttpMethod::Get, "/y", "a", 2)],
        "h1".to_string(),
    );
    assert_eq!(first.added.len(), 2);
    let second =
        state.reconcile_file("b.js", vec![endpoint(HttpMethod::Get, "/x", "b", 1)], "h2".to_string());
    assert_eq!(second.added.len(), 1);
    assert_eq!(state.entries().len(), 2);
    assert_eq!(state.entries()[0].endpoint.path, "/y");
    assert_eq!(state.entries()[0].file, "a.js");
    assert_eq!(state.entries()[1].endpoint.handler, "b");
    assert_eq!(state.entries()[1].file, "b.js");
    assert_eq!(state.hash_of("a.js"), Some("h1"));
    assert_eq!(state.hash_of("b.js"), Some("h2"));
}

#[test]
fn text_is_cut_into_lines_and_tokens() {
    let chars = chars_of("a\r\nb\rc\n\nd");
    assert_eq!(texts(&split_lines(&chars)), vec!["a", "b\rc", "", "d"]);
    assert_eq!(texts(&split_tokens(&chars, true)), vec!["a\r\n", "b\r", "c\n", "\n", "d"]);
    assert_eq!(texts(&split_tokens(&chars, false)), vec!["a\r\n", "b\rc\n", "\n", "d"]);
    assert_eq!(split_lines(&chars_of("")).len(), 0);
    assert_eq!(texts(&split_lines(&chars_of("x\n"))), vec!["x"]);
    assert_eq!(texts(&split_lines(&chars_of("\n"))), vec![""]);
    let sample = "one\ntwo\r\nthree\rfour\n\n";
    let expected: Vec<String> = sample.lines().map(|l| l.to_string()).collect();
    assert_eq!(texts(&split_lines(&chars_of(sample))), expected);
}

#[test]
fn text_helpers_agree_with_their_names() {
    assert_eq!(text(&trim(&chars_of("  \t x y \u{a0}\n"))), "x y");
    assert_eq!(text(&trim(&chars_of(" \n "))), "");
    assert_eq!(text(&trim(&chars_of("x"))), "x");
    assert_eq!(text(&to_lower(&chars_of("GeT-É"))), "get-É");
    assert_eq!(text(&decimal_chars(0)), "0");
    assert_eq!(text(&decimal_chars(9)), "9");
    assert_eq!(text(&decimal_chars(10)), "10");
    assert_eq!(text(&decimal_chars(4096)), "4096");
    assert_eq!(text_of(&chars_of("héllo"), 1, 4), "éll");
    assert_eq!(extension_of("a/b.tar.gz").map(|e| text(&e)), Some("gz".to_string()));
    assert_eq!(extension_of("a.b/c").map(|e| text(&e)), None);
    assert_eq!(extension_of("a/.hidden").map(|e| text(&e)), None);
    assert_eq!(extension_of("name.").map(|e| text(&e)), Some("".to_string()));
    assert!(includes(&chars_of("workspace"), &chars_of("space")));
    assert!(includes(&chars_of("abc"), &chars_of("")));
    assert!(includes(&chars_of(""), &chars_of("")));
    assert!(!includes(&chars_of("ab"), &chars_of("abc")));
    assert!(!includes(&chars_of("abab"), &chars_of("bb")));
}

#[test]
fn registry_replaces_and_ends_watches() {
    let mut registry = WatcherRegistry::new();
    assert!(!registry.is_watching("watch:/a"));
    assert_eq!(registry.start_watching("/a"), "watch:/a");
    assert_eq!(registry.start_watching("/b"), "watch:/b");
    assert_eq!(registry.start_watching("/a"), "watch:/a");
    assert_eq!(registry.watches().len(), 2);
    assert_eq!(registry.watches()[0].path, "/b");
    assert_eq!(registry.watches()[1].path, "/a");
    assert_eq!(registry.watches()[1].id, "watch:/a");
    assert!(registry.is_watching("watch:/a"));
    assert!(registry.stop_watching("watch:/b"));
    assert!(!registry.stop_watching("watch:/b"));
    assert!(!registry.is_watching("watch:/b"));
    assert_eq!(registry.watches().len(), 1);
}

#[test]
fn files_go_to_the_extractor_of_their_extension() {
    assert_eq!(source_kind("a/b.mjs"), Some(SourceKind::JavaScript));
    assert_eq!(source_kind("b.tsx"), Some(SourceKind::JavaScript));
    assert_eq!(source_kind("b.py"), Some(SourceKind::Python));
    assert_eq!(source_kind("b.php"), Some(SourceKind::Php));
    assert_eq!(source_kind("b.go"), None);
    let js = parse_file_content("app.put('/x', h);", "srv/app.ts").unwrap();
    assert_eq!((js.len(), js[0].method, js[0].path.as_str()), (1, HttpMethod::Put, "/x"));
    let py = parse_file_content("@api.delete(\"/y\")\ndef drop(): ...\n", "srv/app.py").unwrap();
    assert_eq!((py.len(), py[0].method, py[0].handler.as_str()), (1, HttpMethod::Delete, "drop"));
    let php = parse_file_content("Route::head('z', 'C@h');", "routes/web.php").unwrap();
    assert_eq!((php.len(), php[0].method, php[0].path.as_str()), (1, HttpMethod::Head, "/z"));
    assert_eq!(parse_file_content("app.put('/x', h);", "main.go").unwrap().len(), 0);
    assert_eq!(parse_file_content("app.put('/x', h);", "Makefile").unwrap().len(), 0);
}

#[test]
fn project_sizes_have_expected_file_counts() {
    assert_eq!(ProjectSize::Small.expected_file_count(), (10, 50));
    assert_eq!(ProjectSize::Medium.expected_file_count(), (100, 500));
    assert_eq!(ProjectSize::Large.expected_file_count(), (1000, 5000));
}
