use pinpath::changes::{compare_endpoints, detect_change_type, endpoints_equal};
use std::time::SystemTime;
use pinpath::languages::javascript::JavaScriptParser;
use pinpath::languages::python::PythonParser;
use pinpath::{
    ChangeEvent, ChangeSource, ChangeType, CodeRegion, Endpoint, EndpointChanges, FileDiff,
    HttpMethod, IncrementalParser, LanguageParser, LineChangeType,
};

fn endpoint(method: HttpMethod, path: &str, handler: &str, line: usize, column: usize) -> Endpoint {
    Endpoint {
        method,
        path: path.to_string(),
        handler: handler.to_string(),
        line,
        column,
        documentation: None,
    }
}

fn keys(list: &[Endpoint]) -> Vec<(HttpMethod, String, String, usize, usize)> {
    list.iter()
        .map(|e| (e.method, e.path.clone(), e.handler.clone(), e.line, e.column))
        .collect()
}

fn file_diff(path: &str, content: &str) -> FileDiff {
    FileDiff {
        path: path.to_string(),
        old_content: None,
        new_content: content.to_string(),
        changes: Vec::new(),
    }
}

fn event(diffs: Vec<FileDiff>) -> ChangeEvent {
    ChangeEvent {
        source: ChangeSource::Manual { description: "test".to_string() },
        diffs,
        timestamp: SystemTime::now(),
    }
}

#[test]
fn test_incremental_parser_creation() {
    let parser = IncrementalParser::new();
    assert!(parser.language_count() > 0);
}

#[test]
fn test_endpoint_changes_merge() {
    let mut changes1 = EndpointChanges::new();
    changes1.added.push(Endpoint {
        method: HttpMethod::Get,
        path: "/test".to_string(),
        handler: "test".to_string(),
        line: 1,
        column: 1,
        documentation: None,
    });

    let mut changes2 = EndpointChanges::new();
    changes2.added.push(Endpoint {
        method: HttpMethod::Post,
        path: "/test2".to_string(),
        handler: "test2".to_string(),
        line: 2,
        column: 1,
        documentation: None,
    });

    changes1.merge(changes2);
    assert_eq!(changes1.added.len(), 2);
}

#[test]
fn test_generate_endpoint_id() {
    let parser = IncrementalParser::new();
    let endpoint = Endpoint {
        method: HttpMethod::Get,
        path: "/api/users".to_string(),
        handler: "getUsers".to_string(),
        line: 10,
        column: 5,
        documentation: None,
    };

    let id = parser.generate_endpoint_id(&endpoint);
    assert_eq!(id, "get:/api/users:10");
}

#[test]
fn endpoint_ids_spell_method_and_line() {
    assert_eq!(endpoint(HttpMethod::Options, "/", "h", 0, 1).id(), "options:/:0");
    assert_eq!(
        endpoint(HttpMethod::Delete, "/a:b", "h", 1234567, 1).id(),
        "delete:/a:b:1234567"
    );
    assert_eq!(HttpMethod::Patch.label(), "Patch");
    assert_eq!(HttpMethod::Head.token(), "head");
}

#[test]
fn merge_appends_every_list_and_counts() {
    let mut a = EndpointChanges::new();
    assert!(!a.has_changes());
    assert_eq!(a.total_count(), 0);
    a.unchanged.push(endpoint(HttpMethod::Get, "/u", "h", 1, 1));
    assert!(!a.has_changes());
    let mut b = EndpointChanges::new();
    b.removed.push(endpoint(HttpMethod::Get, "/r", "h", 2, 1));
    b.unchanged.push(endpoint(HttpMethod::Get, "/v", "h", 3, 1));
    a.merge(b);
    assert!(a.has_changes());
    assert_eq!(a.total_count(), 3);
    assert_eq!(a.unchanged[0].path, "/u");
    assert_eq!(a.unchanged[1].path, "/v");
    assert_eq!(a.removed[0].path, "/r");
}

#[test]
fn list_held_against_itself_is_unchanged() {
    let list = vec![
        endpoint(HttpMethod::Get, "/a", "h1", 1, 1),
        endpoint(HttpMethod::Post, "/a", "h2", 1, 1),
        endpoint(HttpMethod::Get, "/a", "h3", 2, 1),
        endpoint(HttpMethod::Get, "/b", "h4", 1, 7),
    ];
    let changes = compare_endpoints(&list, &list);
    assert_eq!(changes.added.len(), 0);
    assert_eq!(changes.removed.len(), 0);
    assert_eq!(changes.modified.len(), 0);
    assert_eq!(keys(&changes.unchanged), keys(&list));
}

#[test]
fn last_endpoint_of_an_identity_stands_for_it() {
    let list = vec![
        endpoint(HttpMethod::Get, "/a", "first", 1, 1),
        endpoint(HttpMethod::Get, "/a", "second", 1, 9),
    ];
    let changes = compare_endpoints(&list, &list);
    assert_eq!(keys(&changes.unchanged), keys(&list[1..]));
    assert!(!changes.has_changes());
}

#[test]
fn moved_route_is_removed_and_added() {
    let mut old_source = String::new();
    for _ in 0..9 {
        old_source.push_str("// filler\n");
    }
    old_source.push_str("app.get('/users', listUsers);\n");
    let mut new_source = String::new();
    for _ in 0..19 {
        new_source.push_str("// filler\n");
    }
    new_source.push_str("app.get('/users', listUsers);\n");
    let old = JavaScriptParser.parse(&old_source).unwrap();
    let new = JavaScriptParser.parse(&new_source).unwrap();
    assert_eq!(old[0].line, 10);
    assert_eq!(new[0].line, 20);
    let changes = compare_endpoints(&old, &new);
    assert_eq!(changes.removed.len(), 1);
    assert_eq!(changes.added.len(), 1);
    assert_eq!(changes.modified.len(), 0);
    assert_eq!(changes.unchanged.len(), 0);
    assert_eq!(changes.removed[0].line, 10);
    assert_eq!(changes.added[0].line, 20);
}

#[test]
fn changed_flask_path_on_the_same_line() {
    let old = PythonParser
        .parse("@app.route(\"/old\")\ndef show():\n    pass\n")
        .unwrap();
    let new = PythonParser
        .parse("@app.route(\"/new\")\ndef show():\n    pass\n")
        .unwrap();
    assert_eq!(old.len(), 1);
    assert_eq!(new.len(), 1);
    assert_eq!(old[0].line, new[0].line);
    assert_eq!(detect_change_type(&old[0], &new[0]), ChangeType::PathChanged);
    // The path is part of the identity, so the two are different endpoints.
    let changes = compare_endpoints(&old, &new);
    assert_eq!(changes.modified.len(), 0);
    assert_eq!(changes.removed.len(), 1);
    assert_eq!(changes.added.len(), 1);
    assert_eq!(changes.removed[0].path, "/old");
    assert_eq!(changes.added[0].path, "/new");
}

#[test]
fn same_identity_with_other_content_is_modified() {
    let old = vec![
        endpoint(HttpMethod::Get, "/a", "old_handler", 3, 1),
        endpoint(HttpMethod::Get, "/b", "h", 4, 1),
        endpoint(HttpMethod::Get, "/gone", "h", 5, 1),
    ];
    let new = vec![
        endpoint(HttpMethod::Get, "/b", "h", 4, 9),
        endpoint(HttpMethod::Get, "/a", "new_handler", 3, 1),
        endpoint(HttpMethod::Put, "/fresh", "h", 6, 1),
    ];
    let changes = compare_endpoints(&old, &new);
    assert_eq!(keys(&changes.added), keys(&new[2..]));
    assert_eq!(keys(&changes.removed), keys(&old[2..]));
    assert_eq!(changes.unchanged.len(), 0);
    assert_eq!(changes.modified.len(), 2);
    assert_eq!(changes.modified[0].change_type, ChangeType::LineChanged);
    assert_eq!(changes.modified[0].old.column, 1);
    assert_eq!(changes.modified[0].new.column, 9);
    assert_eq!(changes.modified[1].change_type, ChangeType::HandlerChanged);
    assert_eq!(changes.modified[1].old.handler, "old_handler");
    assert_eq!(changes.modified[1].new.handler, "new_handler");
}

#[test]
fn change_types_follow_the_first_difference() {
    let base = endpoint(HttpMethod::Get, "/a", "h", 1, 1);
    let mut other = endpoint(HttpMethod::Post, "/b", "g", 2, 2);
    assert_eq!(detect_change_type(&base, &other), ChangeType::PathChanged);
    other.path = "/a".to_string();
    assert_eq!(detect_change_type(&base, &other), ChangeType::MethodChanged);
    other.method = HttpMethod::Get;
    assert_eq!(detect_change_type(&base, &other), ChangeType::HandlerChanged);
    other.handler = "h".to_string();
    assert_eq!(detect_change_type(&base, &other), ChangeType::LineChanged);
    other.line = 1;
    assert_eq!(detect_change_type(&base, &other), ChangeType::LineChanged);
    other.column = 1;
    assert!(endpoints_equal(&base, &other));
    other.documentation = Some("doc".to_string());
    assert!(endpoints_equal(&base, &other));
    assert_eq!(detect_change_type(&base, &other), ChangeType::ParametersChanged);
}

#[test]
fn second_pass_over_the_same_content_is_quiet() {
    let mut parser = IncrementalParser::new();
    let source = "app.get('/a', h);\napp.post('/b', h);\n";
    let first = parser.parse_changes(event(vec![file_diff("src/app.js", source)]));
    assert_eq!(first.added.len(), 2);
    assert_eq!(first.unchanged.len(), 0);
    let before = parser.get_endpoints_for_file("src/app.js");
    let second = parser.parse_changes(event(vec![file_diff("src/app.js", source)]));
    assert_eq!(second.added.len(), 0);
    assert_eq!(second.removed.len(), 0);
    assert_eq!(second.modified.len(), 0);
    assert_eq!(keys(&second.unchanged), keys(&before));
    assert_eq!(second.unchanged.len(), 2);
    assert_eq!(parser.get_all_endpoints().len(), 2);
}

#[test]
fn passes_keep_files_apart() {
    let mut parser = IncrementalParser::new();
    let changes = parser.parse_changes(event(vec![
        file_diff("a.js", "app.get('/a', h);\n"),
        file_diff("b.py", "@app.get(\"/b\")\ndef b(): ...\n"),
        file_diff("notes.txt", "app.get('/c', h);\n"),
        file_diff("main.go", "app.get('/d', h);\n"),
    ]));
    assert_eq!(changes.added.len(), 2);
    assert_eq!(parser.get_all_endpoints().len(), 2);
    assert_eq!(parser.get_endpoints_for_file("a.js").len(), 1);
    assert_eq!(parser.get_endpoints_for_file("b.py").len(), 1);
    assert_eq!(parser.get_endpoints_for_file("notes.txt").len(), 0);
    assert_eq!(parser.get_state().file_hashes().len(), 2);

    let changes = parser.parse_changes(event(vec![file_diff("a.js", "// nothing left\n")]));
    assert_eq!(changes.removed.len(), 1);
    assert_eq!(changes.removed[0].path, "/a");
    assert_eq!(changes.added.len(), 0);
    assert_eq!(parser.get_all_endpoints().len(), 1);
    assert_eq!(parser.get_all_endpoints()[0].path, "/b");
}

#[test]
fn content_hash_is_sha256_in_hex() {
    let mut parser = IncrementalParser::new();
    assert_eq!(
        parser.calculate_content_hash("abc"),
        "ba7816bf8f01cfea414140de5dae2223b00361a396177a9cb410ff61f20015ad"
    );
    assert_eq!(
        parser.calculate_content_hash(""),
        "e3b0c44298fc1c149afbf4c8996fb92427ae41e4649b934ca495991b7852b855"
    );
    parser.parse_changes(event(vec![file_diff("x.js", "abc")]));
    parser.parse_changes(event(vec![file_diff("x.js", "")]));
    let hashes = parser.get_state().file_hashes();
    assert_eq!(hashes.len(), 1);
    assert_eq!(hashes[0].path, "x.js");
    assert_eq!(
        hashes[0].hash,
        "e3b0c44298fc1c149afbf4c8996fb92427ae41e4649b934ca495991b7852b855"
    );
}

#[test]
fn regions_rebase_lines() {
    let parser = IncrementalParser::new();
    let regions = vec![
        CodeRegion {
            start_line: 10,
            end_line: 11,
            content: "app.get('/a', h);\napp.put('/b', h);".to_string(),
            has_changes: true,
            change_types: vec![LineChangeType::Added],
        },
        CodeRegion {
            start_line: 50,
            end_line: 50,
            content: "app.get('/skipped', h);".to_string(),
            has_changes: false,
            change_types: vec![],
        },
        CodeRegion {
            start_line: 0,
            end_line: 1,
            content: "app.post('/c', h);".to_string(),
            has_changes: true,
            change_types: vec![LineChangeType::Removed],
        },
    ];
    let found = parser.parse_regions(regions, "src/app.ts").unwrap();
    assert_eq!(found.len(), 3);
    assert_eq!((found[0].path.as_str(), found[0].line), ("/a", 10));
    assert_eq!((found[1].path.as_str(), found[1].line), ("/b", 11));
    assert_eq!((found[2].path.as_str(), found[2].line), ("/c", 1));
    assert_eq!(found[0].handler, "1:5");
}

#[test]
fn regions_of_unknown_languages_are_empty() {
    let parser = IncrementalParser::new();
    let regions = vec![CodeRegion {
        start_line: 1,
        end_line: 1,
        content: "app.get('/a', h);".to_string(),
        has_changes: true,
        change_types: vec![LineChangeType::Added],
    }];
    assert_eq!(parser.parse_regions(regions, "README.md").unwrap().len(), 0);
}

#[test]
fn textual_identity_follows_method_path_and_line() {
    let base = endpoint(HttpMethod::Get, "/a:1", "h", 2, 1);
    let same_key = endpoint(HttpMethod::Get, "/a:1", "other", 2, 9);
    let other_path = endpoint(HttpMethod::Get, "/a", "h", 12, 1);
    let other_method = endpoint(HttpMethod::Put, "/a:1", "h", 2, 1);
    let other_line = endpoint(HttpMethod::Get, "/a:1", "h", 3, 1);
    assert_eq!(base.id(), "get:/a:1:2");
    assert_eq!(base.id(), same_key.id());
    assert!(base.same_key(&same_key));
    for other in [&other_path, &other_method, &other_line] {
        assert_ne!(base.id(), other.id());
        assert!(!base.same_key(other));
    }
}

#[test]
fn region_over_the_whole_file_matches_full_extraction() {
    let parser = IncrementalParser::new();
    let source = "const a = 1;\napp.get('/a', h);\n\nrouter.patch('/b/:id', h);";
    let whole = vec![CodeRegion {
        start_line: 1,
        end_line: 4,
        content: source.to_string(),
        has_changes: true,
        change_types: vec![LineChangeType::Added],
    }];
    let by_region = parser.parse_regions(whole, "app.js").unwrap();
    let in_full = JavaScriptParser.parse(source).unwrap();
    assert_eq!(keys(&by_region), keys(&in_full));
    assert_eq!(by_region.len(), 2);
    assert_eq!(by_region[1].line, 4);
}
