use pinpath::languages::javascript::JavaScriptParser;
use pinpath::languages::php::PhpParser;
use pinpath::languages::python::PythonParser;
use pinpath::{detect_language, Endpoint, HttpMethod, LanguageParser};

#[test]
fn test_supports_javascript_extensions() {
    let parser = JavaScriptParser;
    assert!(parser.supports_extension("js"));
    assert!(parser.supports_extension("ts"));
    assert!(parser.supports_extension("tsx"));
    assert!(!parser.supports_extension("py"));
}

#[test]
fn javascript_test_parse_empty_content() {
    let parser = JavaScriptParser;
    let result = parser.parse("").unwrap();
    assert_eq!(result.len(), 0);
}

#[test]
fn test_supports_python_extension() {
    let parser = PythonParser;
    assert!(parser.supports_extension("py"));
    assert!(!parser.supports_extension("js"));
}

#[test]
fn python_test_parse_empty_content() {
    let parser = PythonParser;
    let result = parser.parse("").unwrap();
    assert_eq!(result.len(), 0);
}

#[test]
fn test_parse_basic_routes() {
    let parser = PhpParser::new().unwrap();

    let code = r#"
<?php

Route::get('/users', 'UserController@index');
Route::post('/users', 'UserController@store');
Route::put('/users/{id}', 'UserController@update');
Route::delete('/users/{id}', 'UserController@destroy');
        "#;

    let endpoints = parser.parse(code).unwrap();
    assert_eq!(endpoints.len(), 4);

    assert_eq!(endpoints[0].method, HttpMethod::Get);
    assert_eq!(endpoints[0].path, "/users");

    assert_eq!(endpoints[1].method, HttpMethod::Post);
    assert_eq!(endpoints[1].path, "/users");

    assert_eq!(endpoints[2].method, HttpMethod::Put);
    assert_eq!(endpoints[2].path, "/users/{id}");

    assert_eq!(endpoints[3].method, HttpMethod::Delete);
    assert_eq!(endpoints[3].path, "/users/{id}");
}

#[test]
fn test_parse_closure_routes() {
    let parser = PhpParser::new().unwrap();

    let code = r#"
<?php

Route::get('/api/status', function () {
    return response()->json(['status' => 'ok']);
});
        "#;

    let endpoints = parser.parse(code).unwrap();
    assert_eq!(endpoints.len(), 1);
    assert_eq!(endpoints[0].method, HttpMethod::Get);
    assert_eq!(endpoints[0].path, "/api/status");
}

fn summary(e: &Endpoint) -> (HttpMethod, String, String, usize, usize) {
    (e.method, e.path.clone(), e.handler.clone(), e.line, e.column)
}

#[test]
fn javascript_finds_two_router_calls() {
    let parser = JavaScriptParser;
    let found = parser
        .parse("router.get('/users', handler); router.post('/users', handler);")
        .unwrap();
    assert_eq!(found.len(), 2);
    assert_eq!(
        summary(&found[0]),
        (HttpMethod::Get, "/users".to_string(), "1:8".to_string(), 1, 8)
    );
    assert_eq!(
        summary(&found[1]),
        (HttpMethod::Post, "/users".to_string(), "1:39".to_string(), 1, 39)
    );
    assert!(found[0].documentation.is_none());
}

#[test]
fn javascript_positions_count_lines() {
    let parser = JavaScriptParser;
    let found = parser
        .parse("const app = express();\n\napp.DELETE('/items/:id', (req, res) => {});\n")
        .unwrap();
    assert_eq!(found.len(), 1);
    assert_eq!(
        summary(&found[0]),
        (HttpMethod::Delete, "/items/:id".to_string(), "3:5".to_string(), 3, 5)
    );
}

#[test]
fn javascript_skips_unknown_methods_and_computed_paths() {
    let parser = JavaScriptParser;
    let found = parser
        .parse("app.listen('/x', cb);\napp.get(prefix + '/x', cb);\napp.use('/y', cb);\n")
        .unwrap();
    assert_eq!(found.len(), 0);
}

#[test]
fn javascript_without_routes_is_empty() {
    let parser = JavaScriptParser;
    assert_eq!(parser.parse("function add(a, b) { return a + b; }\n").unwrap().len(), 0);
    assert_eq!(parser.parse("this is ((( not javascript").unwrap().len(), 0);
}

#[test]
fn python_finds_fastapi_decorator() {
    let parser = PythonParser;
    let found = parser
        .parse("@app.get(\"/users/{id}\")\ndef get_user(id): ...")
        .unwrap();
    assert_eq!(found.len(), 1);
    assert_eq!(
        summary(&found[0]),
        (HttpMethod::Get, "/users/{id}".to_string(), "get_user".to_string(), 1, 6)
    );
}

#[test]
fn python_flask_method_list_is_read_by_both_passes() {
    let parser = PythonParser;
    let found = parser
        .parse("@app.route(\"/items\", methods=[\"POST\"])\ndef items():\n    pass\n")
        .unwrap();
    assert_eq!(found.len(), 2);
    assert_eq!(
        summary(&found[0]),
        (HttpMethod::Post, "/items".to_string(), "items".to_string(), 1, 13)
    );
    assert_eq!(
        summary(&found[1]),
        (HttpMethod::Get, "/items".to_string(), "items".to_string(), 1, 6)
    );
}

#[test]
fn python_empty_method_list_is_get() {
    let parser = PythonParser;
    let found = parser
        .parse("@app.route(\"/items\", methods=[])\ndef items():\n    pass\n")
        .unwrap();
    assert_eq!(found.len(), 2);
    assert_eq!(
        summary(&found[0]),
        (HttpMethod::Get, "/items".to_string(), "items".to_string(), 1, 13)
    );
    assert_eq!(
        summary(&found[1]),
        (HttpMethod::Get, "/items".to_string(), "items".to_string(), 1, 6)
    );
}

#[test]
fn python_plain_route_is_get() {
    let parser = PythonParser;
    let found = parser
        .parse("@app.route(\"/home\")\ndef home():\n    return \"hi\"\n")
        .unwrap();
    assert_eq!(found.len(), 1);
    assert_eq!(
        summary(&found[0]),
        (HttpMethod::Get, "/home".to_string(), "home".to_string(), 1, 6)
    );
}

#[test]
fn python_without_routes_is_empty() {
    let parser = PythonParser;
    assert_eq!(parser.parse("def f(x):\n    return x + 1\n").unwrap().len(), 0);
    assert_eq!(parser.parse("@cache\ndef f(x):\n    return x\n").unwrap().len(), 0);
}

#[test]
fn php_keeps_handler_quotes() {
    let parser = PhpParser::new().unwrap();
    let found = parser
        .parse("Route::get('/users', 'UserController@index');")
        .unwrap();
    assert_eq!(found.len(), 1);
    assert_eq!(
        summary(&found[0]),
        (
            HttpMethod::Get,
            "/users".to_string(),
            "'UserController@index'".to_string(),
            1,
            8
        )
    );
}

#[test]
fn php_adds_leading_slash_and_folds_other_calls_to_get() {
    let parser = PhpParser::new().unwrap();
    let found = parser
        .parse("<?php\n  Route::resource(\"photos\",   PhotoController::class  );\nRoute::any('x', 'a'); Route::patch('/y', 'b');\n")
        .unwrap();
    assert_eq!(found.len(), 3);
    assert_eq!(
        summary(&found[0]),
        (
            HttpMethod::Get,
            "/photos".to_string(),
            "PhotoController::class".to_string(),
            2,
            10
        )
    );
    assert_eq!(
        summary(&found[1]),
        (HttpMethod::Get, "/x".to_string(), "'a'".to_string(), 3, 8)
    );
    assert_eq!(
        summary(&found[2]),
        (HttpMethod::Patch, "/y".to_string(), "'b'".to_string(), 3, 30)
    );
}

#[test]
fn php_closure_handler_ends_with_the_line() {
    let parser = PhpParser::new().unwrap();
    let found = parser
        .parse("Route::post('/api/status', function () {\n    return 1;\n});\n")
        .unwrap();
    assert_eq!(found.len(), 1);
    assert_eq!(found[0].handler, "function (");
}

#[test]
fn php_without_routes_is_empty() {
    let parser = PhpParser::new().unwrap();
    assert_eq!(parser.parse("<?php echo 'hello'; ?>").unwrap().len(), 0);
    assert_eq!(parser.parse("").unwrap().len(), 0);
    assert_eq!(parser.parse("Route::get(\"/a', 'x');").unwrap().len(), 0);
}

#[test]
fn php_helpers() {
    let parser = PhpParser::new().unwrap();
    assert_eq!(parser.extract_string_content("'abc'"), Some("abc".to_string()));
    assert_eq!(parser.extract_string_content("\"\""), Some("".to_string()));
    assert_eq!(parser.extract_string_content("'"), None);
    assert_eq!(parser.extract_string_content("'abc\""), None);
    assert_eq!(parser.extract_string_content("abc"), None);
    assert_eq!(parser.parse_route_method("POST"), HttpMethod::Post);
    assert_eq!(parser.parse_route_method("apiResource"), HttpMethod::Get);
    assert_eq!(parser.parse_route_method("options"), HttpMethod::Options);
    assert!(parser.supports_extension("php"));
    assert!(!parser.supports_extension("js"));
}

#[test]
fn detects_languages_by_extension() {
    assert_eq!(detect_language("src/app.js"), Some("javascript"));
    assert_eq!(detect_language("a.mjs"), Some("javascript"));
    assert_eq!(detect_language("a/b.c/x.ts"), Some("typescript"));
    assert_eq!(detect_language("x.tsx"), Some("typescript"));
    assert_eq!(detect_language("x.py"), Some("python"));
    assert_eq!(detect_language("x.go"), Some("go"));
    assert_eq!(detect_language("x.rs"), Some("rust"));
    assert_eq!(detect_language("x.rb"), Some("ruby"));
    assert_eq!(detect_language("routes/web.php"), Some("php"));
    assert_eq!(detect_language("X.java"), Some("java"));
    assert_eq!(detect_language("x.txt"), None);
    assert_eq!(detect_language("dir.js/readme"), None);
    assert_eq!(detect_language(".js"), None);
    assert_eq!(detect_language("a/.py"), None);
    assert_eq!(detect_language("noext"), None);
    assert_eq!(detect_language(""), None);
    assert_eq!(detect_language("archive.tar.py"), Some("python"));
}

#[test]
fn python_list_entries_that_name_no_method_are_dropped() {
    let parser = PythonParser;
    let found = parser
        .parse("@app.route(\"/items\", methods=[\"route\"])\ndef items():\n    pass\n")
        .unwrap();
    assert_eq!(found.len(), 1);
    assert_eq!(
        summary(&found[0]),
        (HttpMethod::Get, "/items".to_string(), "items".to_string(), 1, 6)
    );
    let bogus = parser
        .parse("@app.route(\"/items\", methods=[\"BOGUS\"])\ndef items():\n    pass\n")
        .unwrap();
    assert_eq!(bogus.len(), 1);
    assert_eq!(bogus[0].column, 6);
}
