//! Flask- and FastAPI-style route decorators in Python sources.

use vstd::prelude::*;
use crate::endpoint::{
    Endpoint, EndpointView, HttpMethod, endpoint_views, method_of_token, parse_http_method,
};
use crate::extract::{
    ExtractError, LanguageParser, collect_texts_named, find_last_named, gather, last_named,
    lemma_gather_nothing, one_or_none, text_views, texts_named,
};
use crate::syntax::{Capture, CaptureView, Grammar, capture_views, match_views, query_matches, run_query};
use crate::text::{chars_of, lower, same_text, spells, to_lower};

verus! {

/// The query for decorators that give the path first and the methods in a
/// keyword list, as in `@app.route("/x", methods=["GET"])`.
pub const METHOD_LIST_QUERY: &'static str = r#"
            (decorated_definition
              (decorator 
                (call
                  function: (attribute
                    object: (identifier) @app
                    attribute: (identifier) @decorator_name)
                  arguments: (argument_list
                    (string (string_content) @path)
                    (keyword_argument
                      name: (identifier) @param_name
                      value: (list (string (string_content) @http_method)*)))))
              definition: (function_definition
                name: (identifier) @handler))
            "#;

/// The query for decorators named after their verb, as in `@app.get("/x")`.
pub const VERB_QUERY: &'static str = r#"
            (decorated_definition
              (decorator 
                (call
                  function: (attribute
                    object: (identifier) @app
                    attribute: (identifier) @method)
                  arguments: (argument_list
                    (string (string_content) @path))))
              definition: (function_definition
                name: (identifier) @handler))
            "#;

/// The extractor for Python.
#[derive(Debug, Clone, Copy)]
pub struct PythonParser;

/// The method that a decorator's name stands for: an HTTP method token, or
/// `route`, which stands for GET.
pub open spec fn method_of_decorator(token: Seq<char>) -> Option<HttpMethod> {
    if lower(token) == "route"@ {
        Some(HttpMethod::Get)
    } else {
        method_of_token(token)
    }
}

/// Reads the method that a decorator's name stands for.
pub fn parse_decorator_method(token: &str) -> (out: Option<HttpMethod>)
    ensures
        out == method_of_decorator(token@),
{
    if spells(&to_lower(&chars_of(token)), "route") {
        Some(HttpMethod::Get)
    } else {
        parse_http_method(token)
    }
}

/// An endpoint placed where `place` starts.
pub open spec fn endpoint_at(
    method: HttpMethod,
    path: Seq<char>,
    handler: Seq<char>,
    place: CaptureView,
) -> EndpointView {
    EndpointView {
        method,
        path,
        handler,
        line: (place.row + 1) as usize,
        column: (place.column + 1) as usize,
        documentation: None,
    }
}

/// Whether the 1-based position of `place` fits the machine's integers.
pub open spec fn placeable(place: CaptureView) -> bool {
    place.row < usize::MAX && place.column < usize::MAX
}

/// The endpoints for the listed method names that name an HTTP method, in
/// order; any other entry of the list is dropped. All sit where the path
/// starts.
pub open spec fn listed_routes(
    methods: Seq<Seq<char>>,
    path: CaptureView,
    handler: Seq<char>,
) -> Seq<EndpointView>
    decreases methods.len(),
{
    if methods.len() == 0 {
        Seq::empty()
    } else {
        listed_routes(methods.drop_last(), path, handler) + one_or_none(
            match method_of_token(methods.last()) {
                Some(m) => Some(endpoint_at(m, path.text, handler, path)),
                None => None,
            },
        )
    }
}

/// The endpoints of one match of the method-list query: one per listed
/// method, or a single GET where the list is empty.
pub open spec fn listed_routes_of_match(caps: Seq<CaptureView>) -> Seq<EndpointView> {
    match (last_named(caps, "path"@), last_named(caps, "handler"@)) {
        (Some(path), Some(handler)) => if placeable(path) {
            let methods = texts_named(caps, "http_method"@);
            if methods.len() == 0 {
                seq![endpoint_at(HttpMethod::Get, path.text, handler.text, path)]
            } else {
                listed_routes(methods, path, handler.text)
            }
        } else {
            Seq::empty()
        },
        _ => Seq::empty(),
    }
}

/// The endpoint of one match of the verb query. It sits where the verb
/// starts.
pub open spec fn verb_route_of_match(caps: Seq<CaptureView>) -> Option<EndpointView> {
    match (last_named(caps, "method"@), last_named(caps, "path"@), last_named(caps, "handler"@)) {
        (Some(method), Some(path), Some(handler)) => match method_of_decorator(method.text) {
            Some(m) => if placeable(method) {
                Some(endpoint_at(m, path.text, handler.text, method))
            } else {
                None
            },
            None => None,
        },
        _ => None,
    }
}

/// The endpoints of the matches of the method-list query, in order.
pub open spec fn listed_routes_of_matches(matches: Seq<Seq<CaptureView>>) -> Seq<EndpointView> {
    gather(matches, |caps: Seq<CaptureView>| listed_routes_of_match(caps))
}

/// The endpoints of the matches of the verb query, in order.
pub open spec fn verb_routes_of_matches(matches: Seq<Seq<CaptureView>>) -> Seq<EndpointView> {
    gather(matches, |caps: Seq<CaptureView>| one_or_none(verb_route_of_match(caps)))
}

/// What the extractor returns for `content`: the endpoints of the
/// method-list pass followed by those of the verb pass.
pub open spec fn python_endpoints(content: Seq<char>) -> Result<Seq<EndpointView>, ExtractError> {
    match (
        query_matches(Grammar::Python, METHOD_LIST_QUERY@, content),
        query_matches(Grammar::Python, VERB_QUERY@, content),
    ) {
        (Some(listed), Some(verbs)) => Ok(
            listed_routes_of_matches(listed) + verb_routes_of_matches(verbs),
        ),
        _ => Err(ExtractError::SyntaxUnavailable),
    }
}

fn place_endpoint(method: HttpMethod, path: &str, handler: &str, place: &Capture) -> (out: Endpoint)
    requires
        placeable(place@),
    ensures
        out@ == endpoint_at(method, path@, handler@, place@),
{
    Endpoint {
        method,
        path: path.to_owned(),
        handler: handler.to_owned(),
        line: place.row + 1,
        column: place.column + 1,
        documentation: None,
    }
}

/// Appends the endpoints of one match of the method-list query to `out`.
pub fn push_listed_routes(caps: &Vec<Capture>, out: &mut Vec<Endpoint>)
    ensures
        endpoint_views(final(out)@) == endpoint_views(old(out)@) + listed_routes_of_match(
            capture_views(caps@),
        ),
{
    let ghost before = endpoint_views(out@);
    let path_at = find_last_named(caps, "path");
    let handler_at = find_last_named(caps, "handler");
    match (path_at, handler_at) {
        (Some(p), Some(h)) => {
            let path = &caps[p];
            let handler = &caps[h];
            if path.row < usize::MAX && path.column < usize::MAX {
                let methods = collect_texts_named(caps, "http_method");
                if methods.len() == 0 {
                    let e = place_endpoint(
                        HttpMethod::Get,
                        path.text.as_str(),
                        handler.text.as_str(),
                        path,
                    );
                    out.push(e);
                    assert(endpoint_views(out@) =~= before + seq![e@]);
                } else {
                    let mut i: usize = 0;
                    while i < methods.len()
                        invariant
                            i <= methods.len(),
                            placeable(path@),
                            endpoint_views(out@) == before + listed_routes(
                                text_views(methods@).take(i as int),
                                path@,
                                handler@.text,
                            ),
                        decreases methods.len() - i,
                    {
                        let ghost so_far = endpoint_views(out@);
                        let ghost seen = text_views(methods@).take(i as int + 1);
                        assert(seen.drop_last() =~= text_views(methods@).take(i as int));
                        assert(seen.last() == methods[i as int]@);
                        match parse_http_method(methods[i].as_str()) {
                            Some(m) => {
                                let e = place_endpoint(
                                    m,
                                    path.text.as_str(),
                                    handler.text.as_str(),
                                    path,
                                );
                                out.push(e);
                                assert(endpoint_views(out@) =~= so_far + seq![e@]);
                            },
                            None => {
                                assert(endpoint_views(out@) =~= so_far + Seq::<
                                    EndpointView,
                                >::empty());
                            },
                        }
                        i += 1;
                    }
                    assert(text_views(methods@).take(i as int) =~= text_views(methods@));
                }
            } else {
                assert(endpoint_views(out@) =~= before + Seq::<EndpointView>::empty());
            }
        },
        _ => {
            assert(endpoint_views(out@) =~= before + Seq::<EndpointView>::empty());
        },
    }
}

/// Reads one match of the verb query.
pub fn verb_route_in_match(caps: &Vec<Capture>) -> (out: Option<Endpoint>)
    ensures
        match out {
            Some(e) => verb_route_of_match(capture_views(caps@)) == Some(e@),
            None => verb_route_of_match(capture_views(caps@)) is None,
        },
{
    let method_at = find_last_named(caps, "method");
    let path_at = find_last_named(caps, "path");
    let handler_at = find_last_named(caps, "handler");
    match (method_at, path_at, handler_at) {
        (Some(m), Some(p), Some(h)) => {
            let method = &caps[m];
            match parse_decorator_method(method.text.as_str()) {
                Some(http) => {
                    if method.row < usize::MAX && method.column < usize::MAX {
                        Some(
                            place_endpoint(
                                http,
                                caps[p].text.as_str(),
                                caps[h].text.as_str(),
                                method,
                            ),
                        )
                    } else {
                        None
                    }
                },
                None => None,
            }
        },
        _ => None,
    }
}

/// Reads the endpoints out of the matches of both queries: first those of
/// the method-list query, then those of the verb query.
pub fn routes_in_matches(listed: &Vec<Vec<Capture>>, verbs: &Vec<Vec<Capture>>) -> (out: Vec<
    Endpoint,
>)
    ensures
        endpoint_views(out@) == listed_routes_of_matches(match_views(listed@))
            + verb_routes_of_matches(match_views(verbs@)),
{
    let mut out: Vec<Endpoint> = Vec::new();
    let ghost per_listed = |caps: Seq<CaptureView>| listed_routes_of_match(caps);
    let mut i: usize = 0;
    while i < listed.len()
        invariant
            i <= listed.len(),
            per_listed == |caps: Seq<CaptureView>| listed_routes_of_match(caps),
            endpoint_views(out@) == gather(match_views(listed@).take(i as int), per_listed),
        decreases listed.len() - i,
    {
        let ghost seen = match_views(listed@).take(i as int + 1);
        assert(seen.drop_last() =~= match_views(listed@).take(i as int));
        assert(seen.last() == capture_views(listed[i as int]@));
        push_listed_routes(&listed[i], &mut out);
        i += 1;
    }
    assert(match_views(listed@).take(i as int) =~= match_views(listed@));
    let ghost first = endpoint_views(out@);
    let ghost per_verb = |caps: Seq<CaptureView>| one_or_none(verb_route_of_match(caps));
    let mut j: usize = 0;
    while j < verbs.len()
        invariant
            j <= verbs.len(),
            per_verb == |caps: Seq<CaptureView>| one_or_none(verb_route_of_match(caps)),
            endpoint_views(out@) == first + gather(match_views(verbs@).take(j as int), per_verb),
        decreases verbs.len() - j,
    {
        let ghost so_far = endpoint_views(out@);
        let ghost seen = match_views(verbs@).take(j as int + 1);
        assert(seen.drop_last() =~= match_views(verbs@).take(j as int));
        assert(seen.last() == capture_views(verbs[j as int]@));
        match verb_route_in_match(&verbs[j]) {
            Some(e) => {
                out.push(e);
                assert(endpoint_views(out@) =~= so_far + seq![e@]);
            },
            None => {
                assert(endpoint_views(out@) =~= so_far + Seq::<EndpointView>::empty());
            },
        }
        j += 1;
    }
    assert(match_views(verbs@).take(j as int) =~= match_views(verbs@));
    out
}

impl LanguageParser for PythonParser {
    open spec fn extracted(&self, content: Seq<char>) -> Result<Seq<EndpointView>, ExtractError> {
        python_endpoints(content)
    }

    open spec fn supported(&self, extension: Seq<char>) -> bool {
        extension == "py"@
    }

    fn parse(&self, content: &str) -> (out: Result<Vec<Endpoint>, ExtractError>) {
        let listed = run_query(Grammar::Python, METHOD_LIST_QUERY, content);
        let verbs = run_query(Grammar::Python, VERB_QUERY, content);
        match (listed, verbs) {
            (Some(l), Some(v)) => Ok(routes_in_matches(&l, &v)),
            _ => Err(ExtractError::SyntaxUnavailable),
        }
    }

    fn supports_extension(&self, extension: &str) -> (out: bool) {
        same_text(extension, "py")
    }
}

/// A text without routes has no endpoints, and its extraction does not
/// fail: where both queries can be run and none of their matches stands for
/// a route, the result is the empty list.
pub proof fn lemma_no_route_no_endpoint(content: Seq<char>)
    requires
        query_matches(Grammar::Python, METHOD_LIST_QUERY@, content) matches Some(listed)
            && forall|i: int|
            0 <= i < listed.len() ==> listed_routes_of_match(#[trigger] listed[i]).len() == 0,
        query_matches(Grammar::Python, VERB_QUERY@, content) matches Some(verbs) && forall|i: int|
            0 <= i < verbs.len() ==> verb_route_of_match(#[trigger] verbs[i]) is None,
    ensures
        python_endpoints(content) == Ok::<Seq<EndpointView>, ExtractError>(Seq::empty()),
{
    let listed = query_matches(Grammar::Python, METHOD_LIST_QUERY@, content)->0;
    let verbs = query_matches(Grammar::Python, VERB_QUERY@, content)->0;
    let per_listed = |caps: Seq<CaptureView>| listed_routes_of_match(caps);
    let per_verb = |caps: Seq<CaptureView>| one_or_none(verb_route_of_match(caps));
    assert forall|i: int| 0 <= i < listed.len() implies (#[trigger] per_listed(listed[i])).len()
        == 0 by {
        assert(listed_routes_of_match(listed[i]).len() == 0);
    }
    assert forall|i: int| 0 <= i < verbs.len() implies (#[trigger] per_verb(verbs[i])).len()
        == 0 by {
        assert(verb_route_of_match(verbs[i]) is None);
    }
    lemma_gather_nothing(listed, per_listed);
    lemma_gather_nothing(verbs, per_verb);
    assert(listed_routes_of_matches(listed) + verb_routes_of_matches(verbs) =~= Seq::<
        EndpointView,
    >::empty());
}

} // verus!
