//! Express-style routes in JavaScript and TypeScript sources.

use vstd::prelude::*;
use crate::endpoint::{Endpoint, EndpointView, endpoint_views, method_of_token, parse_http_method};
use crate::extract::{
    ExtractError, LanguageParser, find_last_named, gather, last_named, lemma_gather_nothing,
    make_position_marker, one_or_none, position_marker,
};
use crate::syntax::{Capture, CaptureView, Grammar, capture_views, match_views, query_matches, run_query};
use crate::text::same_text;

verus! {

/// The query for calls shaped `object.method('path', ...)`.
pub const ROUTE_QUERY: &'static str = r#"
            (call_expression
              function: (member_expression
                object: (identifier) @app
                property: (property_identifier) @method)
              arguments: (arguments 
                (string (string_fragment) @path)
                . 
                (arrow_function)?)
            )
            "#;

/// The extractor for JavaScript and TypeScript.
#[derive(Debug, Clone, Copy)]
pub struct JavaScriptParser;

/// The endpoint that one match of the route query stands for: the `method`
/// capture must name an HTTP method and a `path` capture must be present.
/// The endpoint sits where the method token starts.
pub open spec fn route_of_match(caps: Seq<CaptureView>) -> Option<EndpointView> {
    match (last_named(caps, "method"@), last_named(caps, "path"@)) {
        (Some(method), Some(path)) => match method_of_token(method.text) {
            Some(http) => if method.row < usize::MAX && method.column < usize::MAX {
                Some(
                    EndpointView {
                        method: http,
                        path: path.text,
                        handler: position_marker(
                            (method.row + 1) as usize,
                            (method.column + 1) as usize,
                        ),
                        line: (method.row + 1) as usize,
                        column: (method.column + 1) as usize,
                        documentation: None,
                    },
                )
            } else {
                None
            },
            None => None,
        },
        _ => None,
    }
}

/// The endpoints of a list of matches, in order.
pub open spec fn routes_of_matches(matches: Seq<Seq<CaptureView>>) -> Seq<EndpointView> {
    gather(matches, |caps: Seq<CaptureView>| one_or_none(route_of_match(caps)))
}

/// What the extractor returns for `content`.
pub open spec fn javascript_endpoints(content: Seq<char>) -> Result<Seq<EndpointView>, ExtractError> {
    match query_matches(Grammar::JavaScript, ROUTE_QUERY@, content) {
        Some(matches) => Ok(routes_of_matches(matches)),
        None => Err(ExtractError::SyntaxUnavailable),
    }
}

/// Reads one match of the route query.
pub fn route_in_match(caps: &Vec<Capture>) -> (out: Option<Endpoint>)
    ensures
        match out {
            Some(e) => route_of_match(capture_views(caps@)) == Some(e@),
            None => route_of_match(capture_views(caps@)) is None,
        },
{
    let method_at = find_last_named(caps, "method");
    let path_at = find_last_named(caps, "path");
    match (method_at, path_at) {
        (Some(m), Some(p)) => {
            let method = &caps[m];
            match parse_http_method(method.text.as_str()) {
                Some(http) => {
                    if method.row < usize::MAX && method.column < usize::MAX {
                        let line = method.row + 1;
                        let column = method.column + 1;
                        Some(
                            Endpoint {
                                method: http,
                                path: caps[p].text.clone(),
                                handler: make_position_marker(line, column),
                                line,
                                column,
                                documentation: None,
                            },
                        )
                    } else {
                        None
                    }
                },
                None => None,
            }
        },
        _ => None,
    }
}

/// Reads the endpoints out of the matches of the route query.
pub fn routes_in_matches(matches: &Vec<Vec<Capture>>) -> (out: Vec<Endpoint>)
    ensures
        endpoint_views(out@) == routes_of_matches(match_views(matches@)),
{
    let mut out: Vec<Endpoint> = Vec::new();
    let mut i: usize = 0;
    let ghost per_match = |caps: Seq<CaptureView>| one_or_none(route_of_match(caps));
    while i < matches.len()
        invariant
            i <= matches.len(),
            per_match == |caps: Seq<CaptureView>| one_or_none(route_of_match(caps)),
            endpoint_views(out@) == gather(match_views(matches@).take(i as int), per_match),
        decreases matches.len() - i,
    {
        let ghost before = endpoint_views(out@);
        let ghost seen = match_views(matches@).take(i as int + 1);
        assert(seen.drop_last() =~= match_views(matches@).take(i as int));
        assert(seen.last() == capture_views(matches[i as int]@));
        match route_in_match(&matches[i]) {
            Some(e) => {
                out.push(e);
                assert(endpoint_views(out@) =~= before + seq![e@]);
            },
            None => {
                assert(endpoint_views(out@) =~= before + Seq::<EndpointView>::empty());
            },
        }
        i += 1;
    }
    assert(match_views(matches@).take(i as int) =~= match_views(matches@));
    out
}

impl LanguageParser for JavaScriptParser {
    open spec fn extracted(&self, content: Seq<char>) -> Result<Seq<EndpointView>, ExtractError> {
        javascript_endpoints(content)
    }

    open spec fn supported(&self, extension: Seq<char>) -> bool {
        extension == "js"@ || extension == "mjs"@ || extension == "ts"@ || extension == "tsx"@
    }

    fn parse(&self, content: &str) -> (out: Result<Vec<Endpoint>, ExtractError>) {
        match run_query(Grammar::JavaScript, ROUTE_QUERY, content) {
            Some(matches) => Ok(routes_in_matches(&matches)),
            None => Err(ExtractError::SyntaxUnavailable),
        }
    }

    fn supports_extension(&self, extension: &str) -> (out: bool) {
        same_text(extension, "js") || same_text(extension, "mjs") || same_text(extension, "ts")
            || same_text(extension, "tsx")
    }
}

/// A text without routes has no endpoints, and its extraction does not
/// fail: where the route query can be run and none of its matches stands
/// for a route, the result is the empty list.
pub proof fn lemma_no_route_no_endpoint(content: Seq<char>)
    requires
        query_matches(Grammar::JavaScript, ROUTE_QUERY@, content) matches Some(matches)
            && forall|i: int| 0 <= i < matches.len() ==> route_of_match(#[trigger] matches[i]) is None,
    ensures
        javascript_endpoints(content) == Ok::<Seq<EndpointView>, ExtractError>(Seq::empty()),
{
    let matches = query_matches(Grammar::JavaScript, ROUTE_QUERY@, content)->0;
    let per_match = |caps: Seq<CaptureView>| one_or_none(route_of_match(caps));
    assert forall|i: int| 0 <= i < matches.len() implies (#[trigger] per_match(matches[i])).len()
        == 0 by {
        assert(route_of_match(matches[i]) is None);
    }
    lemma_gather_nothing(matches, per_match);
}

} // verus!
