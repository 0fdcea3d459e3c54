//! Laravel-style `Route::` calls in PHP sources, found line by line.

use regex::Regex;
use vstd::prelude::*;
use crate::endpoint::{Endpoint, EndpointView, HttpMethod, endpoint_views, method_of_token, parse_http_method};
use crate::extract::{ExtractError, LanguageParser, gather, lemma_gather_nothing, one_or_none};
use crate::text::{
    chars_between, chars_of, lines, rows, same_text, split_lines, text_of_all, trim, trimmed,
};

verus! {

#[verifier::external_type_specification]
#[verifier::external_body]
pub struct ExRegex(Regex);

/// The pattern of a route call on one line: the method after `Route::`,
/// the quoted path, and what follows the comma up to the next closing
/// bracket.
pub const ROUTE_PATTERN: &'static str =
    r#"Route::(get|post|put|delete|patch|options|head|any|match|resource|apiResource)\s*\(\s*(['"][^'"]*['"])\s*,([^)]*)\)"#;

/// Why the PHP extractor could not be set up.
#[derive(Debug, Clone, Copy, PartialEq, Eq, Structural)]
pub enum PhpSetupError {
    /// The route pattern was refused by the regex engine.
    PatternRefused,
}

/// The extractor for PHP. It holds the compiled route pattern.
#[derive(Debug)]
pub struct PhpParser {
    /// Always the compiled form of [`ROUTE_PATTERN`]: `new` is the only
    /// place that fills it, and the reading of matches relies on that.
    pattern: Regex,
}

/// One group of a match: its text and the byte offset at which it starts
/// in the line.
#[derive(Debug)]
pub struct Group {
    pub start: usize,
    pub text: String,
}

/// The mathematical value of a [`Group`].
pub struct GroupView {
    pub start: usize,
    pub text: Seq<char>,
}

impl View for Group {
    type V = GroupView;

    open spec fn view(&self) -> GroupView {
        GroupView { start: self.start, text: self.text@ }
    }
}

impl Group {
    /// The group with this text, starting at `start`.
    pub fn at(start: usize, text: &str) -> (out: Group)
        ensures
            out@ == (GroupView { start, text: text@ }),
    {
        Group { start, text: text.to_owned() }
    }
}

/// The value of a group that may have taken no part in a match.
pub open spec fn group_view(g: Option<Group>) -> Option<GroupView> {
    match g {
        Some(g) => Some(g@),
        None => None,
    }
}

/// One match of the route pattern: the method, the quoted path and the
/// handler expression.
#[derive(Debug)]
pub struct RouteMatch {
    pub method: Option<Group>,
    pub path: Option<Group>,
    pub handler: Option<Group>,
}

/// The mathematical value of a [`RouteMatch`].
pub struct RouteMatchView {
    pub method: Option<GroupView>,
    pub path: Option<GroupView>,
    pub handler: Option<GroupView>,
}

impl View for RouteMatch {
    type V = RouteMatchView;

    open spec fn view(&self) -> RouteMatchView {
        RouteMatchView {
            method: group_view(self.method),
            path: group_view(self.path),
            handler: group_view(self.handler),
        }
    }
}

impl RouteMatch {
    /// The match with these three groups.
    pub fn of(method: Option<Group>, path: Option<Group>, handler: Option<Group>) -> (out: RouteMatch)
        ensures
            out.method == method,
            out.path == path,
            out.handler == handler,
    {
        RouteMatch { method, path, handler }
    }
}

/// The values of a list of matches.
pub open spec fn route_match_views(s: Seq<RouteMatch>) -> Seq<RouteMatchView> {
    Seq::new(s.len(), |i: int| s[i]@)
}

/// The matches of the route pattern in one line, from left to right and not
/// overlapping, as the regex engine finds them.
pub uninterp spec fn route_matches(line: Seq<char>) -> Seq<RouteMatchView>;

/// Whether the regex engine accepts `pattern`: it is valid, and the
/// compiled form stays within the engine's default size limit.
pub uninterp spec fn pattern_accepted(pattern: Seq<char>) -> bool;

/// Compiles a pattern with `regex::Regex::new`; `None` where the engine
/// refuses it. The contract only names the outcome: whether a pattern is
/// accepted depends on the pattern alone.
#[verifier::external_body]
fn compile(pattern: &str) -> (out: Option<Regex>)
    ensures
        out is Some <==> pattern_accepted(pattern@),
{
    Regex::new(pattern).ok()
}

/// Lists what `regex::Regex::captures_iter` finds in `line` for the
/// extractor's pattern, with the groups 1, 2 and 3 of each match. An
/// extractor only ever holds the route pattern, so the contract names the
/// outcome by the line alone.
#[verifier::external_body]
fn route_captures(parser: &PhpParser, line: &str) -> (out: Vec<RouteMatch>)
    ensures
        route_match_views(out@) == route_matches(line@),
{
    parser.pattern.captures_iter(line).map(|found| RouteMatch::of(
        found.get(1).map(|group| Group::at(group.start(), group.as_str())),
        found.get(2).map(|group| Group::at(group.start(), group.as_str())),
        found.get(3).map(|group| Group::at(group.start(), group.as_str())),
    )).collect()
}

/// The method that a route call's name stands for. Names that are no HTTP
/// method (`any`, `match`, `resource`, `apiResource`) fold to GET.
pub open spec fn route_method(name: Seq<char>) -> HttpMethod {
    match method_of_token(name) {
        Some(m) => m,
        None => HttpMethod::Get,
    }
}

/// What stands between the quotes of a quoted string; `None` where the text
/// is not wrapped in a pair of equal quotes.
pub open spec fn quoted_content(text: Seq<char>) -> Option<Seq<char>> {
    if text.len() >= 2 && ((text[0] == '"' && text.last() == '"') || (text[0] == '\''
        && text.last() == '\'')) {
        Some(text.subrange(1, text.len() - 1))
    } else {
        None
    }
}

/// A path with a leading slash: the path itself where it has one.
pub open spec fn with_leading_slash(path: Seq<char>) -> Seq<char> {
    if path.len() > 0 && path[0] == '/' {
        path
    } else {
        seq!['/'] + path
    }
}

/// The handler of a match: the text after the comma without white space
/// around it, or `anonymous` where the match holds none.
pub open spec fn handler_text(handler: Option<GroupView>) -> Seq<char> {
    match handler {
        Some(h) => trimmed(h.text),
        None => "anonymous"@,
    }
}

/// The endpoint that one match in the line numbered `line` stands for. The
/// column is that of the method's name, counted from 1.
pub open spec fn route_of_match(found: RouteMatchView, line: usize) -> Option<EndpointView> {
    match (found.method, found.path) {
        (Some(method), Some(path)) => match quoted_content(path.text) {
            Some(inner) => if method.start < usize::MAX {
                Some(
                    EndpointView {
                        method: route_method(method.text),
                        path: with_leading_slash(inner),
                        handler: handler_text(found.handler),
                        line,
                        column: (method.start + 1) as usize,
                        documentation: None,
                    },
                )
            } else {
                None
            },
            None => None,
        },
        _ => None,
    }
}

/// The endpoints of the matches of one line.
pub open spec fn routes_of_matches(matches: Seq<RouteMatchView>, line: usize) -> Seq<EndpointView> {
    gather(matches, |found: RouteMatchView| one_or_none(route_of_match(found, line)))
}

/// The endpoints of the first `n` lines of a text.
pub open spec fn routes_of_lines(text_lines: Seq<Seq<char>>, n: int) -> Seq<EndpointView>
    decreases n,
{
    if n <= 0 {
        Seq::empty()
    } else {
        routes_of_lines(text_lines, n - 1) + routes_of_matches(
            route_matches(text_lines[n - 1]),
            n as usize,
        )
    }
}

/// What the extractor returns for `content`: the endpoints of its lines,
/// from the first line to the last.
pub open spec fn php_endpoints(content: Seq<char>) -> Seq<EndpointView> {
    routes_of_lines(lines(content), lines(content).len() as int)
}

impl PhpParser {
    /// Sets the extractor up by compiling the route pattern. It succeeds
    /// exactly where the regex engine accepts the pattern, and fails with
    /// `PatternRefused` otherwise.
    pub fn new() -> (out: Result<PhpParser, PhpSetupError>)
        ensures
            out is Ok <==> pattern_accepted(ROUTE_PATTERN@),
            out matches Err(e) ==> e == PhpSetupError::PatternRefused,
    {
        match compile(ROUTE_PATTERN) {
            Some(pattern) => Ok(PhpParser { pattern }),
            None => Err(PhpSetupError::PatternRefused),
        }
    }

    /// The method that a route call's name stands for.
    pub fn parse_route_method(&self, method_name: &str) -> (out: HttpMethod)
        ensures
            out == route_method(method_name@),
    {
        match parse_http_method(method_name) {
            Some(m) => m,
            None => HttpMethod::Get,
        }
    }

    /// What stands between the quotes of a quoted string.
    pub fn extract_string_content(&self, text: &str) -> (out: Option<String>)
        ensures
            match out {
                Some(inner) => quoted_content(text@) == Some(inner@),
                None => quoted_content(text@) is None,
            },
    {
        let chars = chars_of(text);
        let n = chars.len();
        if n >= 2 && ((chars[0] == '"' && chars[n - 1] == '"') || (chars[0] == '\'' && chars[n - 1]
            == '\'')) {
            Some(text_of_all(&chars_between(&chars, 1, n - 1)))
        } else {
            None
        }
    }

    /// Reads one match found in the line numbered `line`.
    pub fn route_in_match(&self, found: &RouteMatch, line: usize) -> (out: Option<Endpoint>)
        ensures
            match out {
                Some(e) => route_of_match(found@, line) == Some(e@),
                None => route_of_match(found@, line) is None,
            },
    {
        match (&found.method, &found.path) {
            (Some(method), Some(path)) => {
                match self.extract_string_content(path.text.as_str()) {
                    Some(inner) => {
                        if method.start < usize::MAX {
                            let inner_chars = chars_of(inner.as_str());
                            let normalized = if inner_chars.len() > 0 && inner_chars[0] == '/' {
                                inner
                            } else {
                                let mut with_slash: Vec<char> = Vec::new();
                                with_slash.push('/');
                                let ghost start = with_slash@;
                                crate::text::append_chars(&mut with_slash, &inner_chars);
                                assert(start =~= seq!['/']);
                                text_of_all(&with_slash)
                            };
                            let handler = match &found.handler {
                                Some(h) => text_of_all(&trim(&chars_of(h.text.as_str()))),
                                None => "anonymous".to_owned(),
                            };
                            Some(
                                Endpoint {
                                    method: self.parse_route_method(method.text.as_str()),
                                    path: normalized,
                                    handler,
                                    line,
                                    column: method.start + 1,
                                    documentation: None,
                                },
                            )
                        } else {
                            None
                        }
                    },
                    None => None,
                }
            },
            _ => None,
        }
    }

    /// Appends the endpoints of the matches of one line to `out`.
    pub fn routes_in_line(&self, matches: &Vec<RouteMatch>, line: usize, out: &mut Vec<Endpoint>)
        ensures
            endpoint_views(final(out)@) == endpoint_views(old(out)@) + routes_of_matches(
                route_match_views(matches@),
                line,
            ),
    {
        let ghost base = endpoint_views(out@);
        let ghost per_match = |found: RouteMatchView| one_or_none(route_of_match(found, line));
        let ghost all = route_match_views(matches@);
        let mut i: usize = 0;
        assert(base + gather(all.take(0), per_match) =~= base);
        while i < matches.len()
            invariant
                i <= matches.len(),
                all == route_match_views(matches@),
                per_match == |found: RouteMatchView| one_or_none(route_of_match(found, line)),
                endpoint_views(out@) == base + gather(all.take(i as int), per_match),
            decreases matches.len() - i,
        {
            let ghost so_far = endpoint_views(out@);
            let ghost seen = all.take(i as int + 1);
            assert(seen.drop_last() =~= all.take(i as int));
            assert(seen.last() == matches[i as int]@);
            match self.route_in_match(&matches[i], line) {
                Some(e) => {
                    out.push(e);
                    assert(endpoint_views(out@) =~= so_far + seq![e@]);
                },
                None => {
                    assert(endpoint_views(out@) =~= so_far + Seq::<EndpointView>::empty());
                },
            }
            i += 1;
        }
        assert(all.take(i as int) =~= all);
    }
}

impl LanguageParser for PhpParser {
    open spec fn extracted(&self, content: Seq<char>) -> Result<Seq<EndpointView>, ExtractError> {
        Ok(php_endpoints(content))
    }

    open spec fn supported(&self, extension: Seq<char>) -> bool {
        extension == "php"@
    }

    fn parse(&self, content: &str) -> (out: Result<Vec<Endpoint>, ExtractError>) {
        let text_lines = split_lines(&chars_of(content));
        let ghost all = lines(content@);
        let mut out: Vec<Endpoint> = Vec::new();
        let mut i: usize = 0;
        while i < text_lines.len()
            invariant
                i <= text_lines.len(),
                all == rows(text_lines@),
                endpoint_views(out@) == routes_of_lines(all, i as int),
            decreases text_lines.len() - i,
        {
            let line = text_of_all(&text_lines[i]);
            let matches = route_captures(self, line.as_str());
            self.routes_in_line(&matches, i + 1, &mut out);
            i += 1;
        }
        Ok(out)
    }

    fn supports_extension(&self, extension: &str) -> (out: bool) {
        same_text(extension, "php")
    }
}

/// Whether no match of the route pattern in the line numbered `line`
/// stands for a route.
pub open spec fn line_without_route(text: Seq<char>, line: usize) -> bool {
    forall|j: int|
        0 <= j < route_matches(text).len() ==> route_of_match(
            #[trigger] route_matches(text)[j],
            line,
        ) is None
}

/// A text without routes has no endpoints: where on no line a match of the
/// route pattern stands for a route, the result is the empty list.
pub proof fn lemma_no_route_no_endpoint(content: Seq<char>)
    requires
        forall|i: int|
            0 <= i < lines(content).len() ==> line_without_route(
                #[trigger] lines(content)[i],
                (i + 1) as usize,
            ),
    ensures
        php_endpoints(content) == Seq::<EndpointView>::empty(),
{
    lemma_no_route_in_lines(lines(content), lines(content).len() as int);
}

/// Lines on which no match stands for a route give no endpoints.
pub proof fn lemma_no_route_in_lines(text_lines: Seq<Seq<char>>, n: int)
    requires
        0 <= n <= text_lines.len(),
        forall|i: int|
            0 <= i < n ==> line_without_route(#[trigger] text_lines[i], (i + 1) as usize),
    ensures
        routes_of_lines(text_lines, n) == Seq::<EndpointView>::empty(),
    decreases n,
{
    if n > 0 {
        lemma_no_route_in_lines(text_lines, n - 1);
        let line = n as usize;
        let found = route_matches(text_lines[n - 1]);
        let per_match = |m: RouteMatchView| one_or_none(route_of_match(m, line));
        assert(line_without_route(text_lines[n - 1], line));
        assert forall|j: int| 0 <= j < found.len() implies (#[trigger] per_match(found[j])).len()
            == 0 by {
            assert(route_of_match(found[j], line) is None);
        }
        lemma_gather_nothing(found, per_match);
        assert(routes_of_lines(text_lines, n) =~= Seq::<EndpointView>::empty());
    }
}

} // verus!
