//! Syntax-tree queries: the one place where source text meets tree-sitter.

use tree_sitter::{Parser, Query, QueryCursor};
use tree_sitter_javascript::language as javascript_language;
use tree_sitter_python::language as python_language;
use vstd::prelude::*;

verus! {

/// The grammars that source text can be parsed with.
#[derive(Debug, Clone, Copy, PartialEq, Eq, Structural)]
pub enum Grammar {
    JavaScript,
    Python,
}

/// One named capture of a query match: the captured text and where it
/// starts, both counted from zero.
#[derive(Debug)]
pub struct Capture {
    pub name: String,
    pub text: String,
    pub row: usize,
    pub column: usize,
}

/// The mathematical value of a [`Capture`].
pub struct CaptureView {
    pub name: Seq<char>,
    pub text: Seq<char>,
    pub row: usize,
    pub column: usize,
}

impl View for Capture {
    type V = CaptureView;

    open spec fn view(&self) -> CaptureView {
        CaptureView { name: self.name@, text: self.text@, row: self.row, column: self.column }
    }
}

impl Capture {
    /// A capture called `name` holding `text`, which starts at `row` and
    /// `column`.
    pub fn at(name: &str, text: &str, row: usize, column: usize) -> (out: Capture)
        ensures
            out@ == (CaptureView { name: name@, text: text@, row, column }),
    {
        Capture { name: name.to_owned(), text: text.to_owned(), row, column }
    }
}

/// The values of the captures of one match.
pub open spec fn capture_views(s: Seq<Capture>) -> Seq<CaptureView> {
    Seq::new(s.len(), |i: int| s[i]@)
}

/// The values of a list of matches.
pub open spec fn match_views(s: Seq<Vec<Capture>>) -> Seq<Seq<CaptureView>> {
    Seq::new(s.len(), |i: int| capture_views(s[i]@))
}

/// The value of a query's outcome.
pub open spec fn outcome_view(r: Option<Vec<Vec<Capture>>>) -> Option<Seq<Seq<CaptureView>>> {
    match r {
        Some(m) => Some(match_views(m@)),
        None => None,
    }
}

/// What tree-sitter finds when `source` is parsed with `grammar` and queried
/// with `pattern`: the matches in the order the cursor yields them, each with
/// its captures in order; `None` where the grammar is refused, the parser
/// gives up or the pattern does not compile.
pub uninterp spec fn query_matches(grammar: Grammar, pattern: Seq<char>, source: Seq<char>) -> Option<
    Seq<Seq<CaptureView>>,
>;

/// Parses `source` with `tree_sitter::Parser::parse` under the grammar of
/// `tree_sitter_javascript::language` or `tree_sitter_python::language`,
/// compiles `pattern` with `tree_sitter::Query::new` and walks
/// `tree_sitter::QueryCursor::matches` from the root. The contract only names
/// the outcome: the same grammar, pattern and source always give the same
/// matches.
#[verifier::external_body]
pub(crate) fn run_query(grammar: Grammar, pattern: &str, source: &str) -> (out: Option<
    Vec<Vec<Capture>>,
>)
    ensures
        outcome_view(out) == query_matches(grammar, pattern@, source@),
{
    let language = match grammar {
        Grammar::JavaScript => javascript_language(),
        Grammar::Python => python_language(),
    };
    let mut parser = Parser::new();
    parser.set_language(language).ok()?;
    let tree = parser.parse(source, None)?;
    let query = Query::new(language, pattern).ok()?;
    let (names, text) = (query.capture_names(), source.as_bytes());
    Some(QueryCursor::new().matches(&query, tree.root_node(), text).map(|m| m.captures.iter().map(|c| {
        let start = c.node.start_position();
        Capture::at(&names[c.index as usize], c.node.utf8_text(text).unwrap_or_default(), start.row, start.column)
    }).collect()).collect())
}

} // verus!
