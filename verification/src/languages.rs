//! The language extractors.

pub mod javascript;
pub mod php;
pub mod python;

use vstd::prelude::*;
use crate::endpoint::{Endpoint, EndpointView, endpoint_views};
use crate::extract::{ExtractError, LanguageParser, extraction_view};
use crate::languages::javascript::{JavaScriptParser, javascript_endpoints};
use crate::languages::php::{PhpParser, ROUTE_PATTERN, pattern_accepted, php_endpoints};
use crate::languages::python::{PythonParser, python_endpoints};
use crate::text::{extension, extension_of, spells};

verus! {

/// The extractors, told apart by the file extensions they own.
#[derive(Debug, Clone, Copy, PartialEq, Eq, Structural)]
pub enum SourceKind {
    JavaScript,
    Python,
    Php,
}

/// The extractor that owns the extension of `path`.
pub open spec fn source_kind_of(path: Seq<char>) -> Option<SourceKind> {
    match extension(path) {
        Some(e) => if e == "js"@ || e == "mjs"@ || e == "ts"@ || e == "tsx"@ {
            Some(SourceKind::JavaScript)
        } else if e == "py"@ {
            Some(SourceKind::Python)
        } else if e == "php"@ {
            Some(SourceKind::Php)
        } else {
            None
        },
        None => None,
    }
}

/// Tells which extractor owns the extension of `path`.
pub fn source_kind(path: &str) -> (out: Option<SourceKind>)
    ensures
        out == source_kind_of(path@),
{
    match extension_of(path) {
        Some(e) => {
            if spells(&e, "js") || spells(&e, "mjs") || spells(&e, "ts") || spells(&e, "tsx") {
                Some(SourceKind::JavaScript)
            } else if spells(&e, "py") {
                Some(SourceKind::Python)
            } else if spells(&e, "php") {
                Some(SourceKind::Php)
            } else {
                None
            }
        },
        None => None,
    }
}

/// What the extraction of a file gives, where `php_ready` tells whether the
/// PHP extractor can be set up. A file that no extractor owns has no
/// endpoints.
pub open spec fn file_content_endpoints(php_ready: bool, content: Seq<char>, path: Seq<char>) -> Result<
    Seq<EndpointView>,
    ExtractError,
> {
    match source_kind_of(path) {
        Some(SourceKind::JavaScript) => javascript_endpoints(content),
        Some(SourceKind::Python) => python_endpoints(content),
        Some(SourceKind::Php) => if php_ready {
            Ok(php_endpoints(content))
        } else {
            Err(ExtractError::ExtractorUnavailable)
        },
        None => Ok(Seq::empty()),
    }
}

/// Extracts the endpoints of one file with the extractor that owns its
/// extension. The PHP extractor is set up for each PHP file; it is ready
/// exactly where the regex engine accepts the route pattern.
pub fn parse_file_content(content: &str, path: &str) -> (out: Result<Vec<Endpoint>, ExtractError>)
    ensures
        extraction_view(out) == file_content_endpoints(
            pattern_accepted(ROUTE_PATTERN@),
            content@,
            path@,
        ),
{
    match source_kind(path) {
        Some(SourceKind::JavaScript) => JavaScriptParser.parse(content),
        Some(SourceKind::Python) => PythonParser.parse(content),
        Some(SourceKind::Php) => match PhpParser::new() {
            Ok(parser) => parser.parse(content),
            Err(_) => Err(ExtractError::ExtractorUnavailable),
        },
        None => {
            let none: Vec<Endpoint> = Vec::new();
            assert(endpoint_views(none@) =~= Seq::<EndpointView>::empty());
            Ok(none)
        },
    }
}

} // verus!
