//! What every language extractor has in common: the extractor interface and
//! the reading of query captures.

use vstd::prelude::*;
use crate::endpoint::{Endpoint, EndpointView, endpoint_views};
use crate::syntax::{Capture, CaptureView, capture_views};
use crate::text::{
    append_chars, decimal, decimal_chars, extension, extension_of, same_text, spells, text_of,
};

verus! {

/// Why an extractor could not read a source text.
#[derive(Debug, Clone, Copy, PartialEq, Eq, Structural)]
pub enum ExtractError {
    /// The syntax tree or the route query could not be built.
    SyntaxUnavailable,
    /// The extractor for the language could not be set up.
    ExtractorUnavailable,
}

impl ExtractError {
    /// A sentence for logs.
    pub fn message(&self) -> (out: &'static str)
        ensures
            out@ == match *self {
                ExtractError::SyntaxUnavailable => "Failed to parse source code"@,
                ExtractError::ExtractorUnavailable => "Failed to set up the extractor"@,
            },
    {
        match self {
            ExtractError::SyntaxUnavailable => "Failed to parse source code",
            ExtractError::ExtractorUnavailable => "Failed to set up the extractor",
        }
    }
}

/// The value of an extraction result.
pub open spec fn extraction_view(r: Result<Vec<Endpoint>, ExtractError>) -> Result<
    Seq<EndpointView>,
    ExtractError,
> {
    match r {
        Ok(v) => Ok(endpoint_views(v@)),
        Err(e) => Err(e),
    }
}

/// A per-language extractor: source text in, endpoints out.
pub trait LanguageParser: Send + Sync {
    /// What `parse` returns for `content`.
    spec fn extracted(&self, content: Seq<char>) -> Result<Seq<EndpointView>, ExtractError>;

    /// Whether files with this extension belong to the extractor.
    spec fn supported(&self, extension: Seq<char>) -> bool;

    /// Extracts the endpoints defined in `content`, in source order.
    fn parse(&self, content: &str) -> (out: Result<Vec<Endpoint>, ExtractError>)
        ensures
            extraction_view(out) == self.extracted(content@),
    ;

    /// Whether files with this extension belong to the extractor.
    fn supports_extension(&self, extension: &str) -> (out: bool)
        ensures
            out == self.supported(extension@),
    ;
}

/// The last capture called `name`, if the match holds one.
pub open spec fn last_named(caps: Seq<CaptureView>, name: Seq<char>) -> Option<CaptureView>
    decreases caps.len(),
{
    if caps.len() == 0 {
        None
    } else if caps.last().name == name {
        Some(caps.last())
    } else {
        last_named(caps.drop_last(), name)
    }
}

/// The texts of all captures called `name`, in order.
pub open spec fn texts_named(caps: Seq<CaptureView>, name: Seq<char>) -> Seq<Seq<char>>
    decreases caps.len(),
{
    if caps.len() == 0 {
        Seq::empty()
    } else if caps.last().name == name {
        texts_named(caps.drop_last(), name).push(caps.last().text)
    } else {
        texts_named(caps.drop_last(), name)
    }
}

/// The endpoints that `per_item` yields for each item, concatenated in order.
pub open spec fn gather<A>(items: Seq<A>, per_item: spec_fn(A) -> Seq<EndpointView>) -> Seq<
    EndpointView,
>
    decreases items.len(),
{
    if items.len() == 0 {
        Seq::empty()
    } else {
        gather(items.drop_last(), per_item) + per_item(items.last())
    }
}

/// Nothing is gathered where no item yields anything.
pub proof fn lemma_gather_nothing<A>(items: Seq<A>, per_item: spec_fn(A) -> Seq<EndpointView>)
    requires
        forall|i: int| 0 <= i < items.len() ==> (#[trigger] per_item(items[i])).len() == 0,
    ensures
        gather(items, per_item) == Seq::<EndpointView>::empty(),
    decreases items.len(),
{
    if items.len() > 0 {
        assert forall|i: int| 0 <= i < items.drop_last().len() implies (#[trigger] per_item(
            items.drop_last()[i],
        )).len() == 0 by {
            assert(items.drop_last()[i] == items[i]);
            assert(per_item(items[i]).len() == 0);
        }
        lemma_gather_nothing(items.drop_last(), per_item);
        assert(per_item(items[items.len() - 1]).len() == 0);
        assert(gather(items, per_item) =~= Seq::<EndpointView>::empty());
    }
}

/// A sequence of no or one endpoint.
pub open spec fn one_or_none(e: Option<EndpointView>) -> Seq<EndpointView> {
    match e {
        Some(v) => seq![v],
        None => Seq::empty(),
    }
}

/// The index of the last capture called `name`.
pub fn find_last_named(caps: &Vec<Capture>, name: &str) -> (out: Option<usize>)
    ensures
        match out {
            Some(i) => i < caps.len() && last_named(capture_views(caps@), name@) == Some(caps[i as int]@),
            None => last_named(capture_views(caps@), name@) is None,
        },
{
    let mut i: usize = caps.len();
    assert(capture_views(caps@).take(i as int) =~= capture_views(caps@));
    while i > 0
        invariant
            i <= caps.len(),
            last_named(capture_views(caps@), name@) == last_named(
                capture_views(caps@).take(i as int),
                name@,
            ),
        decreases i,
    {
        let ghost before = capture_views(caps@).take(i as int);
        i -= 1;
        assert(before.drop_last() =~= capture_views(caps@).take(i as int));
        assert(before.last() == caps[i as int]@);
        if same_text(caps[i].name.as_str(), name) {
            return Some(i);
        }
    }
    None
}

/// The values of a list of texts.
pub open spec fn text_views(s: Seq<String>) -> Seq<Seq<char>> {
    Seq::new(s.len(), |i: int| s[i]@)
}

/// The texts of all captures called `name`, in order.
pub fn collect_texts_named(caps: &Vec<Capture>, name: &str) -> (out: Vec<String>)
    ensures
        text_views(out@) == texts_named(capture_views(caps@), name@),
{
    let mut out: Vec<String> = Vec::new();
    let mut i: usize = 0;
    while i < caps.len()
        invariant
            i <= caps.len(),
            text_views(out@) == texts_named(capture_views(caps@).take(i as int), name@),
        decreases caps.len() - i,
    {
        let ghost before = text_views(out@);
        let ghost seen = capture_views(caps@).take(i as int + 1);
        assert(seen.drop_last() =~= capture_views(caps@).take(i as int));
        assert(seen.last() == caps[i as int]@);
        if same_text(caps[i].name.as_str(), name) {
            out.push(caps[i].text.clone());
            assert(text_views(out@) =~= before.push(caps[i as int]@.text));
        }
        i += 1;
    }
    assert(capture_views(caps@).take(i as int) =~= capture_views(caps@));
    out
}

/// The `line:column` marker used as a handler where no name is known.
pub open spec fn position_marker(line: usize, column: usize) -> Seq<char> {
    decimal(line as nat) + seq![':'] + decimal(column as nat)
}

/// Builds the `line:column` marker.
pub fn make_position_marker(line: usize, column: usize) -> (out: String)
    ensures
        out@ == position_marker(line, column),
{
    let mut chars = decimal_chars(line);
    chars.push(':');
    append_chars(&mut chars, &decimal_chars(column));
    let n = chars.len();
    assert(chars@.subrange(0, n as int) =~= chars@);
    text_of(&chars, 0, n)
}

/// The language that a path's extension stands for.
pub open spec fn language_of(path: Seq<char>) -> Option<Seq<char>> {
    match extension(path) {
        Some(e) => if e == "js"@ || e == "mjs"@ {
            Some("javascript"@)
        } else if e == "ts"@ || e == "tsx"@ {
            Some("typescript"@)
        } else if e == "py"@ {
            Some("python"@)
        } else if e == "go"@ {
            Some("go"@)
        } else if e == "rs"@ {
            Some("rust"@)
        } else if e == "rb"@ {
            Some("ruby"@)
        } else if e == "php"@ {
            Some("php"@)
        } else if e == "java"@ {
            Some("java"@)
        } else {
            None
        },
        None => None,
    }
}

/// The value of a language name that may be missing.
pub open spec fn name_view(name: Option<&'static str>) -> Option<Seq<char>> {
    match name {
        Some(n) => Some(n@),
        None => None,
    }
}

/// Tells the language of a file from the extension of its path.
pub fn detect_language(path: &str) -> (out: Option<&'static str>)
    ensures
        name_view(out) == language_of(path@),
{
    match extension_of(path) {
        Some(e) => {
            if spells(&e, "js") || spells(&e, "mjs") {
                Some("javascript")
            } else if spells(&e, "ts") || spells(&e, "tsx") {
                Some("typescript")
            } else if spells(&e, "py") {
                Some("python")
            } else if spells(&e, "go") {
                Some("go")
            } else if spells(&e, "rs") {
                Some("rust")
            } else if spells(&e, "rb") {
                Some("ruby")
            } else if spells(&e, "php") {
                Some("php")
            } else if spells(&e, "java") {
                Some("java")
            } else {
                None
            }
        },
        None => None,
    }
}

} // verus!
