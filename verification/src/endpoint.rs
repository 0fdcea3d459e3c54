//! The endpoint model: what a discovered route is and how it is identified.

use vstd::prelude::*;
use crate::text::{chars_of, decimal, decimal_chars, append_chars, text_of, lower, to_lower, spells};

verus! {

/// The HTTP methods an endpoint can have. Tokens outside this set are never
/// stored.
#[derive(Debug, Clone, Copy, PartialEq, Eq, Structural)]
pub enum HttpMethod {
    Get,
    Post,
    Put,
    Delete,
    Patch,
    Options,
    Head,
}

impl HttpMethod {
    /// The method's name as written in reports: `Get`, `Post`, ...
    pub open spec fn label_spec(self) -> Seq<char> {
        match self {
            HttpMethod::Get => "Get"@,
            HttpMethod::Post => "Post"@,
            HttpMethod::Put => "Put"@,
            HttpMethod::Delete => "Delete"@,
            HttpMethod::Patch => "Patch"@,
            HttpMethod::Options => "Options"@,
            HttpMethod::Head => "Head"@,
        }
    }

    /// The method's lower-case token: `get`, `post`, ...
    pub open spec fn token_spec(self) -> Seq<char> {
        match self {
            HttpMethod::Get => "get"@,
            HttpMethod::Post => "post"@,
            HttpMethod::Put => "put"@,
            HttpMethod::Delete => "delete"@,
            HttpMethod::Patch => "patch"@,
            HttpMethod::Options => "options"@,
            HttpMethod::Head => "head"@,
        }
    }

    /// The method's name as written in reports.
    pub fn label(self) -> (out: &'static str)
        ensures
            out@ == self.label_spec(),
    {
        match self {
            HttpMethod::Get => "Get",
            HttpMethod::Post => "Post",
            HttpMethod::Put => "Put",
            HttpMethod::Delete => "Delete",
            HttpMethod::Patch => "Patch",
            HttpMethod::Options => "Options",
            HttpMethod::Head => "Head",
        }
    }

    /// The method's lower-case token.
    pub fn token(self) -> (out: &'static str)
        ensures
            out@ == self.token_spec(),
    {
        match self {
            HttpMethod::Get => "get",
            HttpMethod::Post => "post",
            HttpMethod::Put => "put",
            HttpMethod::Delete => "delete",
            HttpMethod::Patch => "patch",
            HttpMethod::Options => "options",
            HttpMethod::Head => "head",
        }
    }
}

/// The method that a token names once lower-cased, if it names one.
pub open spec fn method_of_token(token: Seq<char>) -> Option<HttpMethod> {
    let t = lower(token);
    if t == "get"@ {
        Some(HttpMethod::Get)
    } else if t == "post"@ {
        Some(HttpMethod::Post)
    } else if t == "put"@ {
        Some(HttpMethod::Put)
    } else if t == "delete"@ {
        Some(HttpMethod::Delete)
    } else if t == "patch"@ {
        Some(HttpMethod::Patch)
    } else if t == "head"@ {
        Some(HttpMethod::Head)
    } else if t == "options"@ {
        Some(HttpMethod::Options)
    } else {
        None
    }
}

/// Reads an HTTP method from a token, ignoring ASCII case. Unknown tokens
/// give `None`.
pub fn parse_http_method(token: &str) -> (out: Option<HttpMethod>)
    ensures
        out == method_of_token(token@),
{
    let t = to_lower(&chars_of(token));
    if spells(&t, "get") {
        Some(HttpMethod::Get)
    } else if spells(&t, "post") {
        Some(HttpMethod::Post)
    } else if spells(&t, "put") {
        Some(HttpMethod::Put)
    } else if spells(&t, "delete") {
        Some(HttpMethod::Delete)
    } else if spells(&t, "patch") {
        Some(HttpMethod::Patch)
    } else if spells(&t, "head") {
        Some(HttpMethod::Head)
    } else if spells(&t, "options") {
        Some(HttpMethod::Options)
    } else {
        None
    }
}

/// One discovered HTTP route.
#[derive(Debug)]
pub struct Endpoint {
    pub method: HttpMethod,
    /// The path as written in the source, parameter syntax untouched.
    pub path: String,
    /// The handler's name, or a `line:column` marker where no name is known.
    pub handler: String,
    /// 1-based line of the definition.
    pub line: usize,
    /// 1-based column of the definition.
    pub column: usize,
    pub documentation: Option<String>,
}

/// The mathematical value of an [`Endpoint`].
pub struct EndpointView {
    pub method: HttpMethod,
    pub path: Seq<char>,
    pub handler: Seq<char>,
    pub line: usize,
    pub column: usize,
    pub documentation: Option<Seq<char>>,
}

/// The identity under which an endpoint is tracked: method, path and line.
pub struct EndpointKey {
    pub method: HttpMethod,
    pub path: Seq<char>,
    pub line: usize,
}

impl View for Endpoint {
    type V = EndpointView;

    open spec fn view(&self) -> EndpointView {
        EndpointView {
            method: self.method,
            path: self.path@,
            handler: self.handler@,
            line: self.line,
            column: self.column,
            documentation: match self.documentation {
                Some(d) => Some(d@),
                None => None,
            },
        }
    }
}

impl Clone for Endpoint {
    fn clone(&self) -> (out: Self)
        ensures
            out@ == self@,
    {
        Endpoint {
            method: self.method,
            path: self.path.clone(),
            handler: self.handler.clone(),
            line: self.line,
            column: self.column,
            documentation: match &self.documentation {
                Some(d) => Some(d.clone()),
                None => None,
            },
        }
    }
}

impl EndpointView {
    /// The identity of this endpoint.
    pub open spec fn key(self) -> EndpointKey {
        EndpointKey { method: self.method, path: self.path, line: self.line }
    }

    /// Equality on everything but the documentation.
    pub open spec fn same_as(self, other: EndpointView) -> bool {
        &&& self.method == other.method
        &&& self.path == other.path
        &&& self.handler == other.handler
        &&& self.line == other.line
        &&& self.column == other.column
    }

    /// The textual form of the identity, `method:path:line`.
    pub open spec fn id(self) -> Seq<char> {
        self.method.token_spec() + seq![':'] + self.path + seq![':'] + decimal(self.line as nat)
    }
}

/// The values of a list of endpoints.
pub open spec fn endpoint_views(s: Seq<Endpoint>) -> Seq<EndpointView> {
    Seq::new(s.len(), |i: int| s[i]@)
}

impl Endpoint {
    /// Whether `self` and `other` have the same identity.
    pub fn same_key(&self, other: &Endpoint) -> (out: bool)
        ensures
            out == (self@.key() == other@.key()),
    {
        self.method == other.method && self.line == other.line && self.path == other.path
    }

    /// The textual identity `method:path:line`, with the method in lower case.
    pub fn id(&self) -> (out: String)
        ensures
            out@ == self@.id(),
    {
        let mut chars = chars_of(self.method.token());
        chars.push(':');
        append_chars(&mut chars, &chars_of(self.path.as_str()));
        chars.push(':');
        append_chars(&mut chars, &decimal_chars(self.line));
        let n = chars.len();
        let out = text_of(&chars, 0, n);
        assert(chars@.subrange(0, n as int) =~= chars@);
        assert(chars@ =~= self@.id());
        out
    }
}

/// The token of a method is told by its first two characters, has at least
/// three characters and holds no colon.
proof fn lemma_token_shape(m: HttpMethod)
    ensures
        m.token_spec().len() >= 3,
        forall|i: int| 0 <= i < m.token_spec().len() ==> (#[trigger] m.token_spec()[i]) != ':',
        m == match (m.token_spec()[0], m.token_spec()[1]) {
            ('g', _) => HttpMethod::Get,
            ('d', _) => HttpMethod::Delete,
            ('o', _) => HttpMethod::Options,
            ('h', _) => HttpMethod::Head,
            (_, 'o') => HttpMethod::Post,
            (_, 'u') => HttpMethod::Put,
            _ => HttpMethod::Patch,
        },
{
    reveal_strlit("get");
    reveal_strlit("post");
    reveal_strlit("put");
    reveal_strlit("delete");
    reveal_strlit("patch");
    reveal_strlit("options");
    reveal_strlit("head");
}

/// The textual identity tells endpoints apart exactly as method, path and
/// line do: two endpoints have the same text `method:path:line` if and only
/// if they have the same identity.
pub proof fn lemma_id_is_faithful(a: EndpointView, b: EndpointView)
    ensures
        a.id() == b.id() <==> a.key() == b.key(),
{
    if a.key() == b.key() {
        assert(a.id() =~= b.id());
    }
    if a.id() == b.id() {
        let s = a.id();
        let ta = a.method.token_spec();
        let tb = b.method.token_spec();
        let da = decimal(a.line as nat);
        let db = decimal(b.line as nat);
        lemma_token_shape(a.method);
        lemma_token_shape(b.method);
        crate::text::lemma_decimal(a.line as nat);
        crate::text::lemma_decimal(b.line as nat);
        assert(s[0] == ta[0] && s[1] == ta[1]);
        assert(b.id()[0] == tb[0] && b.id()[1] == tb[1]);
        assert(a.method == b.method);
        let n = s.len() as int;
        assert(n == ta.len() + 1 + a.path.len() + 1 + da.len());
        assert(n == tb.len() + 1 + b.path.len() + 1 + db.len());
        // The last colon stands right before the line number in both readings.
        assert(s[n - da.len() - 1] == ':');
        assert(b.id()[n - db.len() - 1] == ':');
        if da.len() < db.len() {
            let at = n - da.len() - 1;
            assert(b.id()[at] == db[at - (n - db.len())]);
            assert(crate::text::is_digit(db[at - (n - db.len())]));
        }
        if db.len() < da.len() {
            let at = n - db.len() - 1;
            assert(s[at] == da[at - (n - da.len())]);
            assert(crate::text::is_digit(da[at - (n - da.len())]));
        }
        assert(da.len() == db.len());
        assert(da =~= db) by {
            assert forall|i: int| 0 <= i < da.len() implies da[i] == db[i] by {
                assert(s[n - da.len() + i] == da[i]);
                assert(b.id()[n - db.len() + i] == db[i]);
            }
        }
        crate::text::lemma_decimal_injective(a.line as nat, b.line as nat);
        assert(a.path =~= b.path) by {
            assert(a.path.len() == b.path.len());
            assert forall|i: int| 0 <= i < a.path.len() implies a.path[i] == b.path[i] by {
                assert(s[ta.len() + 1 + i] == a.path[i]);
                assert(b.id()[tb.len() + 1 + i] == b.path[i]);
            }
        }
    }
}

} // verus!
