//! Mock rules as they are read from the configuration files.

use vstd::prelude::*;
use crate::json::JsonBody;
use crate::text::{has_prefix, starts_with};

verus! {

/// What a configuration file holds: one rule, or a list of rules.
#[derive(Debug)]
pub enum MockSource {
    /// A file that describes one endpoint.
    Single(MockRule),
    /// A file that describes several endpoints.
    Multiple(Vec<MockRule>),
}

/// The rules of a source, in the order the file gives them.
pub open spec fn source_rules(src: MockSource) -> Seq<MockRule> {
    match src {
        MockSource::Single(rule) => seq![rule],
        MockSource::Multiple(rules) => rules@,
    }
}

impl MockSource {
    /// The rules of the source as one list, ready to be indexed.
    pub fn flatten(self) -> (rules: Vec<MockRule>)
        ensures
            rules@ == source_rules(self),
            match self {
                MockSource::Single(rule) => rules@ == seq![rule],
                MockSource::Multiple(list) => rules@ == list@,
            },
    {
        match self {
            MockSource::Single(rule) => vec![rule],
            MockSource::Multiple(rules) => rules,
        }
    }
}

/// One mock rule: which requests it answers, and how.
#[derive(Clone, Debug, PartialEq)]
pub struct MockRule {
    pub id: String,
    pub request: RequestMatcher,
    pub response: MockResponse,
    pub settings: Option<MockSettings>,
}

/// The conditions a request must meet for a rule to answer it.
#[derive(Clone, Debug, PartialEq)]
pub struct RequestMatcher {
    pub method: String,
    pub path: String,
    /// Optional: query parameters the request must carry, each with this
    /// value; one entry per name (`router::names_distinct`).
    pub query_params: Option<Vec<(String, String)>>,
    /// Optional: headers the request must carry (names compared without case);
    /// one entry per name (`router::names_distinct`).
    pub headers: Option<Vec<(String, String)>>,
    /// Optional: the JSON body the request must carry.
    pub body: Option<JsonBody>,
}

/// The response a rule gives.
#[derive(Clone, Debug, PartialEq)]
pub struct MockResponse {
    pub status: u16,
    /// Headers to send, one entry per name (`router::names_distinct`).
    pub headers: Option<Vec<(String, String)>>,
    /// Inline text, or a `file://` path whose file is sent.
    pub body: String,
}

/// How the server behaves when it applies a rule.
#[derive(Clone, Debug, PartialEq)]
pub struct MockSettings {
    /// Simulated network delay in milliseconds.
    pub delay_ms: Option<u64>,
}

/// The scheme that marks a body as a file path.
pub open spec fn file_scheme() -> Seq<char> {
    seq!['f', 'i', 'l', 'e', ':', '/', '/']
}

/// Whether a response body names a file.
pub open spec fn is_file_body(body: Seq<char>) -> bool {
    has_prefix(body, file_scheme())
}

impl MockResponse {
    /// Whether the body uses the `file://` scheme.
    pub fn is_file_protocol(&self) -> (r: bool)
        ensures
            r == is_file_body(self.body@),
    {
        proof {
            reveal_strlit("file://");
            assert("file://"@ =~= file_scheme());
        }
        starts_with(self.body.as_str(), "file://")
    }

    /// The file path a `file://` body names, without the scheme.
    pub fn get_file_path(&self) -> (r: Option<&str>)
        ensures
            match r {
                Some(p) => is_file_body(self.body@) && file_scheme() + p@ == self.body@
                    && p@ == self.body@.skip(7),
                None => !is_file_body(self.body@),
            },
    {
        if self.is_file_protocol() {
            let s = self.body.as_str();
            let n: usize = s.unicode_len();
            let p = s.substring_char(7, n);
            assert(file_scheme() + p@ =~= self.body@);
            Some(p)
        } else {
            None
        }
    }
}

} // verus!
