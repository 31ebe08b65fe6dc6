//! JSON bodies as the library compares them.

use vstd::prelude::*;

verus! {

/// A JSON value, held so that two values are equal exactly when their
/// representations are: a string keeps its characters, every other value is
/// kept as its compact JSON text (object keys in sorted order).
#[derive(Clone, Debug, PartialEq, Eq)]
pub enum JsonBody {
    /// A JSON string, by its characters.
    Str(String),
    /// Any other JSON value, by its compact text.
    Compact(String),
}

impl View for JsonBody {
    /// Whether the value is a string, and its characters or compact text.
    type V = (bool, Seq<char>);

    open spec fn view(&self) -> (bool, Seq<char>) {
        match self {
            JsonBody::Str(s) => (true, s@),
            JsonBody::Compact(t) => (false, t@),
        }
    }
}

/// What `serde_json::from_str::<serde_json::Value>` makes of a text, as a
/// `JsonBody` view; `None` where the text is not one JSON value.
pub uninterp spec fn spec_parse_json(text: Seq<char>) -> Option<(bool, Seq<char>)>;

/// Calls `serde_json::from_str::<serde_json::Value>` and turns the value into
/// a `JsonBody` (a string by its characters, any other value by its compact
/// `Display` text). The contract claims only that the outcome is determined
/// by the characters of `text` (it is named `spec_parse_json`); the JSON
/// grammar itself is not written out.
#[verifier::external_body]
fn parse_json_text(text: &str) -> (r: Option<JsonBody>)
    ensures
        match r {
            Some(b) => spec_parse_json(text@) == Some(b@),
            None => spec_parse_json(text@) is None,
        },
{
    match serde_json::from_str::<serde_json::Value>(text) {
        Ok(serde_json::Value::String(s)) => Some(JsonBody::Str(s)),
        Ok(v) => Some(JsonBody::Compact(v.to_string())),
        Err(_) => None,
    }
}

impl JsonBody {
    /// Reads one JSON value from `text`; `None` where the text is not JSON.
    pub fn parse(text: &str) -> (r: Option<JsonBody>)
        ensures
            match r {
                Some(b) => spec_parse_json(text@) == Some(b@),
                None => spec_parse_json(text@) is None,
            },
    {
        parse_json_text(text)
    }

    /// Whether two bodies hold the same JSON value.
    pub fn same_value(&self, other: &JsonBody) -> (r: bool)
        ensures
            r == (self@ == other@),
    {
        match (self, other) {
            (JsonBody::Str(a), JsonBody::Str(b)) => crate::text::str_equal(a.as_str(), b.as_str()),
            (JsonBody::Compact(a), JsonBody::Compact(b)) => crate::text::str_equal(
                a.as_str(),
                b.as_str(),
            ),
            _ => false,
        }
    }
}

} // verus!
