//! What the server answers: the decisions of the request handler, apart from
//! the network and the file system.

use vstd::prelude::*;
use crate::config::{is_file_body, file_scheme, MockRule};

verus! {

/// Where the body of a response comes from.
#[derive(Debug, PartialEq, Eq)]
pub enum BodySource {
    /// This text is the body.
    Inline(String),
    /// The file at this path is streamed as the body.
    File(String),
}

/// The response to send, and how long to wait before sending it.
#[derive(Debug)]
pub struct ResponsePlan {
    /// Milliseconds to wait before answering, if the rule asks for a delay.
    pub delay_ms: Option<u64>,
    pub status: u16,
    /// Headers to set, in order.
    pub headers: Vec<(String, String)>,
    pub body: BodySource,
}

/// The status sent for a configured code: the code itself when it is a
/// valid HTTP status (100 to 999), 200 otherwise.
pub open spec fn effective_status(code: u16) -> u16 {
    if 100 <= code <= 999 {
        code
    } else {
        200
    }
}

/// The delay a rule asks for.
pub open spec fn rule_delay(rule: MockRule) -> Option<u64> {
    match rule.settings {
        Some(settings) => settings.delay_ms,
        None => None,
    }
}

/// Status sent when no rule matches.
pub const NOT_FOUND: u16 = 404;

/// Status sent when a rule's body file cannot be opened.
pub const INTERNAL_SERVER_ERROR: u16 = 500;

/// The status for a configured code, as `http::StatusCode::from_u16` accepts
/// it (any code from 100 to 999), or 200 for any other code.
pub fn status_for(code: u16) -> (r: u16)
    ensures
        r == effective_status(code),
{
    if 100 <= code && code <= 999 {
        code
    } else {
        200
    }
}

/// The response for the rule that matched a request, or for no match.
pub fn plan_response(rule: Option<MockRule>) -> (plan: ResponsePlan)
    ensures
        100 <= plan.status <= 999,
        match rule {
            None => {
                &&& plan.delay_ms is None
                &&& plan.status == NOT_FOUND
                &&& plan.headers@.len() == 0
                &&& plan.body is Inline
                &&& plan.body->Inline_0@ == "No mock rule matched this request"@
            },
            Some(rule) => {
                &&& plan.delay_ms == rule_delay(rule)
                &&& plan.status == effective_status(rule.response.status)
                &&& plan.headers@ == match rule.response.headers {
                    Some(h) => h@,
                    None => Seq::empty(),
                }
                &&& if is_file_body(rule.response.body@) {
                    plan.body is File && file_scheme() + plan.body->File_0@ == rule.response.body@
                } else {
                    plan.body is Inline && plan.body->Inline_0@ == rule.response.body@
                }
            },
        },
{
    match rule {
        None => ResponsePlan {
            delay_ms: None,
            status: NOT_FOUND,
            headers: Vec::new(),
            body: BodySource::Inline("No mock rule matched this request".to_owned()),
        },
        Some(rule) => {
            let delay_ms = match &rule.settings {
                Some(settings) => settings.delay_ms,
                None => None,
            };
            let status: u16 = status_for(rule.response.status);
            let body = match rule.response.get_file_path() {
                Some(path) => BodySource::File(path.to_owned()),
                None => BodySource::Inline(rule.response.body.clone()),
            };
            let headers = match rule.response.headers {
                Some(h) => h,
                None => Vec::new(),
            };
            ResponsePlan { delay_ms, status, headers, body }
        },
    }
}

/// The response sent when the file a rule names cannot be opened.
pub fn file_unavailable(path: &str) -> (plan: ResponsePlan)
    ensures
        plan.delay_ms is None,
        plan.status == INTERNAL_SERVER_ERROR,
        plan.headers@.len() == 0,
        plan.body is Inline,
        plan.body->Inline_0@ == "File not found: "@ + path@,
{
    let mut text = "File not found: ".to_owned();
    text.append(path);
    ResponsePlan {
        delay_ms: None,
        status: INTERNAL_SERVER_ERROR,
        headers: Vec::new(),
        body: BodySource::Inline(text),
    }
}

} // verus!
