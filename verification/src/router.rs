//! Matching requests against the indexed mock rules.

use vstd::prelude::*;
use crate::config::MockRule;
use crate::index::{bucket, MockIndex};
use crate::json::{spec_parse_json, JsonBody};
use crate::text::{
    first_segment, first_segment_of, same_path, spec_to_lowercase, spec_to_uppercase,
    str_equal, to_lowercase, to_uppercase, trim_end_slashes,
};

verus! {

/// A request as the rules see it.
pub struct RequestView {
    pub method: Seq<char>,
    pub path: Seq<char>,
    /// Query parameters; a request has one entry per name (`names_distinct`).
    pub queries: Seq<(String, String)>,
    /// Header names and values.
    pub headers: Seq<(String, String)>,
    /// The JSON body, if the request has one.
    pub body: Option<JsonBody>,
}

/// Each name occurs at most once, as in a map from names to values (the
/// query parameters of a request, and the name/value lists of a rule).
pub open spec fn names_distinct(entries: Seq<(String, String)>) -> bool {
    forall|i: int, j: int|
        0 <= i < entries.len() && 0 <= j < entries.len() && i != j ==> #[trigger] entries[i].0@
            != #[trigger] entries[j].0@
}

/// Every name/value pair of `small` is also a pair of `large`.
pub open spec fn pairs_included(small: Seq<(String, String)>, large: Seq<(String, String)>) -> bool {
    forall|i: int|
        0 <= i < small.len() ==> exists|j: int|
            0 <= j < large.len() && (#[trigger] large[j]).0@ == (#[trigger] small[i]).0@
                && large[j].1@ == small[i].1@
}

/// The value given for `name` (by the first entry that has it).
pub open spec fn lookup(entries: Seq<(String, String)>, name: Seq<char>) -> Option<Seq<char>>
    decreases entries.len(),
{
    if entries.len() == 0 {
        None
    } else if entries[0].0@ == name {
        Some(entries[0].1@)
    } else {
        lookup(entries.drop_first(), name)
    }
}

/// Every required query parameter is present with the required value.
pub open spec fn queries_satisfied(
    required: Option<Vec<(String, String)>>,
    queries: Seq<(String, String)>,
) -> bool {
    match required {
        None => true,
        Some(req) => forall|i: int|
            0 <= i < req@.len() ==> lookup(queries, #[trigger] req@[i].0@) == Some(req@[i].1@),
    }
}

/// The request has a header whose name equals `name` but for case, with
/// exactly the value `value`.
pub open spec fn header_present(
    headers: Seq<(String, String)>,
    name: Seq<char>,
    value: Seq<char>,
) -> bool {
    exists|j: int|
        0 <= j < headers.len() && spec_to_lowercase(#[trigger] headers[j].0@) == spec_to_lowercase(
            name,
        ) && headers[j].1@ == value
}

/// Every required header is present.
pub open spec fn headers_satisfied(
    required: Option<Vec<(String, String)>>,
    headers: Seq<(String, String)>,
) -> bool {
    match required {
        None => true,
        Some(req) => all_headers_present(headers, req@),
    }
}

/// Every header of `required` is present in `headers`.
pub open spec fn all_headers_present(
    headers: Seq<(String, String)>,
    required: Seq<(String, String)>,
) -> bool {
    forall|i: int|
        0 <= i < required.len() ==> #[trigger] header_present(
            headers,
            required[i].0@,
            required[i].1@,
        )
}

/// The request carries the required body: the same JSON value, or, where the
/// rule gives a string, the JSON value that string holds.
pub open spec fn body_satisfied(expected: Option<JsonBody>, incoming: Option<JsonBody>) -> bool {
    match expected {
        None => true,
        Some(e) => match incoming {
            None => false,
            Some(b) => e@ == b@ || (e@.0 && spec_parse_json(e@.1) == Some(b@)),
        },
    }
}

/// Whether `rule` answers `req`: same method but for case, same path but for
/// trailing slashes, and every required query parameter, header and body.
pub open spec fn rule_matches(rule: MockRule, req: RequestView) -> bool {
    &&& spec_to_uppercase(rule.request.method@) == spec_to_uppercase(req.method)
    &&& trim_end_slashes(rule.request.path@) == trim_end_slashes(req.path)
    &&& queries_satisfied(rule.request.query_params, req.queries)
    &&& headers_satisfied(rule.request.headers, req.headers)
    &&& body_satisfied(rule.request.body, req.body)
}

/// The first rule of `rules` that answers `req`.
pub open spec fn first_match(rules: Seq<MockRule>, req: RequestView) -> Option<MockRule>
    decreases rules.len(),
{
    if rules.len() == 0 {
        None
    } else {
        match first_match(rules.drop_last(), req) {
            Some(r) => Some(r),
            None => if rule_matches(rules.last(), req) {
                Some(rules.last())
            } else {
                None
            },
        }
    }
}

/// A first match found in a prefix is the first match of the whole list.
pub proof fn lemma_first_match_prefix(rules: Seq<MockRule>, n: int, req: RequestView)
    requires
        0 <= n <= rules.len(),
        first_match(rules.take(n), req) is Some,
    ensures
        first_match(rules, req) == first_match(rules.take(n), req),
    decreases rules.len() - n,
{
    if n < rules.len() {
        assert(rules.take(n + 1).drop_last() =~= rules.take(n));
        lemma_first_match_prefix(rules, n + 1, req);
    } else {
        assert(rules.take(n) =~= rules);
    }
}

/// The request view of the arguments of `match_rule`.
pub open spec fn request_view(
    method: &str,
    path: &str,
    queries: &Vec<(String, String)>,
    headers: &Vec<(String, String)>,
    body: &Option<JsonBody>,
) -> RequestView {
    RequestView { method: method@, path: path@, queries: queries@, headers: headers@, body: *body }
}

/// Routes requests to mock rules through the index.
pub struct MockRouter {
    /// Rules grouped by the first segment of their path.
    pub index: MockIndex,
}

/// The value given for `name` among `entries`.
fn lookup_value<'a>(entries: &'a Vec<(String, String)>, name: &str) -> (r: Option<&'a String>)
    ensures
        match r {
            Some(v) => lookup(entries@, name@) == Some(v@),
            None => lookup(entries@, name@) is None,
        },
{
    let n: usize = entries.len();
    assert(entries@.skip(0) =~= entries@);
    for i in 0..n
        invariant
            n == entries@.len(),
            lookup(entries@, name@) == lookup(entries@.skip(i as int), name@),
    {
        assert(entries@.skip(i as int)[0] == entries@[i as int]);
        if str_equal(entries[i].0.as_str(), name) {
            return Some(&entries[i].1);
        }
        assert(entries@.skip(i as int).drop_first() =~= entries@.skip(i + 1));
    }
    None
}

/// Whether `headers` has a header named `name` but for case, with value `value`.
fn has_header(headers: &Vec<(String, String)>, name: &str, value: &str) -> (r: bool)
    ensures
        r == header_present(headers@, name@, value@),
{
    let wanted = to_lowercase(name);
    let n: usize = headers.len();
    for j in 0..n
        invariant
            n == headers@.len(),
            wanted@ == spec_to_lowercase(name@),
            forall|m: int|
                0 <= m < j ==> !(spec_to_lowercase(#[trigger] headers@[m].0@) == spec_to_lowercase(
                    name@,
                ) && headers@[m].1@ == value@),
    {
        let lower = to_lowercase(headers[j].0.as_str());
        if str_equal(lower.as_str(), wanted.as_str()) && str_equal(headers[j].1.as_str(), value) {
            assert(spec_to_lowercase(headers@[j as int].0@) == spec_to_lowercase(name@));
            return true;
        }
    }
    false
}

/// Whether every required query parameter is present with its value.
fn queries_meet(required: &Option<Vec<(String, String)>>, queries: &Vec<(String, String)>) -> (r:
    bool)
    ensures
        r == queries_satisfied(*required, queries@),
{
    match required {
        None => true,
        Some(req) => {
            let n: usize = req.len();
            for i in 0..n
                invariant
                    n == req@.len(),
                    *required == Some(*req),
                    forall|m: int|
                        0 <= m < i ==> lookup(queries@, #[trigger] req@[m].0@) == Some(
                            req@[m].1@,
                        ),
            {
                let ok = match lookup_value(queries, req[i].0.as_str()) {
                    Some(v) => str_equal(v.as_str(), req[i].1.as_str()),
                    None => false,
                };
                if !ok {
                    assert(lookup(queries@, req@[i as int].0@) != Some(req@[i as int].1@));
                    return false;
                }
            }
            true
        },
    }
}

/// Whether every required header is present.
fn headers_meet(required: &Option<Vec<(String, String)>>, headers: &Vec<(String, String)>) -> (r:
    bool)
    ensures
        r == headers_satisfied(*required, headers@),
{
    match required {
        None => true,
        Some(req) => {
            let n: usize = req.len();
            for i in 0..n
                invariant
                    n == req@.len(),
                    *required == Some(*req),
                    forall|m: int|
                        0 <= m < i ==> #[trigger] header_present(headers@, req@[m].0@, req@[m].1@),
            {
                if !has_header(headers, req[i].0.as_str(), req[i].1.as_str()) {
                    assert(!header_present(headers@, req@[i as int].0@, req@[i as int].1@));
                    return false;
                }
            }
            true
        },
    }
}

/// Whether the request's body meets the rule's body requirement.
fn body_meets(expected: &Option<JsonBody>, incoming: &Option<JsonBody>) -> (r: bool)
    ensures
        r == body_satisfied(*expected, *incoming),
{
    match expected {
        None => true,
        Some(e) => match incoming {
            None => false,
            Some(b) => {
                if e.same_value(b) {
                    true
                } else {
                    match e {
                        JsonBody::Str(text) => match JsonBody::parse(text.as_str()) {
                            Some(v) => v.same_value(b),
                            None => false,
                        },
                        JsonBody::Compact(_) => false,
                    }
                }
            },
        },
    }
}

impl MockRouter {
    /// A router over `index`.
    pub fn new(index: MockIndex) -> (r: MockRouter)
        ensures
            r.index == index,
    {
        MockRouter { index }
    }

    /// The rule that answers the request: the first rule, among those indexed
    /// under the first segment of `path`, that matches it.
    pub fn match_rule(
        &self,
        method: &str,
        path: &str,
        queries: &Vec<(String, String)>,
        headers: &Vec<(String, String)>,
        body: &Option<JsonBody>,
    ) -> (r: Option<&MockRule>)
        ensures
            ({
                let found = first_match(
                    bucket(self.index@, first_segment(path@)),
                    request_view(method, path, queries, headers, body),
                );
                match r {
                    Some(rule) => found == Some(*rule),
                    None => found is None,
                }
            }),
    {
        let ghost req = request_view(method, path, queries, headers, body);
        let key = self.extract_first_segment(path);
        match self.index.get(key.as_str()) {
            Some(rules) => {
                let n: usize = rules.len();
                assert(rules@.take(0) =~= Seq::<MockRule>::empty());
                for i in 0..n
                    invariant
                        n == rules@.len(),
                        rules@ == bucket(self.index@, first_segment(path@)),
                        req == request_view(method, path, queries, headers, body),
                        first_match(rules@.take(i as int), req) is None,
                {
                    assert(rules@.take(i + 1).drop_last() =~= rules@.take(i as int));
                    if self.is_match(&rules[i], method, path, queries, headers, body) {
                        proof {
                            lemma_first_match_prefix(rules@, i + 1, req);
                        }
                        return Some(&rules[i]);
                    }
                }
                assert(rules@.take(n as int) =~= rules@);
                None
            },
            None => {
                assert(bucket(self.index@, first_segment(path@)) =~= Seq::<MockRule>::empty());
                None
            },
        }
    }

    /// Whether `rule` answers the request.
    fn is_match(
        &self,
        rule: &MockRule,
        method: &str,
        path: &str,
        queries: &Vec<(String, String)>,
        headers: &Vec<(String, String)>,
        body: &Option<JsonBody>,
    ) -> (r: bool)
        ensures
            r == rule_matches(*rule, request_view(method, path, queries, headers, body)),
    {
        let rule_method = to_uppercase(rule.request.method.as_str());
        let req_method = to_uppercase(method);
        if !str_equal(rule_method.as_str(), req_method.as_str()) {
            return false;
        }
        if !same_path(rule.request.path.as_str(), path) {
            return false;
        }
        if !queries_meet(&rule.request.query_params, queries) {
            return false;
        }
        if !headers_meet(&rule.request.headers, headers) {
            return false;
        }
        body_meets(&rule.request.body, body)
    }

    /// The index key of a request path: its first segment, or `"root"` for
    /// the root path `"/"`.
    fn extract_first_segment(&self, path: &str) -> (r: String)
        ensures
            r@ == first_segment(path@),
    {
        first_segment_of(path)
    }
}

} // verus!
