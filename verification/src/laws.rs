//! Properties of routing that span the loader, the index and the matcher.

use vstd::prelude::*;
use crate::config::{is_file_body, source_rules, MockRule, MockSource};
use crate::handler::effective_status;
use crate::loader::is_yaml_name;
use crate::index::{bucket, bucket_of, has_key, index_of, lemma_bucket_of_absent, rule_key};
use crate::json::{spec_parse_json, JsonBody};
use crate::router::{
    first_match, header_present, headers_satisfied, lookup, names_distinct, pairs_included,
    rule_matches, RequestView,
};
use crate::text::{first_segment, spec_to_lowercase, spec_to_uppercase, take_segment, trim_end_slashes, trim_start_slashes};

verus! {

/// Removing a trailing `/` from a path that has one shortens its slash-free
/// remainder by that `/`, or leaves both empty.
proof fn lemma_trim_start_drop_last(s: Seq<char>)
    requires
        s.len() > 0,
        s.last() == '/',
    ensures
        (trim_start_slashes(s).len() == 0 && trim_start_slashes(s.drop_last()).len() == 0) || (
        trim_start_slashes(s).len() > 0 && trim_start_slashes(s).last() == '/'
            && trim_start_slashes(s.drop_last()) == trim_start_slashes(s).drop_last()),
    decreases s.len(),
{
    if s[0] == '/' {
        if s.len() == 1 {
            assert(s.drop_first().len() == 0);
            assert(trim_start_slashes(s.drop_first()).len() == 0);
            assert(s.drop_last().len() == 0);
            assert(trim_start_slashes(s.drop_last()).len() == 0);
        } else {
            let t = s.drop_first();
            assert(t.last() == '/');
            lemma_trim_start_drop_last(t);
            assert(s.drop_last()[0] == '/');
            assert(s.drop_last().drop_first() =~= t.drop_last());
            assert(trim_start_slashes(s) == trim_start_slashes(t));
            assert(trim_start_slashes(s.drop_last()) == trim_start_slashes(t.drop_last()));
        }
    } else {
        assert(s.len() >= 2);
        assert(s.drop_last()[0] == s[0]);
        assert(trim_start_slashes(s) == s);
        assert(trim_start_slashes(s.drop_last()) == s.drop_last());
    }
}

/// A trailing `/` never belongs to the first segment.
proof fn lemma_take_segment_drop_last(u: Seq<char>)
    requires
        u.len() > 0,
        u.last() == '/',
    ensures
        take_segment(u) == take_segment(u.drop_last()),
    decreases u.len(),
{
    if u[0] == '/' {
        if u.drop_last().len() > 0 {
            assert(u.drop_last()[0] == '/');
        }
    } else {
        assert(u.len() >= 2);
        let t = u.drop_first();
        assert(t.last() == '/');
        lemma_take_segment_drop_last(t);
        assert(u.drop_last()[0] == u[0]);
        assert(u.drop_last().drop_first() =~= t.drop_last());
    }
}

/// Trailing slashes do not change the first segment.
pub proof fn lemma_first_segment_trim_end(s: Seq<char>)
    ensures
        first_segment(s) == first_segment(trim_end_slashes(s)),
    decreases s.len(),
{
    if s.len() > 0 && s.last() == '/' {
        lemma_trim_start_drop_last(s);
        if trim_start_slashes(s).len() > 0 {
            lemma_take_segment_drop_last(trim_start_slashes(s));
        }
        lemma_first_segment_trim_end(s.drop_last());
    }
}

/// Two paths that are equal but for trailing slashes have the same first
/// segment, so a request is always looked up under the key its rule was
/// indexed by.
pub proof fn law_same_path_same_key(a: Seq<char>, b: Seq<char>)
    requires
        trim_end_slashes(a) == trim_end_slashes(b),
    ensures
        first_segment(a) == first_segment(b),
{
    lemma_first_segment_trim_end(a);
    lemma_first_segment_trim_end(b);
}

/// A rule that matches a request is indexed under the request's key.
pub proof fn law_match_implies_key(rule: MockRule, req: RequestView)
    requires
        rule_matches(rule, req),
    ensures
        rule_key(rule) == first_segment(req.path),
{
    law_same_path_same_key(rule.request.path@, req.path);
}

/// Restricting the rules to one key keeps the first match when every match
/// has that key.
proof fn lemma_first_match_bucket(rules: Seq<MockRule>, key: Seq<char>, req: RequestView)
    requires
        forall|i: int|
            0 <= i < rules.len() && rule_matches(#[trigger] rules[i], req) ==> rule_key(rules[i])
                == key,
    ensures
        first_match(bucket_of(rules, key), req) == first_match(rules, req),
    decreases rules.len(),
{
    if rules.len() > 0 {
        let init = rules.drop_last();
        assert forall|i: int|
            0 <= i < init.len() && rule_matches(#[trigger] init[i], req) implies rule_key(init[i])
            == key by {
            assert(init[i] == rules[i]);
        }
        lemma_first_match_bucket(init, key, req);
        assert(rules[rules.len() - 1] == rules.last());
        if rule_key(rules.last()) == key {
            let b = bucket_of(init, key).push(rules.last());
            assert(b.drop_last() =~= bucket_of(init, key));
            assert(b.last() == rules.last());
        }
    }
}

/// The index is only a shortcut: looking a request up under the first
/// segment of its path and taking the first matching rule there gives the
/// same rule as scanning every loaded rule, in load order, for the first one
/// that matches.
pub proof fn law_index_routing_is_first_match(rules: Seq<MockRule>, req: RequestView)
    ensures
        first_match(bucket(index_of(rules), first_segment(req.path)), req) == first_match(
            rules,
            req,
        ),
{
    let key = first_segment(req.path);
    assert forall|i: int|
        0 <= i < rules.len() && rule_matches(#[trigger] rules[i], req) implies rule_key(rules[i])
        == key by {
        law_match_implies_key(rules[i], req);
    }
    lemma_first_match_bucket(rules, key, req);
    if !has_key(rules, key) {
        lemma_bucket_of_absent(rules, key);
    }
}

/// A request with a different path.
pub open spec fn with_path(req: RequestView, path: Seq<char>) -> RequestView {
    RequestView { path: path, ..req }
}

/// Trailing slashes are ignored: a request matches a rule exactly when the
/// same request with one more `/` at the end of its path does.
pub proof fn law_trailing_slash_ignored(rule: MockRule, req: RequestView)
    ensures
        rule_matches(rule, req) == rule_matches(rule, with_path(req, req.path.push('/'))),
{
    let p = req.path.push('/');
    assert(p.drop_last() =~= req.path);
    assert(trim_end_slashes(p) == trim_end_slashes(req.path));
}

/// A name that is found is the name of some entry, with that entry's value.
proof fn lemma_lookup_found(q: Seq<(String, String)>, name: Seq<char>)
    requires
        lookup(q, name) is Some,
    ensures
        exists|i: int|
            0 <= i < q.len() && (#[trigger] q[i]).0@ == name && q[i].1@ == lookup(q, name)->0,
    decreases q.len(),
{
    if q[0].0@ == name {
        assert(q[0].0@ == name && q[0].1@ == lookup(q, name)->0);
    } else {
        lemma_lookup_found(q.drop_first(), name);
        let i: int = choose|i: int|
            0 <= i < q.drop_first().len() && (#[trigger] q.drop_first()[i]).0@ == name
                && q.drop_first()[i].1@ == lookup(q.drop_first(), name)->0;
        assert(q[i + 1] == q.drop_first()[i]);
    }
}

/// Where each name occurs once, looking up an entry's name gives its value.
proof fn lemma_lookup_distinct(q: Seq<(String, String)>, j: int)
    requires
        names_distinct(q),
        0 <= j < q.len(),
    ensures
        lookup(q, q[j].0@) == Some(q[j].1@),
    decreases q.len(),
{
    if j > 0 {
        assert(q[0].0@ != q[j].0@);
        let t = q.drop_first();
        assert forall|a: int, b: int|
            0 <= a < t.len() && 0 <= b < t.len() && a != b implies #[trigger] t[a].0@
            != #[trigger] t[b].0@ by {
            assert(t[a] == q[a + 1]);
            assert(t[b] == q[b + 1]);
        }
        assert(t[j - 1] == q[j]);
        lemma_lookup_distinct(t, j - 1);
    }
}

/// Requirements are a subset test: a request that matches a rule still
/// matches it when it carries more query parameters and headers, that is,
/// any query parameters (one per name) and headers that include all of its
/// own.
pub proof fn law_more_parameters_keep_match(
    rule: MockRule,
    req: RequestView,
    queries: Seq<(String, String)>,
    headers: Seq<(String, String)>,
)
    requires
        rule_matches(rule, req),
        names_distinct(queries),
        pairs_included(req.queries, queries),
        pairs_included(req.headers, headers),
    ensures
        rule_matches(rule, RequestView { queries: queries, headers: headers, ..req }),
{
    match rule.request.query_params {
        Some(required) => {
            assert forall|i: int| 0 <= i < required@.len() implies lookup(
                queries,
                #[trigger] required@[i].0@,
            ) == Some(required@[i].1@) by {
                let name = required@[i].0@;
                assert(lookup(req.queries, name) == Some(required@[i].1@));
                lemma_lookup_found(req.queries, name);
                let a: int = choose|a: int|
                    0 <= a < req.queries.len() && (#[trigger] req.queries[a]).0@ == name
                        && req.queries[a].1@ == lookup(req.queries, name)->0;
                let b: int = choose|b: int|
                    0 <= b < queries.len() && (#[trigger] queries[b]).0@ == (
                    #[trigger] req.queries[a]).0@ && queries[b].1@ == req.queries[a].1@;
                lemma_lookup_distinct(queries, b);
            }
        },
        None => {},
    }
    match rule.request.headers {
        Some(required) => {
            assert forall|i: int| 0 <= i < required@.len() implies #[trigger] header_present(
                headers,
                required@[i].0@,
                required@[i].1@,
            ) by {
                assert(header_present(req.headers, required@[i].0@, required@[i].1@));
                let a: int = choose|a: int|
                    0 <= a < req.headers.len() && spec_to_lowercase(
                        #[trigger] req.headers[a].0@,
                    ) == spec_to_lowercase(required@[i].0@) && req.headers[a].1@
                        == required@[i].1@;
                let b: int = choose|b: int|
                    0 <= b < headers.len() && (#[trigger] headers[b]).0@ == (
                    #[trigger] req.headers[a]).0@ && headers[b].1@ == req.headers[a].1@;
                assert(spec_to_lowercase(headers[b].0@) == spec_to_lowercase(required@[i].0@));
            }
        },
        None => {},
    }
}

/// A rule without a body requirement ignores the request body; a rule with
/// one never answers a request that has no JSON body.
pub proof fn law_body_requirement(rule: MockRule, req: RequestView, body: Option<JsonBody>)
    ensures
        rule.request.body is None ==> rule_matches(rule, req) == rule_matches(
            rule,
            RequestView { body: body, ..req },
        ),
        rule.request.body is Some && req.body is None ==> !rule_matches(rule, req),
{
}

/// Methods are compared without regard to case: two methods with the same
/// upper-case form are matched by the same rules.
pub proof fn law_method_case_ignored(rule: MockRule, req: RequestView, method: Seq<char>)
    requires
        spec_to_uppercase(method) == spec_to_uppercase(req.method),
    ensures
        rule_matches(rule, req) == rule_matches(rule, RequestView { method: method, ..req }),
{
}

/// Header names are compared without regard to case: renaming the request's
/// headers to names with the same lower-case form, values unchanged, never
/// changes which rules match.
pub proof fn law_header_names_ignore_case(
    rule: MockRule,
    req: RequestView,
    headers: Seq<(String, String)>,
)
    requires
        headers.len() == req.headers.len(),
        forall|j: int|
            0 <= j < headers.len() ==> spec_to_lowercase(#[trigger] headers[j].0@)
                == spec_to_lowercase(req.headers[j].0@) && headers[j].1@ == req.headers[j].1@,
    ensures
        rule_matches(rule, req) == rule_matches(rule, RequestView { headers: headers, ..req }),
{
    assert forall|n: Seq<char>, v: Seq<char>|
        header_present(req.headers, n, v) == header_present(headers, n, v) by {
        if header_present(req.headers, n, v) {
            let j: int = choose|j: int|
                0 <= j < req.headers.len() && spec_to_lowercase(#[trigger] req.headers[j].0@)
                    == spec_to_lowercase(n) && req.headers[j].1@ == v;
            assert(spec_to_lowercase(headers[j].0@) == spec_to_lowercase(n));
        }
        if header_present(headers, n, v) {
            let j: int = choose|j: int|
                0 <= j < headers.len() && spec_to_lowercase(#[trigger] headers[j].0@)
                    == spec_to_lowercase(n) && headers[j].1@ == v;
            assert(spec_to_lowercase(req.headers[j].0@) == spec_to_lowercase(n));
        }
    }
    match rule.request.headers {
        Some(required) => {
            if headers_satisfied(rule.request.headers, req.headers) {
                assert forall|i: int| 0 <= i < required@.len() implies #[trigger] header_present(
                    headers,
                    required@[i].0@,
                    required@[i].1@,
                ) by {
                    assert(header_present(req.headers, required@[i].0@, required@[i].1@));
                }
            }
            if headers_satisfied(rule.request.headers, headers) {
                assert forall|i: int| 0 <= i < required@.len() implies #[trigger] header_present(
                    req.headers,
                    required@[i].0@,
                    required@[i].1@,
                ) by {
                    assert(header_present(headers, required@[i].0@, required@[i].1@));
                }
            }
        },
        None => {},
    }
}

/// A rule's configured status is sent as it is whenever HTTP accepts it as a
/// status code (100 to 999); only other codes fall back to 200.
pub proof fn law_status_kept(code: u16)
    ensures
        100 <= code <= 999 ==> effective_status(code) == code,
        !(100 <= code <= 999) ==> effective_status(code) == 200,
{
}

/// A body names a file exactly when its first seven characters are
/// `file://`; the path is everything after them.
pub proof fn law_file_body(body: Seq<char>)
    ensures
        is_file_body(body) <==> (body.len() >= 7 && body.take(7) == seq![
            'f',
            'i',
            'l',
            'e',
            ':',
            '/',
            '/',
        ]),
        is_file_body(body) ==> seq!['f', 'i', 'l', 'e', ':', '/', '/'] + body.skip(7) == body,
{
    if body.len() >= 7 {
        assert(body.take(7) + body.skip(7) =~= body);
    }
}

/// Every name made of a non-empty stem and the extension `yml` or `yaml` is
/// loaded, and only such names are: acceptance depends on the extension
/// alone.
pub proof fn law_yaml_names(stem: Seq<char>, name: Seq<char>)
    ensures
        stem.len() > 0 ==> is_yaml_name(stem + seq!['.', 'y', 'm', 'l']),
        stem.len() > 0 ==> is_yaml_name(stem + seq!['.', 'y', 'a', 'm', 'l']),
        is_yaml_name(name) ==> (name.len() > 4 && name == name.take(name.len() - 4) + seq![
            '.',
            'y',
            'm',
            'l',
        ]) || (name.len() > 5 && name == name.take(name.len() - 5) + seq!['.', 'y', 'a', 'm', 'l']),
{
    let a = stem + seq!['.', 'y', 'm', 'l'];
    let b = stem + seq!['.', 'y', 'a', 'm', 'l'];
    assert(a.skip(a.len() - 4) =~= seq!['.', 'y', 'm', 'l']);
    assert(b.skip(b.len() - 5) =~= seq!['.', 'y', 'a', 'm', 'l']);
    if is_yaml_name(name) {
        if name.len() > 4 && name.skip(name.len() - 4) == seq!['.', 'y', 'm', 'l'] {
            let s = name.take(name.len() - 4);
            assert(name =~= s + seq!['.', 'y', 'm', 'l']);
        } else {
            let s = name.take(name.len() - 5);
            assert(name =~= s + seq!['.', 'y', 'a', 'm', 'l']);
        }
    }
}

/// The segment is cut at the first `/` and nowhere else.
proof fn lemma_take_segment_word(w: Seq<char>, rest: Seq<char>)
    requires
        forall|i: int| 0 <= i < w.len() ==> w[i] != '/',
        rest.len() == 0 || rest[0] == '/',
    ensures
        take_segment(w + rest) == w,
    decreases w.len(),
{
    if w.len() == 0 {
        assert(w + rest =~= rest);
    } else {
        let t = w.drop_first();
        assert((w + rest)[0] == w[0]);
        assert((w + rest).drop_first() =~= t + rest);
        lemma_take_segment_word(t, rest);
        assert(seq![w[0]] + t =~= w);
    }
}

/// The first segment of a path is exactly the text between the leading `/`
/// and the next `/` (or the end): every other character, `-` and `.`
/// included, belongs to it.
pub proof fn law_first_segment_word(w: Seq<char>, rest: Seq<char>)
    requires
        w.len() > 0,
        forall|i: int| 0 <= i < w.len() ==> w[i] != '/',
        rest.len() == 0 || rest[0] == '/',
    ensures
        first_segment(seq!['/'] + w + rest) == w,
{
    let p = seq!['/'] + w + rest;
    assert(p.drop_first() =~= w + rest);
    assert((w + rest)[0] == w[0]);
    assert(trim_start_slashes(w + rest) == w + rest);
    lemma_take_segment_word(w, rest);
}

/// A file with one rule or a list of rules gives back exactly those rules.
pub proof fn law_source_rules(rule: MockRule, rules: Vec<MockRule>)
    ensures
        source_rules(MockSource::Single(rule)) == seq![rule],
        source_rules(MockSource::Multiple(rules)) == rules@,
{
}

/// The first match is the earliest rule of the list that matches: it is in
/// the list, it matches, and no rule before it does; there is none only when
/// no rule of the list matches.
pub proof fn law_first_match_is_earliest(rules: Seq<MockRule>, req: RequestView)
    ensures
        match first_match(rules, req) {
            Some(r) => exists|i: int|
                0 <= i < rules.len() && rules[i] == r && rule_matches(rules[i], req) && forall|
                    j: int,
                | 0 <= j < i ==> !rule_matches(#[trigger] rules[j], req),
            None => forall|i: int| 0 <= i < rules.len() ==> !rule_matches(#[trigger] rules[i], req),
        },
    decreases rules.len(),
{
    if rules.len() > 0 {
        let init = rules.drop_last();
        law_first_match_is_earliest(init, req);
        assert(rules[rules.len() - 1] == rules.last());
        assert forall|j: int| 0 <= j < init.len() implies init[j] == rules[j] by {}
        match first_match(init, req) {
            Some(r) => {
                let i: int = choose|i: int|
                    0 <= i < init.len() && init[i] == r && rule_matches(init[i], req) && forall|
                        j: int,
                    | 0 <= j < i ==> !rule_matches(#[trigger] init[j], req);
                assert(rules[i] == r);
                assert forall|j: int| 0 <= j < i implies !rule_matches(#[trigger] rules[j], req) by {
                    assert(rules[j] == init[j]);
                }
            },
            None => {
                assert forall|j: int|
                    0 <= j < rules.len() - 1 implies !rule_matches(#[trigger] rules[j], req) by {
                    assert(rules[j] == init[j]);
                }
                if rule_matches(rules.last(), req) {
                    let i = rules.len() - 1;
                    assert(rules[i] == rules.last());
                }
            },
        }
    }
}

/// The rules indexed under a key are the rules whose key it is, in their
/// order: the list filtered by key.
pub proof fn law_bucket_is_filter(rules: Seq<MockRule>, key: Seq<char>)
    ensures
        bucket_of(rules, key) == rules.filter(|r: MockRule| rule_key(r) == key),
        index_of(rules).contains_key(key) <==> exists|i: int|
            0 <= i < rules.len() && rule_key(#[trigger] rules[i]) == key,
    decreases rules.len(),
{
    reveal(Seq::filter);
    if rules.len() > 0 {
        law_bucket_is_filter(rules.drop_last(), key);
    }
}

/// Trailing slashes are exactly what is dropped: a path with its trailing
/// slashes removed, followed by some slashes, is the path, and it does not
/// itself end with `/`.
pub proof fn law_trim_end(p: Seq<char>)
    ensures
        trim_end_slashes(p).len() <= p.len(),
        p.take(trim_end_slashes(p).len() as int) == trim_end_slashes(p),
        forall|i: int| trim_end_slashes(p).len() <= i < p.len() ==> p[i] == '/',
        trim_end_slashes(p).len() == 0 || trim_end_slashes(p).last() != '/',
    decreases p.len(),
{
    if p.len() > 0 && p.last() == '/' {
        law_trim_end(p.drop_last());
        let t = trim_end_slashes(p.drop_last());
        assert(p.take(t.len() as int) =~= p.drop_last().take(t.len() as int));
        assert forall|i: int| t.len() <= i < p.len() implies p[i] == '/' by {
            if i < p.len() - 1 {
                assert(p[i] == p.drop_last()[i]);
            }
        }
    } else {
        assert(p.take(p.len() as int) =~= p);
    }
}

/// A rule refuses a request that lacks one of its required query
/// parameters.
pub proof fn law_missing_query_refuses(rule: MockRule, req: RequestView, i: int)
    requires
        rule.request.query_params is Some,
        0 <= i < rule.request.query_params->0@.len(),
        forall|j: int|
            0 <= j < req.queries.len() ==> (#[trigger] req.queries[j]).0@
                != rule.request.query_params->0@[i].0@,
    ensures
        !rule_matches(rule, req),
{
    let required = rule.request.query_params->0@;
    let name = required[i].0@;
    if lookup(req.queries, name) is Some {
        lemma_lookup_found(req.queries, name);
    }
}

/// A rule refuses a request whose query parameter (one per name) has the
/// required name but another value.
pub proof fn law_wrong_query_value_refuses(rule: MockRule, req: RequestView, i: int, j: int)
    requires
        names_distinct(req.queries),
        rule.request.query_params is Some,
        0 <= i < rule.request.query_params->0@.len(),
        0 <= j < req.queries.len(),
        req.queries[j].0@ == rule.request.query_params->0@[i].0@,
        req.queries[j].1@ != rule.request.query_params->0@[i].1@,
    ensures
        !rule_matches(rule, req),
{
    lemma_lookup_distinct(req.queries, j);
    let required = rule.request.query_params->0@;
    assert(lookup(req.queries, required[i].0@) != Some(required[i].1@));
}

/// A rule refuses a request that has no header with a required header's
/// name (but for case) and value.
pub proof fn law_missing_header_refuses(rule: MockRule, req: RequestView, i: int)
    requires
        rule.request.headers is Some,
        0 <= i < rule.request.headers->0@.len(),
        forall|j: int|
            0 <= j < req.headers.len() ==> !(spec_to_lowercase((#[trigger] req.headers[j]).0@)
                == spec_to_lowercase(rule.request.headers->0@[i].0@) && req.headers[j].1@
                == rule.request.headers->0@[i].1@),
    ensures
        !rule_matches(rule, req),
{
    let required = rule.request.headers->0@;
    assert(!header_present(req.headers, required[i].0@, required[i].1@));
}

/// What a match needs beyond parameters and headers: the same method but
/// for case, the same path but for trailing slashes, and, where the rule
/// has a body, a request body equal to it or, for a string, to the JSON
/// value that string holds.
pub proof fn law_match_needs(rule: MockRule, req: RequestView)
    requires
        rule_matches(rule, req),
    ensures
        spec_to_uppercase(rule.request.method@) == spec_to_uppercase(req.method),
        trim_end_slashes(rule.request.path@) == trim_end_slashes(req.path),
        match rule.request.body {
            None => true,
            Some(e) => match req.body {
                None => false,
                Some(b) => e@ == b@ || (e is Str && spec_parse_json(e->Str_0@) == Some(b@)),
            },
        },
{
}

/// A request that agrees with a rule on method (but for case) and path (but
/// for trailing slashes), carries each required query parameter (one entry
/// per name, found at `fq(i)`) and each required header (found at `fh(i)`,
/// name compared without case), and meets the body requirement, matches the
/// rule.
pub proof fn law_match_from_pairs(
    rule: MockRule,
    req: RequestView,
    fq: spec_fn(int) -> int,
    fh: spec_fn(int) -> int,
)
    requires
        spec_to_uppercase(rule.request.method@) == spec_to_uppercase(req.method),
        trim_end_slashes(rule.request.path@) == trim_end_slashes(req.path),
        names_distinct(req.queries),
        match rule.request.query_params {
            None => true,
            Some(required) => forall|i: int|
                0 <= i < required@.len() ==> 0 <= fq(i) < req.queries.len() && req.queries[fq(
                    i,
                )].0@ == (#[trigger] required@[i]).0@ && req.queries[fq(i)].1@ == required@[i].1@,
        },
        match rule.request.headers {
            None => true,
            Some(required) => forall|i: int|
                0 <= i < required@.len() ==> 0 <= fh(i) < req.headers.len() && spec_to_lowercase(
                    req.headers[fh(i)].0@,
                ) == spec_to_lowercase((#[trigger] required@[i]).0@) && req.headers[fh(i)].1@
                    == required@[i].1@,
        },
        match rule.request.body {
            None => true,
            Some(e) => match req.body {
                None => false,
                Some(b) => e@ == b@ || (e is Str && spec_parse_json(e->Str_0@) == Some(b@)),
            },
        },
    ensures
        rule_matches(rule, req),
{
    match rule.request.query_params {
        Some(required) => {
            assert forall|i: int| 0 <= i < required@.len() implies lookup(
                req.queries,
                #[trigger] required@[i].0@,
            ) == Some(required@[i].1@) by {
                assert(required@[i] == required@[i]);
                lemma_lookup_distinct(req.queries, fq(i));
            }
        },
        None => {},
    }
    match rule.request.headers {
        Some(required) => {
            assert forall|i: int| 0 <= i < required@.len() implies #[trigger] header_present(
                req.headers,
                required@[i].0@,
                required@[i].1@,
            ) by {
                assert(required@[i] == required@[i]);
                let j = fh(i);
                assert(spec_to_lowercase(req.headers[j].0@) == spec_to_lowercase(required@[i].0@));
            }
        },
        None => {},
    }
}

/// A path made only of slashes has nothing left once they are trimmed.
proof fn lemma_trim_all_slashes(p: Seq<char>)
    requires
        forall|i: int| 0 <= i < p.len() ==> p[i] == '/',
    ensures
        trim_start_slashes(p).len() == 0,
    decreases p.len(),
{
    if p.len() > 0 {
        assert forall|i: int| 0 <= i < p.drop_first().len() implies p.drop_first()[i] == '/' by {
            assert(p.drop_first()[i] == p[i + 1]);
        }
        lemma_trim_all_slashes(p.drop_first());
    }
}

/// The root path, and any path made only of slashes (the empty path too),
/// is filed under the key `root`.
pub proof fn law_root_path_key(p: Seq<char>)
    requires
        forall|i: int| 0 <= i < p.len() ==> p[i] == '/',
    ensures
        first_segment(p) == seq!['r', 'o', 'o', 't'],
{
    lemma_trim_all_slashes(p);
}

} // verus!
