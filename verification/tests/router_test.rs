use mock_server::config::{MockResponse, MockRule, MockSettings, MockSource, RequestMatcher};
use mock_server::index::MockIndex;
use mock_server::json::JsonBody;
use mock_server::loader::MockLoader;
use mock_server::router::MockRouter;

fn pairs(entries: &[(&str, &str)]) -> Vec<(String, String)> {
    entries.iter().map(|(k, v)| (k.to_string(), v.to_string())).collect()
}

fn rule(id: &str, method: &str, path: &str) -> MockRule {
    MockRule {
        id: id.to_string(),
        request: RequestMatcher {
            method: method.to_string(),
            path: path.to_string(),
            query_params: None,
            headers: None,
            body: None,
        },
        response: MockResponse { status: 200, headers: None, body: "ok".to_string() },
        settings: None,
    }
}

fn router_of(rules: Vec<MockRule>) -> MockRouter {
    let mut index = MockIndex::new();
    for r in rules {
        index.insert_rule(r);
    }
    MockRouter::new(index)
}

fn json(text: &str) -> JsonBody {
    JsonBody::parse(text).expect("valid JSON")
}

#[test]
fn test_router_matching_logic() {
    let mut rule_auth = rule("auth_v1", "POST", "/api/v1/login");
    rule_auth.request.headers = Some(pairs(&[("Content-Type", "application/json")]));
    rule_auth.request.body = Some(json(r#"{ "code": 123 }"#));
    rule_auth.response.body = "token_123".to_string();
    let router = router_of(vec![rule_auth.clone()]);

    let headers = pairs(&[("Content-Type", "application/json")]);
    let incoming_body = Some(json(r#"{ "code": 123 }"#));

    let matched = router.match_rule("POST", "/api/v1/login", &Vec::new(), &headers, &incoming_body);
    assert!(matched.is_some());
    assert_eq!(matched.unwrap().id, "auth_v1");

    let wrong_body = Some(json(r#"{ "code": 456 }"#));
    let matched_fail = router.match_rule("POST", "/api/v1/login", &Vec::new(), &headers, &wrong_body);
    assert!(matched_fail.is_none(), "a different body must not match");

    let mut rule_str_body = rule("str_match", "POST", "/api/str");
    rule_str_body.request.body = Some(JsonBody::Str(r#"{"type": "json_in_string"}"#.to_string()));
    let router2 = router_of(vec![rule_str_body]);
    let incoming_obj = Some(json(r#"{ "type": "json_in_string" }"#));
    let matched_str = router2.match_rule("POST", "/api/str", &Vec::new(), &Vec::new(), &incoming_obj);
    assert!(matched_str.is_some(), "a string body holding JSON matches that JSON value");

    let matched_slash = router.match_rule("POST", "/api/v1/login/", &Vec::new(), &headers, &incoming_body);
    assert!(matched_slash.is_some());
}

#[test]
fn method_and_header_names_ignore_case() {
    let mut r = rule("r", "post", "/api/x");
    r.request.headers = Some(pairs(&[("X-Token", "abc")]));
    let router = router_of(vec![r]);
    let found = router.match_rule("POST", "/api/x", &Vec::new(), &pairs(&[("x-token", "abc")]), &None);
    assert_eq!(found.unwrap().id, "r");
    let wrong_value = router.match_rule("POST", "/api/x", &Vec::new(), &pairs(&[("x-token", "ABC")]), &None);
    assert!(wrong_value.is_none());
    let wrong_method = router.match_rule("GET", "/api/x", &Vec::new(), &pairs(&[("x-token", "abc")]), &None);
    assert!(wrong_method.is_none());
}

#[test]
fn query_parameters_are_a_subset_test() {
    let mut r = rule("q", "GET", "/search");
    r.request.query_params = Some(pairs(&[("page", "2")]));
    let router = router_of(vec![r]);
    let ok = router.match_rule("GET", "/search", &pairs(&[("sort", "asc"), ("page", "2")]), &Vec::new(), &None);
    assert_eq!(ok.unwrap().id, "q");
    let wrong = router.match_rule("GET", "/search", &pairs(&[("page", "3")]), &Vec::new(), &None);
    assert!(wrong.is_none());
    let missing = router.match_rule("GET", "/search", &Vec::new(), &Vec::new(), &None);
    assert!(missing.is_none());
}

#[test]
fn extra_parameters_keep_a_match() {
    let mut r = rule("h", "GET", "/health");
    r.request.headers = Some(pairs(&[("Accept", "text/plain")]));
    let router = router_of(vec![r]);
    let base = router.match_rule("GET", "/health", &Vec::new(), &pairs(&[("accept", "text/plain")]), &None);
    assert!(base.is_some());
    let more = router.match_rule(
        "GET",
        "/health",
        &pairs(&[("debug", "1")]),
        &pairs(&[("accept", "text/plain"), ("user-agent", "curl")]),
        &None,
    );
    assert_eq!(more.unwrap().id, "h");
}

#[test]
fn body_requirement_rules() {
    let free = rule("free", "POST", "/api/free");
    let mut strict = rule("strict", "POST", "/api/strict");
    strict.request.body = Some(json("[1, 2]"));
    let router = router_of(vec![free, strict]);
    assert!(router.match_rule("POST", "/api/free", &Vec::new(), &Vec::new(), &Some(json("{}"))).is_some());
    assert!(router.match_rule("POST", "/api/free", &Vec::new(), &Vec::new(), &None).is_some());
    assert!(router.match_rule("POST", "/api/strict", &Vec::new(), &Vec::new(), &None).is_none());
    assert!(router.match_rule("POST", "/api/strict", &Vec::new(), &Vec::new(), &Some(json("[1,2]"))).is_some());
    assert!(router.match_rule("POST", "/api/strict", &Vec::new(), &Vec::new(), &Some(json("[2,1]"))).is_none());
}

#[test]
fn first_matching_rule_wins() {
    let a = rule("first", "GET", "/api/items");
    let b = rule("second", "GET", "/api/items/");
    let c = rule("other", "GET", "/api/other");
    let router = router_of(vec![c, a, b]);
    assert_eq!(router.match_rule("GET", "/api/items", &Vec::new(), &Vec::new(), &None).unwrap().id, "first");
    assert!(router.match_rule("GET", "/apix/items", &Vec::new(), &Vec::new(), &None).is_none());
}

#[test]
fn routing_through_the_index_equals_a_scan_of_all_rules() {
    let rules = vec![
        rule("a", "GET", "/api/v1/a"),
        rule("b", "GET", "/health"),
        rule("c", "POST", "/api/v1/a"),
        rule("d", "GET", "/api/v1/a/"),
        rule("e", "GET", "/"),
    ];
    let sources = vec![MockSource::Multiple(rules[..2].to_vec()), MockSource::Multiple(rules[2..].to_vec())];
    let router = MockRouter::new(MockLoader::build_index(sources));
    let requests = [
        ("GET", "/api/v1/a"),
        ("POST", "/api/v1/a/"),
        ("GET", "/health/"),
        ("GET", "/"),
        ("GET", ""),
        ("DELETE", "/api/v1/a"),
        ("GET", "/nowhere"),
    ];
    for (method, path) in requests {
        let by_index = router.match_rule(method, path, &Vec::new(), &Vec::new(), &None).map(|r| r.id.clone());
        let by_scan = rules
            .iter()
            .find(|r| {
                r.request.method.to_uppercase() == method.to_uppercase()
                    && r.request.path.trim_end_matches('/') == path.trim_end_matches('/')
            })
            .map(|r| r.id.clone());
        assert_eq!(by_index, by_scan, "request {} {}", method, path);
    }
}
