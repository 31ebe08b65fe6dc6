use mock_server::config::{MockResponse, MockRule, MockSettings, MockSource, RequestMatcher};
use mock_server::handler::{file_unavailable, plan_response, status_for, BodySource};
use mock_server::index::MockIndex;
use mock_server::json::JsonBody;
use mock_server::loader::MockLoader;
use mock_server::text::{first_segment_of, same_path};

fn rule(id: &str, path: &str, body: &str) -> MockRule {
    MockRule {
        id: id.to_string(),
        request: RequestMatcher {
            method: "GET".to_string(),
            path: path.to_string(),
            query_params: None,
            headers: None,
            body: None,
        },
        response: MockResponse { status: 200, headers: None, body: body.to_string() },
        settings: None,
    }
}

#[test]
fn flatten_keeps_every_rule_in_order() {
    let single = MockSource::Single(rule("auth_v1", "/api/v1/login", "inline_content"));
    let rules = single.flatten();
    assert_eq!(rules.len(), 1);
    assert_eq!(rules[0].id, "auth_v1");
    let multi = MockSource::Multiple(vec![rule("api_1", "/1", "b1"), rule("api_2", "/2", "b2")]);
    let rules = multi.flatten();
    assert_eq!(rules.iter().map(|r| r.id.as_str()).collect::<Vec<_>>(), vec!["api_1", "api_2"]);
    assert!(MockSource::Multiple(Vec::new()).flatten().is_empty());
}

#[test]
fn file_protocol_bodies() {
    let r = rule("export_api", "/download", "file://./storage/data.zip");
    assert!(r.response.is_file_protocol());
    assert_eq!(r.response.get_file_path(), Some("./storage/data.zip"));
    let inline = rule("x", "/x", "welcome");
    assert!(!inline.response.is_file_protocol());
    assert_eq!(inline.response.get_file_path(), None);
    assert_eq!(rule("y", "/y", "file://").response.get_file_path(), Some(""));
    assert_eq!(rule("z", "/z", "file:/a").response.get_file_path(), None);
    assert_eq!(rule("w", "/w", "FILE://a").response.get_file_path(), None);
}

#[test]
fn first_segment_keys() {
    assert_eq!(first_segment_of("/api/v1/login"), "api");
    assert_eq!(first_segment_of("/health"), "health");
    assert_eq!(first_segment_of("//api//v1"), "api");
    assert_eq!(first_segment_of("api/v1"), "api");
    assert_eq!(first_segment_of("/"), "root");
    assert_eq!(first_segment_of(""), "root");
    assert_eq!(first_segment_of("///"), "root");
    assert_eq!(first_segment_of("/root/x"), "root");
    assert_eq!(first_segment_of("/v1/"), "v1");
}

#[test]
fn paths_equal_but_for_trailing_slashes() {
    assert!(same_path("/api/v1/login", "/api/v1/login/"));
    assert!(same_path("/a//", "/a"));
    assert!(same_path("/", ""));
    assert!(!same_path("/a", "/a/b"));
    assert!(!same_path("//a", "/a"));
}

#[test]
fn yaml_file_names() {
    assert!(MockLoader::is_yaml_file("get_profile.yaml"));
    assert!(MockLoader::is_yaml_file("system.yml"));
    assert!(MockLoader::is_yaml_file("..yaml"));
    assert!(!MockLoader::is_yaml_file(".yaml"));
    assert!(!MockLoader::is_yaml_file(".yml"));
    assert!(!MockLoader::is_yaml_file("notes.txt"));
    assert!(!MockLoader::is_yaml_file("data.YAML"));
    assert!(!MockLoader::is_yaml_file("yaml"));
    assert!(!MockLoader::is_yaml_file("a.yaml.bak"));
}

#[test]
fn build_index_groups_rules_by_first_segment() {
    let deep = MockSource::Single(rule("user_profile", "/api/v1/user/profile", "profile_data"));
    let system = MockSource::Multiple(vec![
        rule("sys_health", "/health", "ok"),
        rule("sys_version", "/version", "1.0.0"),
    ]);
    let index = MockLoader::build_index(vec![deep, system]);
    assert!(index.contains_key("api"));
    assert!(index.contains_key("health"));
    assert!(index.contains_key("version"));
    assert!(!index.contains_key("user"));
    assert_eq!(index.len(), 3);
    let keys = index.keys();
    assert_eq!(keys, vec!["api".to_string(), "health".to_string(), "version".to_string()]);
    let total: usize = keys.iter().map(|k| index.get(k).unwrap().len()).sum();
    assert_eq!(total, 3);
    assert_eq!(index.get("api").unwrap()[0].id, "user_profile");
}

#[test]
fn insert_rule_appends_to_the_group() {
    let mut index = MockIndex::new();
    assert_eq!(index.len(), 0);
    index.insert_rule(rule("a", "/api/a", "1"));
    index.insert_rule(rule("h", "/health", "2"));
    index.insert_rule(rule("b", "api/b/", "3"));
    let api = index.get("api").unwrap();
    assert_eq!(api.iter().map(|r| r.id.as_str()).collect::<Vec<_>>(), vec!["a", "b"]);
    assert_eq!(index.keys(), vec!["api".to_string(), "health".to_string()]);
    assert!(index.get("missing").is_none());
    index.insert_rule(rule("home", "/", "4"));
    assert!(index.contains_key("root"));
    assert!(!index.contains_key(""));
    assert_eq!(index.get("root").unwrap()[0].id, "home");
}

#[test]
fn statuses() {
    assert_eq!(status_for(200), 200);
    assert_eq!(status_for(404), 404);
    assert_eq!(status_for(100), 100);
    assert_eq!(status_for(999), 999);
    assert_eq!(status_for(99), 200);
    assert_eq!(status_for(1000), 200);
    assert_eq!(status_for(0), 200);
}

#[test]
fn plans_for_matched_and_unmatched_requests() {
    let none = plan_response(None);
    assert_eq!(none.status, 404);
    assert_eq!(none.delay_ms, None);
    assert!(none.headers.is_empty());
    assert_eq!(none.body, BodySource::Inline("No mock rule matched this request".to_string()));

    let mut r = rule("f", "/download", "file://./storage/data.zip");
    r.response.status = 201;
    r.response.headers = Some(vec![("Content-Type".to_string(), "application/zip".to_string())]);
    r.settings = Some(MockSettings { delay_ms: Some(250) });
    let plan = plan_response(Some(r));
    assert_eq!(plan.status, 201);
    assert_eq!(plan.delay_ms, Some(250));
    assert_eq!(plan.headers, vec![("Content-Type".to_string(), "application/zip".to_string())]);
    assert_eq!(plan.body, BodySource::File("./storage/data.zip".to_string()));

    let mut inline = rule("i", "/x", "welcome");
    inline.response.status = 42;
    inline.settings = Some(MockSettings { delay_ms: None });
    let plan = plan_response(Some(inline));
    assert_eq!(plan.status, 200);
    assert_eq!(plan.delay_ms, None);
    assert_eq!(plan.body, BodySource::Inline("welcome".to_string()));
}

#[test]
fn missing_file_plan() {
    let plan = file_unavailable("./storage/data.zip");
    assert_eq!(plan.status, 500);
    assert!(plan.headers.is_empty());
    assert_eq!(plan.body, BodySource::Inline("File not found: ./storage/data.zip".to_string()));
}

#[test]
fn json_bodies() {
    assert_eq!(JsonBody::parse("\"abc\""), Some(JsonBody::Str("abc".to_string())));
    assert_eq!(
        JsonBody::parse("{ \"b\": 1, \"a\": [true, null] }"),
        Some(JsonBody::Compact("{\"a\":[true,null],\"b\":1}".to_string()))
    );
    assert_eq!(JsonBody::parse("not json"), None);
    assert_eq!(JsonBody::parse("{} trailing"), None);
    let a = JsonBody::parse("{\"x\": 1, \"y\": 2}").unwrap();
    let b = JsonBody::parse("{\"y\":2,\"x\":1}").unwrap();
    assert!(a.same_value(&b));
    assert!(!a.same_value(&JsonBody::Str("{\"x\":1,\"y\":2}".to_string())));
}
