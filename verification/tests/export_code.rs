use firebee::export::{to_curl, to_python};
use firebee::models::{Auth, BodyType, HttpMethod, KeyValue, Request};

fn sample() -> Request {
    let mut r = Request::new("登录");
    r.method = HttpMethod::Post;
    r.url = "https://api.dev/login".into();
    r.headers = vec![KeyValue::new("X-App", "firebee")];
    r.body_type = BodyType::Json;
    r.body = r#"{"u":"a","p":"b's"}"#.into();
    r.auth = Auth::Bearer { token: "t123".into() };
    r
}

#[test]
fn curl_contains_all_parts() {
    let c = to_curl(&sample(), "https://api.dev/login");
    assert!(c.contains("curl -X POST"), "{c}");
    assert!(c.contains("'https://api.dev/login'"), "{c}");
    assert!(c.contains("-H 'X-App: firebee'"), "{c}");
    assert!(c.contains("-H 'Authorization: Bearer t123'"), "{c}");
    assert!(c.contains("Content-Type: application/json"), "{c}");
    assert!(c.contains(r#"-d '{"u":"a","p":"b'\''s"}'"#), "{c}");
}

#[test]
fn curl_minifies_pretty_json_body() {
    let mut r = sample();
    r.body = "{\n  \"a\": 1,\n  \"b\": [\n    1,\n    2\n  ]\n}".into();
    let c = to_curl(&r, "https://api.dev/login");
    assert!(c.contains(r#"-d '{"a":1,"b":[1,2]}'"#), "{c}");
    r.body = "{not json\n}".into();
    assert!(to_curl(&r, "u").contains("-d '{not json\n}'"));
}

#[test]
fn curl_basic_auth() {
    let mut r = Request::new("t");
    r.url = "https://api.dev/x".into();
    r.auth = Auth::Basic { username: "u".into(), password: "p".into() };
    let c = to_curl(&r, "https://api.dev/x");
    assert!(c.contains("-u 'u:p'"), "{c}");
    assert!(!c.contains("Authorization"), "{c}");
}

#[test]
fn curl_form() {
    let mut r = Request::new("t");
    r.method = HttpMethod::Post;
    r.body_type = BodyType::Form;
    r.form = vec![KeyValue::new("name", "张三")];
    let c = to_curl(&r, "https://api.dev/f");
    assert!(c.contains("--data-urlencode 'name=张三'"), "{c}");
}

#[test]
fn curl_graphql_sends_json_payload() {
    let mut r = Request::new("t");
    r.method = HttpMethod::Post;
    r.body_type = BodyType::GraphQL;
    r.body = "{ me { id } }".into();
    let c = to_curl(&r, "https://api.dev/graphql");
    assert!(c.contains("Content-Type: application/json"), "{c}");
    assert!(c.contains(r#"-d '{"query":"{ me { id } }"}'"#), "{c}");
}

#[test]
fn python_contains_all_parts() {
    let p = to_python(&sample(), "https://api.dev/login");
    assert!(p.contains("import requests"), "{p}");
    assert!(p.contains(r#""POST""#), "{p}");
    assert!(p.contains(r#""https://api.dev/login""#), "{p}");
    assert!(p.contains(r#""X-App": "firebee""#), "{p}");
    assert!(p.contains(r#""Authorization": "Bearer t123""#), "{p}");
    assert!(p.contains("print(response.status_code)"), "{p}");
}

#[test]
fn python_form_uses_data_dict() {
    let mut r = Request::new("t");
    r.method = HttpMethod::Post;
    r.body_type = BodyType::Form;
    r.form = vec![KeyValue::new("name", "张三")];
    let p = to_python(&r, "https://api.dev/f");
    assert!(p.contains(r#""name": "张三""#), "{p}");
}
