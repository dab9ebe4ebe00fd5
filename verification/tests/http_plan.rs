use firebee::commands::{ResponseDto, prepare_send};
use firebee::http::{DEFAULT_TIMEOUT_SECS, HttpError, PlanBody, TimeLimit, classify_error, plan_request};
use firebee::models::{Auth, BodyType, Environment, HttpMethod, KeyValue, Request, ResponseMeta};
use firebee::storage::{backup_name, temp_name};

#[test]
fn plans_json_with_bearer_and_api_key_header() {
    let mut r = Request::new("p");
    r.method = HttpMethod::Post;
    r.url = "https://api.dev/login".into();
    r.params = vec![KeyValue::new("a", "1")];
    r.headers = vec![KeyValue::new("X-App", "f"), KeyValue { enabled: false, key: "Off".into(), value: "x".into() }];
    r.body_type = BodyType::Json;
    r.body = r#"{"u":"a"}"#.into();
    r.auth = Auth::Bearer { token: "t1".into() };
    let p = plan_request(&r).unwrap();
    assert_eq!(p.method, "POST");
    assert_eq!(p.url, "https://api.dev/login?a=1");
    assert_eq!(p.headers, vec![("X-App".to_string(), "f".to_string())]);
    assert_eq!(p.bearer.as_deref(), Some("t1"));
    assert!(p.basic.is_none());
    assert!(matches!(p.body, PlanBody::Json(ref b) if b == r#"{"u":"a"}"#));

    r.auth = Auth::ApiKey { key: "K".into(), value: "V".into(), in_query: false };
    r.body_type = BodyType::Form;
    r.form = vec![KeyValue::new("name", "张三")];
    let p = plan_request(&r).unwrap();
    assert_eq!(p.headers.last().unwrap(), &("K".to_string(), "V".to_string()));
    assert!(matches!(p.body, PlanBody::Form(ref f) if f == &vec![("name".to_string(), "张三".to_string())]));
}

#[test]
fn api_key_in_query_and_basic_auth() {
    let mut r = Request::new("q");
    r.url = "https://api.dev/data".into();
    r.auth = Auth::ApiKey { key: "api_key".into(), value: "s3".into(), in_query: true };
    let p = plan_request(&r).unwrap();
    assert_eq!(p.url, "https://api.dev/data?api_key=s3");
    assert!(p.headers.is_empty());
    r.auth = Auth::Basic { username: "u".into(), password: "pw".into() };
    r.body_type = BodyType::Text;
    let p = plan_request(&r).unwrap();
    assert_eq!(p.basic, Some(("u".to_string(), "pw".to_string())));
    assert!(matches!(p.body, PlanBody::NoBody));
}

#[test]
fn invalid_url_and_invalid_graphql_variables() {
    let mut r = Request::new("bad");
    r.url = "not a url".into();
    match plan_request(&r) {
        Err(HttpError::InvalidUrl(u)) => assert_eq!(u, "not a url"),
        _ => panic!("expected InvalidUrl"),
    }
    r.url = "https://api.dev/graphql".into();
    r.body_type = BodyType::GraphQL;
    r.body = "{ me { id } }".into();
    r.graphql_variables = "{oops".into();
    assert!(matches!(plan_request(&r), Err(HttpError::InvalidBody(_))));
    r.graphql_variables = r#"{"id": 1}"#.into();
    let p = plan_request(&r).unwrap();
    assert!(matches!(p.body, PlanBody::Json(ref b) if b == r#"{"query":"{ me { id } }","variables":{"id":1}}"#));
}

#[test]
fn errors_are_classified_and_described() {
    let t = TimeLimit::new(2, 0).unwrap();
    let e = classify_error(true, true, "x".into(), t);
    assert!(matches!(e, HttpError::Timeout(d) if d.secs() == 2 && d.nanos() == 0));
    assert_eq!(e.message(), "Request timed out (2s)");
    let short = TimeLimit::new(0, 100_000_000).unwrap();
    let e = classify_error(true, false, "x".into(), short);
    assert_eq!(e.message(), "Request timed out (100ms)");
    assert!(TimeLimit::new(1, 1_000_000_000).is_none());
    let e = classify_error(false, true, "x".into(), t);
    assert_eq!(e.message(), "Network error: Cannot connect to server (connection refused or DNS failure)");
    let e = classify_error(false, false, "boom".into(), t);
    assert_eq!(e.message(), "Network error: boom");
    assert_eq!(HttpError::InvalidUrl("u".into()).message(), "Invalid URL: u");
}

#[test]
fn send_preparation_substitutes_and_bounds_the_timeout() {
    let mut r = Request::new("s");
    r.url = "{{base}}/x".into();
    let env = Environment {
        id: uuid::Uuid::new_v4(),
        name: "dev".into(),
        variables: vec![KeyValue::new("base", "https://d")],
    };
    let (req, t) = prepare_send(&r, &Some(env), 0);
    assert_eq!(req.url, "https://d/x");
    assert_eq!(t, 1);
    let (req, t) = prepare_send(&r, &None, DEFAULT_TIMEOUT_SECS);
    assert_eq!(req.url, "{{base}}/x");
    assert_eq!(t, 30);
}

#[test]
fn response_body_is_decoded_lossily() {
    let meta = ResponseMeta {
        status: 200,
        headers: vec![("a".into(), "b".into())],
        body: vec![0x68, 0x69, 0xff],
        duration_ms: 5,
        size_bytes: 3,
    };
    let d = ResponseDto::from_meta(meta);
    assert_eq!(d.body, "hi\u{FFFD}");
    assert_eq!(d.status, 200);
    assert_eq!(d.size_bytes, 3);
}

#[test]
fn storage_file_names() {
    assert_eq!(backup_name("collections.json"), "collections.bak");
    assert_eq!(temp_name("history.json"), "history.json.tmp");
}
