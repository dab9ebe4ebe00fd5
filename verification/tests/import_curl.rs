use firebee::import::{CurlOptions, assemble_request, from_curl, parse_method, shell_words};
use firebee::models::{Auth, BodyType, HttpMethod, KeyValue};

#[test]
fn shell_words_handles_quotes_and_continuations() {
    let w = shell_words("curl -X POST \\\n  'a b' \"c \\\"d\\\"\" $'x\\ny' plain");
    assert_eq!(w, vec!["curl", "-X", "POST", "a b", "c \"d\"", "x\ny", "plain"]);
}

#[test]
fn imports_post_json_with_headers() {
    let cmd = r#"curl -X POST \
  'https://api.dev/v2/products/?page=2&x=y' \
  -H 'am-api-key: k1' \
  -H 'Content-Type: application/json' \
  -d '{"a":1,"b":[1,2]}'"#;
    let r = from_curl(cmd).unwrap();
    assert_eq!(r.method, HttpMethod::Post);
    assert_eq!(r.url, "https://api.dev/v2/products/");
    assert_eq!(r.params, vec![KeyValue::new("page", "2"), KeyValue::new("x", "y")]);
    assert_eq!(r.headers, vec![KeyValue::new("am-api-key", "k1")]);
    assert_eq!(r.body_type, BodyType::Json);
    assert_eq!(r.body, r#"{"a":1,"b":[1,2]}"#);
    assert_eq!(r.name, "POST /v2/products/");
}

#[test]
fn bare_url_is_get_and_bearer_header_becomes_auth() {
    let r = from_curl("curl -sL api.dev/x -H 'Authorization: Bearer t0k' --compressed").unwrap();
    assert_eq!(r.method, HttpMethod::Get);
    assert_eq!(r.url, "http://api.dev/x");
    assert_eq!(r.auth, Auth::Bearer { token: "t0k".into() });
    assert!(r.headers.is_empty());
}

#[test]
fn basic_auth_form_and_attached_method() {
    let r = from_curl("curl -XPUT -u me:pw --data-urlencode 'q=a b' -d k=v https://api.dev/f").unwrap();
    assert_eq!(r.method, HttpMethod::Put);
    assert_eq!(r.auth, Auth::Basic { username: "me".into(), password: "pw".into() });
    assert_eq!(r.body_type, BodyType::Form);
    assert_eq!(r.form, vec![KeyValue::new("q", "a b"), KeyValue::new("k", "v")]);
}

#[test]
fn data_without_method_is_post_text_and_get_flag_moves_to_params() {
    let r = from_curl("curl https://api.dev/t -d 'hello world'").unwrap();
    assert_eq!(r.method, HttpMethod::Post);
    assert_eq!(r.body_type, BodyType::Text);
    let g = from_curl("curl -G https://api.dev/s -d a=1 -d b=2").unwrap();
    assert_eq!(g.method, HttpMethod::Get);
    assert_eq!(g.params, vec![KeyValue::new("a", "1"), KeyValue::new("b", "2")]);
}

#[test]
fn skips_valued_options_and_rejects_non_curl() {
    let r = from_curl("curl -o out.json -m 10 https://api.dev/z").unwrap();
    assert_eq!(r.url, "https://api.dev/z");
    assert!(from_curl("wget https://x").is_err());
    assert!(from_curl("curl -H 'a: b'").unwrap_err().contains("No URL"));
}

#[test]
fn assembles_request_from_options_and_url_parts() {
    let opts = CurlOptions {
        method: None,
        url: Some("api.dev/p?x=1".into()),
        user: Some("me:pw".into()),
        data: vec![r#"{"a":1}"#.into()],
        form: vec![],
        headers: vec![KeyValue::new("Content-Type", "application/json"), KeyValue::new("X", "y")],
        as_get: false,
    };
    let r = assemble_request(
        opts,
        "http://api.dev/p".into(),
        vec![("x".into(), "1".into())],
        "/p".into(),
        true,
    );
    assert_eq!(r.method, HttpMethod::Post);
    assert_eq!(r.name, "POST /p");
    assert_eq!(r.url, "http://api.dev/p");
    assert_eq!(r.params, vec![KeyValue::new("x", "1")]);
    assert_eq!(r.headers, vec![KeyValue::new("X", "y")]);
    assert_eq!(r.body_type, BodyType::Json);
    assert_eq!(r.auth, Auth::Basic { username: "me".into(), password: "pw".into() });

    let opts = CurlOptions {
        method: Some(HttpMethod::Delete),
        url: None,
        user: None,
        data: vec!["a=1".into(), "b=2".into()],
        form: vec![],
        headers: vec![KeyValue::new("content-type", "application/x-www-form-urlencoded")],
        as_get: false,
    };
    let r = assemble_request(opts, "http://h/".into(), vec![], "/".into(), false);
    assert_eq!(r.method, HttpMethod::Delete);
    assert_eq!(r.body_type, BodyType::Form);
    assert_eq!(r.form, vec![KeyValue::new("a", "1"), KeyValue::new("b", "2")]);
}

#[test]
fn import_errors_say_why() {
    assert_eq!(from_curl("curl -X").unwrap_err(), "`-X` needs a value");
    assert_eq!(from_curl("curl -X FETCH http://a").unwrap_err(), "Unsupported method `FETCH`");
    assert!(from_curl("curl 'http://[bad'").unwrap_err().starts_with("Invalid URL `http://[bad`: "));
    assert_eq!(from_curl("").unwrap_err(), "Not a curl command — it should start with `curl`");
}

#[test]
fn unquoted_text_splits_on_whitespace_only() {
    assert_eq!(shell_words("  a  b\tc\n d\u{3000}e "), vec!["a", "b", "c", "d", "e"]);
    assert!(shell_words(" \t ").is_empty());
}

#[test]
fn methods_are_read_in_any_case() {
    let r = from_curl("curl -X patch http://a.dev/x").unwrap();
    assert_eq!(r.method, HttpMethod::Patch);
    let r = from_curl("curl -XdElEtE http://a.dev/x").unwrap();
    assert_eq!(r.method, HttpMethod::Delete);
}

#[test]
fn an_exported_get_imports_back() {
    let mut q = firebee::models::Request::new("n");
    q.method = HttpMethod::Head;
    let r = from_curl(&firebee::export::to_curl(&q, "https://a.dev/p")).unwrap();
    assert_eq!(r.method, HttpMethod::Head);
    assert_eq!(r.url, "https://a.dev/p");
    assert_eq!(r.name, "HEAD /p");
    assert!(r.params.is_empty() && r.headers.is_empty() && r.form.is_empty());
    assert_eq!(r.auth, Auth::NoAuth);
    assert_eq!(r.body_type, BodyType::NoBody);
}

#[test]
fn parse_method_reads_any_case_and_refuses_others() {
    assert_eq!(parse_method("patch"), Ok(HttpMethod::Patch));
    assert_eq!(parse_method("Get"), Ok(HttpMethod::Get));
    assert_eq!(parse_method("FETCH"), Err("Unsupported method `FETCH`".to_string()));
}
