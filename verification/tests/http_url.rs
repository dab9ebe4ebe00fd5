use firebee::http::build_url;
use firebee::models::{KeyValue, Request};

#[test]
fn build_url_appends_enabled_params_only() {
    let mut req = Request::new("t");
    req.url = "https://api.dev/users".into();
    req.params = vec![
        KeyValue::new("a", "1"),
        KeyValue { enabled: false, key: "b".into(), value: "2".into() },
        KeyValue::new("", "skip"),
    ];
    assert_eq!(build_url(&req).unwrap(), "https://api.dev/users?a=1");
}

#[test]
fn build_url_without_params_has_no_trailing_question_mark() {
    let mut req = Request::new("t");
    req.url = "https://api.dev/users/".into();
    assert_eq!(build_url(&req).unwrap(), "https://api.dev/users/");
}
