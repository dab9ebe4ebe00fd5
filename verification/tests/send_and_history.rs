use firebee::export::to_curl;
use firebee::http::HttpError;
use firebee::import::{from_curl, shell_words};
use firebee::models::{Auth, BodyType, Environment, HttpMethod, KeyValue, Request, ResponseMeta};
use firebee::storage::{HISTORY_LIMIT, history_to_keep};
use firebee::ui::{FirebeeApp, record_history, result_summary, save_due, shown_response};

fn editor_on(url: &str, envs: Vec<Environment>) -> FirebeeApp {
    let mut app = FirebeeApp::new(envs);
    app.current.url = url.into();
    app
}

#[test]
fn second_send_with_undefined_names_sends() {
    let mut app = editor_on("{{base}}/x", vec![]);
    assert_eq!(app.current.name, "新请求");
    assert_eq!(app.timeout_secs, 30);
    assert!(app.send().is_none());
    assert_eq!(app.missing_vars, vec!["base".to_string()]);
    let job = app.send().unwrap();
    assert_eq!(job.id, 1);
    assert_eq!(job.request.url, "{{base}}/x");
    assert_eq!(job.request.id, app.current.id);
    assert!(app.missing_vars.is_empty());
    assert_eq!(app.next_job_id, 2);
    assert_eq!(app.pending, Some(1));
    assert!(app.response.is_none());
}

#[test]
fn a_finished_send_is_shown_and_no_longer_pending() {
    let mut app = editor_on("https://a.dev", vec![]);
    app.send().unwrap();
    let summary = app.finish(Err(HttpError::Timeout(firebee::http::TimeLimit::new(30, 0).unwrap())));
    assert_eq!(summary, (None, None));
    assert!(app.pending.is_none());
    assert_eq!(app.response.clone().unwrap().unwrap_err(), "Request timed out (30s)");
    let meta = ResponseMeta { status: 200, headers: vec![], body: vec![], duration_ms: 3, size_bytes: 0 };
    assert_eq!(app.finish(Ok(meta)), (Some(200), Some(3)));
    assert_eq!(app.response.unwrap().unwrap().status, 200);
}

#[test]
fn send_without_undefined_names_sends_at_once() {
    let env = Environment {
        id: uuid::Uuid::new_v4(),
        name: "dev".into(),
        variables: vec![KeyValue::new("base", "https://a.dev")],
    };
    let mut app = editor_on("{{base}}/x", vec![env]);
    app.envs.active_env = Some(app.envs.environments[0].id);
    app.timeout_secs = 0;
    let job = app.send().unwrap();
    assert_eq!(job.request.url, "https://a.dev/x");
    assert_eq!(job.timeout_secs, 1);
    app.timeout_secs = 7;
    let job2 = app.send().unwrap();
    assert_eq!(job2.id, 2);
    assert_eq!(job2.timeout_secs, 7);
}

#[test]
fn other_undefined_names_are_shown_again() {
    let mut app = editor_on("{{x}}", vec![]);
    assert!(app.send().is_none());
    app.current.url = "{{y}}".into();
    assert!(app.send().is_none());
    assert_eq!(app.missing_vars, vec!["y".to_string()]);
    assert!(app.send().is_some());
}

#[test]
fn history_keeps_the_last_entries() {
    let mut h: Vec<u32> = Vec::new();
    for i in 0..600u32 {
        record_history(&mut h, i);
    }
    assert_eq!(h.len(), HISTORY_LIMIT);
    assert_eq!(h[0], 100);
    assert_eq!(*h.last().unwrap(), 599);
    let all: Vec<u32> = (0..600).collect();
    let kept = history_to_keep(&all);
    assert_eq!(kept.len(), 500);
    assert_eq!(kept[0], 100);
    let few = [1u32, 2, 3];
    assert_eq!(history_to_keep(&few), &few[..]);
}

#[test]
fn finished_send_summary_and_message() {
    let meta = ResponseMeta {
        status: 201,
        headers: vec![],
        body: b"ok".to_vec(),
        duration_ms: 12,
        size_bytes: 2,
    };
    assert_eq!(result_summary(&Ok(meta.clone())), (Some(201), Some(12)));
    assert_eq!(result_summary(&Err(HttpError::Cancelled)), (None, None));
    assert_eq!(shown_response(Ok(meta)).unwrap().status, 201);
    assert_eq!(shown_response(Err(HttpError::Cancelled)).unwrap_err(), "Request cancelled");
}

#[test]
fn quoted_arguments_read_back_as_words() {
    let mut r = Request::new("q");
    r.headers = vec![KeyValue::new("X-Note", "it's 'quoted'")];
    let c = to_curl(&r, "https://a.dev/x?q=it's");
    let words = shell_words(&c);
    assert!(words.contains(&"X-Note: it's 'quoted'".to_string()), "{words:?}");
    assert!(words.contains(&"https://a.dev/x?q=it's".to_string()), "{words:?}");
}

#[test]
fn exported_curl_imports_back() {
    let mut r = Request::new("p");
    r.method = HttpMethod::Put;
    r.headers = vec![KeyValue::new("X-App", "fire'bee")];
    r.body_type = BodyType::Text;
    r.body = "hello world".into();
    r.auth = Auth::Basic { username: "u".into(), password: "p".into() };
    let back = from_curl(&to_curl(&r, "https://api.dev/items?page=2")).unwrap();
    assert_eq!(back.method, HttpMethod::Put);
    assert_eq!(back.url, "https://api.dev/items");
    assert_eq!(back.params, vec![KeyValue::new("page", "2")]);
    assert_eq!(back.headers, vec![KeyValue::new("X-App", "fire'bee")]);
    assert_eq!(back.body_type, BodyType::Text);
    assert_eq!(back.body, "hello world");
    assert_eq!(back.auth, Auth::Basic { username: "u".into(), password: "p".into() });
}

#[test]
fn edits_are_saved_after_the_delay() {
    assert!(!save_due(0));
    assert!(!save_due(500));
    assert!(save_due(501));
}

#[test]
fn a_line_of_quoted_words_reads_back() {
    let words = shell_words("'it'\\''s' 'a b' '' 'x\"y'");
    assert_eq!(words, vec!["it's", "a b", "", "x\"y"]);
}

#[test]
fn many_finished_sends_keep_the_last_entries_in_order() {
    let mut h: Vec<u32> = (0..450).collect();
    for i in 1000..1100u32 {
        record_history(&mut h, i);
    }
    let mut expected: Vec<u32> = (50..450).collect();
    expected.extend(1000..1100u32);
    assert_eq!(h, expected);
}

#[test]
fn loading_a_request_clears_the_response_and_notice() {
    let mut app = editor_on("{{nope}}", vec![]);
    assert!(app.send().is_none());
    app.finish(Err(HttpError::Cancelled));
    let picked = Request::new("picked");
    let id = picked.id;
    app.load(picked);
    assert_eq!(app.current.id, id);
    assert!(app.response.is_none());
    assert!(app.missing_vars.is_empty());
}
