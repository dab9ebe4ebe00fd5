use firebee::editor::{
    EnvAction, EnvManager, RowEdit, active_env_name, active_vars, body_view, choose_auth,
    edit_rows, missing_notice, status_rgb, AuthKind,
};
use firebee::models::{Auth, Environment, KeyValue};

#[test]
fn table_rows_are_added_and_removed() {
    let mut rows = vec![KeyValue::new("a", "1"), KeyValue::new("b", "2")];
    assert!(edit_rows(&mut rows, RowEdit::Remove(0)));
    assert_eq!(rows, vec![KeyValue::new("b", "2")]);
    assert!(!edit_rows(&mut rows, RowEdit::Remove(5)));
    assert!(edit_rows(&mut rows, RowEdit::Add));
    assert_eq!(rows[1], KeyValue::new("", ""));
}

#[test]
fn picking_another_auth_kind_starts_empty() {
    let mut a = Auth::Bearer { token: "t".into() };
    assert!(!choose_auth(&mut a, AuthKind::Bearer));
    assert_eq!(a, Auth::Bearer { token: "t".into() });
    assert!(choose_auth(&mut a, AuthKind::ApiKey));
    assert_eq!(a, Auth::ApiKey { key: String::new(), value: String::new(), in_query: false });
    assert!(choose_auth(&mut a, AuthKind::NoAuth));
    assert_eq!(a, Auth::NoAuth);
}

#[test]
fn undefined_names_notice() {
    assert_eq!(missing_notice(&vec![]), None);
    assert_eq!(
        missing_notice(&vec!["a".into(), "b".into()]).unwrap(),
        "Undefined variables: a, b (click Send again to send anyway)"
    );
}

fn env(name: &str, vars: Vec<KeyValue>) -> Environment {
    Environment { id: uuid::Uuid::new_v4(), name: name.into(), variables: vars }
}

#[test]
fn environments_are_created_activated_and_deleted() {
    let mut m = EnvManager {
        environments: vec![env("dev", vec![KeyValue::new("base", "https://d")])],
        env_sel: None,
        active_env: None,
        dirty: false,
    };
    assert_eq!(active_env_name(&m.environments, &m.active_env), "No Environment");
    m.apply(EnvAction::Activate(Some(0)));
    assert_eq!(m.active_env, Some(m.environments[0].id));
    assert_eq!(active_env_name(&m.environments, &m.active_env), "dev");
    assert_eq!(active_vars(&m.environments, &m.active_env).get("base").unwrap(), "https://d");
    m.apply(EnvAction::New);
    assert_eq!(m.environments.len(), 2);
    assert_eq!(m.environments[1].name, "Environment 2");
    assert_eq!(m.env_sel, Some(1));
    assert!(m.dirty);
    m.apply(EnvAction::DeleteSelected);
    assert_eq!(m.environments.len(), 1);
    assert!(m.active_env.is_some());
    m.apply(EnvAction::Select(0));
    m.apply(EnvAction::DeleteSelected);
    assert!(m.environments.is_empty());
    assert!(m.active_env.is_none());
    assert!(m.env_sel.is_none());
    assert!(active_vars(&m.environments, &m.active_env).get("base").is_none());
}

#[test]
fn status_colours_by_class() {
    assert_eq!(status_rgb(204), (60, 170, 90));
    assert_eq!(status_rgb(301), (80, 140, 220));
    assert_eq!(status_rgb(404), (220, 140, 40));
    assert_eq!(status_rgb(503), (220, 60, 60));
    assert_eq!(status_rgb(100), (220, 60, 60));
}

#[test]
fn json_bodies_are_indented() {
    let (text, lang) = body_view(&br#"{"a":[1,2]}"#.to_vec());
    assert_eq!(lang, "json");
    assert_eq!(text, "{\n  \"a\": [\n    1,\n    2\n  ]\n}");
    let (text, lang) = body_view(&b"plain \xff".to_vec());
    assert_eq!(lang, "txt");
    assert_eq!(text, "plain \u{FFFD}");
}
