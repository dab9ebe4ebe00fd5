use firebee::commands::{ImportPlan, import_bytes, import_document};
use firebee::json::Json;
use firebee::models::{Auth, BodyType, HttpMethod};
use firebee::postman::{is_collection, is_environment, to_collection, to_environment};

/// A parsed JSON document as the library holds it.
fn to_json(v: &serde_json::Value) -> Json {
    match v {
        serde_json::Value::Null => Json::Null,
        serde_json::Value::Bool(b) => Json::Bool(*b),
        serde_json::Value::Number(n) => Json::Number(n.to_string()),
        serde_json::Value::String(s) => Json::Str(s.clone()),
        serde_json::Value::Array(a) => Json::Array(a.iter().map(to_json).collect()),
        serde_json::Value::Object(m) => {
            Json::Object(m.iter().map(|(k, x)| (k.clone(), to_json(x))).collect())
        }
    }
}

fn parse(text: &str) -> Json {
    to_json(&serde_json::from_str::<serde_json::Value>(text).unwrap())
}

const SAMPLE: &str = r##"{
  "info": {"name": "Shop API", "schema": "https://schema.getpostman.com/json/collection/v2.1.0/collection.json"},
  "auth": {"type": "bearer", "bearer": [{"key": "token", "value": "{{token}}"}]},
  "item": [
    {"name": "Users", "item": [
      {"name": "Get user", "request": {"method": "GET",
        "url": {"raw": "{{base}}/users/1?expand=1&x=2", "query": [{"key": "expand", "value": "1"}, {"key": "x", "value": "2", "disabled": true}]},
        "header": [{"key": "X-Trace", "value": "abc"}]}}
    ]},
    {"name": "Login", "request": {"method": "POST", "url": "{{base}}/login",
      "auth": {"type": "basic", "basic": [{"key": "username", "value": "u"}, {"key": "password", "value": "p"}]},
      "header": [{"key": "Content-Type", "value": "application/json"}],
      "body": {"mode": "raw", "raw": "{\"u\":\"a\"}", "options": {"raw": {"language": "json"}}}}},
    {"name": "Form", "request": {"method": "PUT", "url": "{{base}}/f",
      "body": {"mode": "urlencoded", "urlencoded": [{"key": "a", "value": "1"}, {"key": "b", "value": "2", "disabled": true}]}}}
  ]
}"##;

#[test]
fn converts_tree_auth_query_and_bodies() {
    let v = parse(SAMPLE);
    assert!(is_collection(&v));
    let c = to_collection(&v);
    assert_eq!(c.name, "Shop API");
    assert_eq!(c.folders.len(), 1);
    let get = &c.folders[0].requests[0];
    assert_eq!(get.method, HttpMethod::Get);
    assert_eq!(get.url, "{{base}}/users/1");
    assert_eq!(get.params.len(), 2);
    assert!(!get.params[1].enabled);
    assert_eq!(
        get.auth,
        Auth::Bearer {
            token: "{{token}}".into()
        }
    );
    assert_eq!(get.headers[0].key, "X-Trace");

    let login = &c.requests[0];
    assert_eq!(login.method, HttpMethod::Post);
    assert_eq!(login.body_type, BodyType::Json);
    assert_eq!(login.body, r#"{"u":"a"}"#);
    assert!(login.headers.is_empty());
    assert_eq!(
        login.auth,
        Auth::Basic {
            username: "u".into(),
            password: "p".into()
        }
    );

    let form = &c.requests[1];
    assert_eq!(form.body_type, BodyType::Form);
    assert_eq!(form.form.len(), 2);
    assert!(!form.form[1].enabled);
}

#[test]
fn converts_environment() {
    let v = parse(
        r#"{"name":"dev","values":[{"key":"base","value":"https://d","enabled":true},{"key":"off","value":"x","enabled":false}]}"#,
    );
    assert!(is_environment(&v));
    let e = to_environment(&v);
    assert_eq!(e.name, "dev");
    assert_eq!(e.variables.len(), 2);
    assert!(!e.variables[1].enabled);
}

#[test]
fn unnamed_collection_and_environment_get_default_names() {
    let c = to_collection(&parse(r#"{"info": {}, "item": []}"#));
    assert_eq!(c.name, "Imported collection");
    assert!(c.folders.is_empty() && c.requests.is_empty());
    let e = to_environment(&parse(r#"{"values": [{"key": "k", "value": 5}]}"#));
    assert_eq!(e.name, "Imported environment");
    assert_eq!(e.variables[0].value, "5");
    assert!(e.variables[0].enabled);
}

#[test]
fn folder_auth_is_inherited_and_graphql_becomes_post() {
    let v = parse(
        r#"{"info": {"name": "G"}, "item": [
          {"name": "F", "auth": {"type": "apikey", "apikey": [{"key": "key", "value": "K"}, {"key": "value", "value": "V"}, {"key": "in", "value": "query"}]},
           "item": [
            {"name": "Q", "request": {"method": "get", "url": "https://g/ql",
              "header": [{"key": "content-type", "value": "x"}, {"key": "A", "value": "1"}],
              "body": {"mode": "graphql", "graphql": {"query": "{ me }", "variables": "{}"}}}},
            {"name": "S", "request": "https://plain"}
          ]}
        ]}"#,
    );
    let c = to_collection(&v);
    let f = &c.folders[0];
    assert_eq!(f.name, "F");
    let q = &f.requests[0];
    assert_eq!(q.method, HttpMethod::Post);
    assert_eq!(q.body_type, BodyType::GraphQL);
    assert_eq!(q.body, "{ me }");
    assert_eq!(q.graphql_variables, "{}");
    assert_eq!(q.headers.len(), 1);
    assert_eq!(q.headers[0].key, "A");
    assert_eq!(
        q.auth,
        Auth::ApiKey {
            key: "K".into(),
            value: "V".into(),
            in_query: true
        }
    );
    let s = &f.requests[1];
    assert_eq!(s.url, "https://plain");
    assert_eq!(s.method, HttpMethod::Get);
}

#[test]
fn raw_body_that_parses_is_json_else_text() {
    let v = parse(
        r#"{"info": {"name": "B"}, "item": [
          {"name": "J", "request": {"method": "POST", "url": "u", "body": {"mode": "raw", "raw": "[1, 2]"}}},
          {"name": "T", "request": {"method": "POST", "url": "u", "body": {"mode": "raw", "raw": "hi there"}}}
        ]}"#,
    );
    let c = to_collection(&v);
    assert_eq!(c.requests[0].body_type, BodyType::Json);
    assert_eq!(c.requests[1].body_type, BodyType::Text);
    assert_eq!(c.requests[1].body, "hi there");
}

#[test]
fn import_document_classifies_files() {
    assert!(matches!(
        import_document(&parse(r#"{"firebee": 1, "collection": {}}"#)),
        Ok(ImportPlan::Native)
    ));
    match import_document(&parse(SAMPLE)) {
        Ok(ImportPlan::Converted(i)) => {
            assert_eq!(i.collection.unwrap().name, "Shop API");
            assert!(i.environment.is_none());
        }
        _ => panic!("expected a collection"),
    }
    match import_document(&parse(r#"{"name": "e", "values": []}"#)) {
        Ok(ImportPlan::Converted(i)) => {
            assert!(i.collection.is_none());
            assert_eq!(i.environment.unwrap().name, "e");
        }
        _ => panic!("expected an environment"),
    }
    match import_document(&parse(r#"{"something": "else"}"#)) {
        Err(e) => assert!(e.starts_with("Unrecognised file")),
        _ => panic!("expected an error"),
    }
}

#[test]
fn strings_are_written_with_json_escapes() {
    let j = Json::Array(vec![Json::Str("a\"\\\n\t\u{1}é".into()), Json::Number("1".into()), Json::Null]);
    assert_eq!(j.to_text(), "[\"a\\\"\\\\\\n\\t\\u0001é\",1,null]");
}

#[test]
fn imported_bytes_are_parsed_then_classified() {
    assert!(matches!(import_bytes(br#"{"firebee": 1}"#), Ok(ImportPlan::Native)));
    let e = import_bytes(b"{broken").err().unwrap();
    assert!(e.starts_with("Not valid JSON: "), "{e}");
    match import_bytes(br#"{"name": "e", "values": [{"key": "k", "value": 1.5}]}"#) {
        Ok(ImportPlan::Converted(i)) => assert_eq!(i.environment.unwrap().variables[0].value, "1.5"),
        _ => panic!("expected an environment"),
    }
}
