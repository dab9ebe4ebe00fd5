use firebee::models::{Environment, HttpMethod, KeyValue};

#[test]
fn method_as_str_roundtrip() {
    assert_eq!(HttpMethod::Get.as_str(), "GET");
    assert_eq!(HttpMethod::Patch.as_str(), "PATCH");
    assert_eq!(HttpMethod::ALL.len(), 7);
}

#[test]
fn environment_var_map_filters() {
    let env = Environment {
        id: uuid::Uuid::new_v4(),
        name: "dev".into(),
        variables: vec![
            KeyValue::new("base_url", "https://dev.api.com"),
            KeyValue { enabled: false, key: "skip".into(), value: "x".into() },
            KeyValue::new("", "no-key"),
        ],
    };
    let map = env.var_map();
    assert_eq!(map.get("base_url").unwrap(), "https://dev.api.com");
    assert!(!map.contains_key("skip"));
    assert!(!map.contains_key(""));
}
