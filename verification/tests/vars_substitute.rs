use firebee::models::{Auth, KeyValue, Request, VarMap};
use firebee::vars::{substitute, substitute_request};

fn vars() -> VarMap {
    let mut m = VarMap::new();
    m.insert("base_url", "https://api.dev");
    m.insert("token", "abc");
    m
}

#[test]
fn substitutes_known_vars() {
    let r = substitute("{{base_url}}/users/{{uid}}", &vars());
    assert_eq!(r.output, "https://api.dev/users/{{uid}}");
    assert_eq!(r.missing, vec!["uid".to_string()]);
}

#[test]
fn dynamic_vars_generate_fresh_values() {
    let r = substitute(
        "{{$uuid}}/{{$uuid}}/{{$timestamp}}/{{$randomInt}}/{{$nope}}",
        &VarMap::new(),
    );
    assert_eq!(r.missing, vec!["$nope".to_string()]);
    let parts: Vec<&str> = r.output.split('/').collect();
    assert_ne!(parts[0], parts[1]);
    assert_eq!(parts[0].len(), 36);
    assert!(parts[2].parse::<i64>().unwrap() > 1_700_000_000);
    assert!(parts[3].parse::<u32>().unwrap() <= 1000);
    assert_eq!(parts[4], "{{$nope}}");
    let mut vars = VarMap::new();
    vars.insert("$uuid", "fixed");
    assert_eq!(substitute("{{$uuid}}", &vars).output, "fixed");
}

#[test]
fn no_closing_brace_left_as_is() {
    let r = substitute("{{base_url", &vars());
    assert_eq!(r.output, "{{base_url");
    assert!(r.missing.is_empty());
}

#[test]
fn missing_deduplicated_and_kept_in_output() {
    let r = substitute("{{a}}/{{a}}/{{ b }}", &vars());
    assert_eq!(r.output, "{{a}}/{{a}}/{{b}}");
    assert_eq!(r.missing, vec!["a".to_string(), "b".to_string()]);
}

#[test]
fn substitute_request_covers_all_fields() {
    let mut req = Request::new("t");
    req.url = "{{base_url}}/login".into();
    req.headers = vec![KeyValue::new("X-Env", "{{mode}}")];
    req.body = "{\"t\":\"{{token}}\"}".into();
    req.auth = Auth::Bearer { token: "{{token}}".into() };
    let (out, missing) = substitute_request(&req, &vars());
    assert_eq!(out.url, "https://api.dev/login");
    assert_eq!(out.headers[0].value, "{{mode}}");
    assert_eq!(out.body, "{\"t\":\"abc\"}");
    assert_eq!(out.auth, Auth::Bearer { token: "abc".into() });
    assert_eq!(missing, vec!["mode".to_string()]);
    assert_eq!(req.url, "{{base_url}}/login");
}

#[test]
fn dynamic_values_have_their_forms() {
    let r = substitute("{{$uuid}} {{$isoTimestamp}}", &VarMap::new());
    let parts: Vec<&str> = r.output.split(' ').collect();
    let u = parts[0].as_bytes();
    assert_eq!(u.len(), 36);
    for (i, c) in u.iter().enumerate() {
        if i == 8 || i == 13 || i == 18 || i == 23 {
            assert_eq!(*c, b'-');
        } else {
            assert!(c.is_ascii_digit() || (b'a'..=b'f').contains(c));
        }
    }
    let t = parts[1].as_bytes();
    assert_eq!(t.len(), 20);
    assert_eq!((t[4], t[7], t[10], t[13], t[16], t[19]), (b'-', b'-', b'T', b':', b':', b'Z'));
}
