//! Exporting a request as a curl command or as Python (`requests`) code.
//! The URL handed in is the final one (placeholders substituted, params
//! appended).
use vstd::prelude::*;

use crate::json::{json_compact, json_minify, json_quote, json_quoted};
use crate::models::{Auth, AuthV, BodyType, KeyValue, KvV, Request, RequestV, method_name};
use crate::text::{
    contains, occurs_at, join, join_exec, owned, push_str, replace_char, replace_char_exec, trim, trim_exec,
};

verus! {

/// Single-quoted for a POSIX shell: `'` becomes `'\''`.
pub open spec fn sh_quote(s: Seq<char>) -> Seq<char> {
    "'"@ + replace_char(s, '\'', "'\\''"@) + "'"@
}

fn sh(s: &str) -> (r: String)
    ensures
        r@ == sh_quote(s@),
{
    let mut r = owned("'");
    push_str(&mut r, replace_char_exec(s, '\'', "'\\''").as_str());
    push_str(&mut r, "'");
    r
}

/// The Rust `Debug` text of a string: a double-quoted, escaped literal,
/// used as a Python string literal.
pub uninterp spec fn debug_quoted(s: Seq<char>) -> Seq<char>;

/// `format!("{s:?}")` on a string.  The contract names the result and
/// claims nothing more.
#[verifier::external_body]
fn py(s: &str) -> (r: String)
    ensures
        r@ == debug_quoted(s@),
{
    format!("{s:?}")
}

/// The enabled rows with a non-empty key, as pairs.
pub open spec fn enabled_pairs(kvs: Seq<KvV>) -> Seq<(Seq<char>, Seq<char>)>
    decreases kvs.len(),
{
    if kvs.len() == 0 {
        seq![]
    } else {
        let r = enabled_pairs(kvs.drop_last());
        let k = kvs.last();
        if k.enabled && k.key.len() > 0 {
            r.push((k.key, k.value))
        } else {
            r
        }
    }
}

/// The headers a request is sent with: its enabled headers, then the
/// header of Bearer auth or of a header API key, then Content-Type for a
/// non-empty JSON body or a GraphQL body.
pub open spec fn effective_headers_spec(r: RequestV) -> Seq<(Seq<char>, Seq<char>)> {
    let hs = enabled_pairs(r.headers);
    let hs2 = match r.auth {
        AuthV::Bearer { token } => hs.push(("Authorization"@, "Bearer "@ + token)),
        AuthV::ApiKey { key, value, in_query } => if !in_query && key.len() > 0 {
            hs.push((key, value))
        } else {
            hs
        },
        _ => hs,
    };
    if (r.body_type == BodyType::Json && r.body.len() > 0) || r.body_type == BodyType::GraphQL {
        hs2.push(("Content-Type"@, "application/json"@))
    } else {
        hs2
    }
}

/// The enabled rows with a non-empty key, as pairs.
pub(crate) fn enabled_pairs_exec(kvs: &Vec<KeyValue>) -> (r: Vec<(String, String)>)
    ensures
        r.deep_view() == enabled_pairs(kvs.deep_view()),
{
    let mut r: Vec<(String, String)> = Vec::new();
    let mut i: usize = 0;
    while i < kvs.len()
        invariant
            i <= kvs@.len(),
            r.deep_view() == enabled_pairs(kvs.deep_view().take(i as int)),
        decreases kvs.len() - i,
    {
        let ghost dv = kvs.deep_view();
        assert(dv.take(i + 1).drop_last() == dv.take(i as int));
        let k = &kvs[i];
        if k.enabled && !k.key.as_str().is_empty() {
            let ghost before = r.deep_view();
            r.push((k.key.clone(), k.value.clone()));
            assert(r.deep_view() =~= before.push((k.key@, k.value@)));
        }
        i += 1;
    }
    assert(kvs.deep_view().take(kvs@.len() as int) == kvs.deep_view());
    r
}

fn push_pair(v: &mut Vec<(String, String)>, k: String, x: String)
    ensures
        final(v).deep_view() == old(v).deep_view().push((k@, x@)),
{
    let ghost before = v.deep_view();
    v.push((k, x));
    assert(v.deep_view() =~= before.push((k@, x@)));
}

fn effective_headers(req: &Request) -> (r: Vec<(String, String)>)
    ensures
        r.deep_view() == effective_headers_spec(req@),
{
    let mut hs = enabled_pairs_exec(&req.headers);
    match &req.auth {
        Auth::Bearer { token } => {
            let mut v = owned("Bearer ");
            push_str(&mut v, token.as_str());
            push_pair(&mut hs, owned("Authorization"), v);
        },
        Auth::ApiKey { key, value, in_query } => {
            if !*in_query && !key.as_str().is_empty() {
                push_pair(&mut hs, key.clone(), value.clone());
            }
        },
        _ => {},
    }
    if (req.body_type == BodyType::Json && !req.body.as_str().is_empty()) || req.body_type
        == BodyType::GraphQL {
        push_pair(&mut hs, owned("Content-Type"), owned("application/json"));
    }
    hs
}

pub open spec fn query_object(query: Seq<char>) -> Seq<char> {
    "{\"query\":"@ + json_quoted(query) + "}"@
}

/// The JSON payload of a GraphQL request: the query, and the variables
/// (written compactly) when there are any; an error when the variables are
/// not JSON.
pub open spec fn graphql_payload_spec(r: RequestV) -> Result<Seq<char>, Seq<char>> {
    if trim(r.graphql_variables).len() == 0 {
        Ok(query_object(r.body))
    } else {
        match json_compact(r.graphql_variables) {
            Some(v) => Ok("{\"query\":"@ + json_quoted(r.body) + ",\"variables\":"@ + v + "}"@),
            None => Err("GraphQL variables are not valid JSON"@),
        }
    }
}

impl Request {
    /// The JSON payload of a GraphQL request (see `graphql_payload_spec`).
    pub fn graphql_payload(&self) -> (r: Result<String, String>)
        ensures
            match r {
                Ok(p) => graphql_payload_spec(self@) == Ok::<Seq<char>, Seq<char>>(p@),
                Err(e) => graphql_payload_spec(self@) == Err::<Seq<char>, Seq<char>>(e@),
            },
    {
        let q = json_quote(self.body.as_str());
        if trim_exec(self.graphql_variables.as_str()).as_str().is_empty() {
            let mut p = owned("{\"query\":");
            push_str(&mut p, q.as_str());
            push_str(&mut p, "}");
            return Ok(p);
        }
        match json_minify(self.graphql_variables.as_str()) {
            Some(v) => {
                let mut p = owned("{\"query\":");
                push_str(&mut p, q.as_str());
                push_str(&mut p, ",\"variables\":");
                push_str(&mut p, v.as_str());
                push_str(&mut p, "}");
                Ok(p)
            },
            None => Err(owned("GraphQL variables are not valid JSON")),
        }
    }
}

/// The exported body of a GraphQL request: its payload, or the query alone
/// when the variables are not JSON.
pub open spec fn gql_body_spec(r: RequestV) -> Seq<char> {
    match graphql_payload_spec(r) {
        Ok(p) => p,
        Err(_) => query_object(r.body),
    }
}

fn gql_body(req: &Request) -> (r: String)
    ensures
        r@ == gql_body_spec(req@),
{
    match req.graphql_payload() {
        Ok(p) => p,
        Err(_) => {
            let mut p = owned("{\"query\":");
            push_str(&mut p, json_quote(req.body.as_str()).as_str());
            push_str(&mut p, "}");
            p
        },
    }
}

/// The body curl sends: JSON written on one line (as it is when it is not
/// JSON), a GraphQL payload, or the text.
pub open spec fn curl_body_spec(r: RequestV) -> Seq<char> {
    if r.body_type == BodyType::GraphQL {
        gql_body_spec(r)
    } else if r.body_type == BodyType::Json {
        match json_compact(r.body) {
            Some(m) => m,
            None => r.body,
        }
    } else {
        r.body
    }
}

fn curl_body(req: &Request) -> (r: String)
    ensures
        r@ == curl_body_spec(req@),
{
    if req.body_type == BodyType::GraphQL {
        return gql_body(req);
    }
    if req.body_type == BodyType::Json {
        if let Some(m) = json_minify(req.body.as_str()) {
            return m;
        }
    }
    req.body.clone()
}

/// Each pair as a curl option: `flag` and the shell-quoted `k` `sep` `v`.
pub open spec fn pair_options(
    pairs: Seq<(Seq<char>, Seq<char>)>,
    flag: Seq<char>,
    sep: Seq<char>,
) -> Seq<Seq<char>>
    decreases pairs.len(),
{
    if pairs.len() == 0 {
        seq![]
    } else {
        pair_options(pairs.drop_last(), flag, sep).push(
            flag + sh_quote(pairs.last().0 + sep + pairs.last().1),
        )
    }
}

/// The parts of a curl command, joined with a line continuation.
pub open spec fn curl_parts(r: RequestV, url: Seq<char>) -> Seq<Seq<char>> {
    let head = seq!["curl -X "@ + method_name(r.method), sh_quote(url)];
    let auth = match r.auth {
        AuthV::Basic { username, password } => seq!["-u "@ + sh_quote(username + ":"@ + password)],
        _ => seq![],
    };
    let headers = pair_options(effective_headers_spec(r), "-H "@, ": "@);
    let body = if r.body_type == BodyType::Json || r.body_type == BodyType::Text {
        if r.body.len() > 0 {
            seq!["-d "@ + sh_quote(curl_body_spec(r))]
        } else {
            seq![]
        }
    } else if r.body_type == BodyType::GraphQL {
        seq!["-d "@ + sh_quote(curl_body_spec(r))]
    } else if r.body_type == BodyType::Form {
        pair_options(enabled_pairs(r.form), "--data-urlencode "@, "="@)
    } else {
        seq![]
    };
    head + auth + headers + body
}

pub open spec fn curl_command(r: RequestV, url: Seq<char>) -> Seq<char> {
    join(curl_parts(r, url), " \\\n  "@)
}

fn push_part(parts: &mut Vec<String>, p: String)
    ensures
        final(parts).deep_view() == old(parts).deep_view().push(p@),
{
    let ghost before = parts.deep_view();
    parts.push(p);
    assert(parts.deep_view() =~= before.push(p@));
}

/// Appends the curl option for each pair.
fn push_pair_options(
    parts: &mut Vec<String>,
    pairs: &Vec<(String, String)>,
    flag: &str,
    sep: &str,
)
    ensures
        final(parts).deep_view() == old(parts).deep_view() + pair_options(
            pairs.deep_view(),
            flag@,
            sep@,
        ),
{
    let ghost start = parts.deep_view();
    let mut i: usize = 0;
    while i < pairs.len()
        invariant
            i <= pairs@.len(),
            parts.deep_view() == start + pair_options(pairs.deep_view().take(i as int), flag@, sep@),
        decreases pairs.len() - i,
    {
        let ghost dv = pairs.deep_view();
        assert(dv.take(i + 1).drop_last() == dv.take(i as int));
        let mut kv = pairs[i].0.clone();
        push_str(&mut kv, sep);
        push_str(&mut kv, pairs[i].1.as_str());
        let mut p = owned(flag);
        push_str(&mut p, sh(kv.as_str()).as_str());
        push_part(parts, p);
        i += 1;
    }
    assert(pairs.deep_view().take(pairs@.len() as int) == pairs.deep_view());
}

/// The request as a curl command for the final `url`.
pub fn to_curl(req: &Request, url: &str) -> (r: String)
    ensures
        r@ == curl_command(req@, url@),
{
    let mut parts: Vec<String> = Vec::new();
    let mut first = owned("curl -X ");
    push_str(&mut first, req.method.as_str());
    push_part(&mut parts, first);
    push_part(&mut parts, sh(url));
    let ghost p0 = parts.deep_view();
    if let Auth::Basic { username, password } = &req.auth {
        let mut up = username.clone();
        push_str(&mut up, ":");
        push_str(&mut up, password.as_str());
        let mut p = owned("-u ");
        push_str(&mut p, sh(up.as_str()).as_str());
        push_part(&mut parts, p);
    }
    let ghost p1 = parts.deep_view();
    let hs = effective_headers(req);
    push_pair_options(&mut parts, &hs, "-H ", ": ");
    let ghost p2 = parts.deep_view();
    match req.body_type {
        BodyType::Json | BodyType::Text => {
            if !req.body.as_str().is_empty() {
                let mut p = owned("-d ");
                push_str(&mut p, sh(curl_body(req).as_str()).as_str());
                push_part(&mut parts, p);
            }
        },
        BodyType::GraphQL => {
            let mut p = owned("-d ");
            push_str(&mut p, sh(curl_body(req).as_str()).as_str());
            push_part(&mut parts, p);
        },
        BodyType::Form => {
            let rows = enabled_pairs_exec(&req.form);
            push_pair_options(&mut parts, &rows, "--data-urlencode ", "=");
        },
        BodyType::NoBody => {},
    }
    assert(parts.deep_view() =~= curl_parts(req@, url@));
    join_exec(&parts, " \\\n  ")
}

/// Each pair as a line of a Python dict: `"k": "v",`.
pub open spec fn dict_lines(pairs: Seq<(Seq<char>, Seq<char>)>) -> Seq<char>
    decreases pairs.len(),
{
    if pairs.len() == 0 {
        seq![]
    } else {
        dict_lines(pairs.drop_last()) + "        "@ + debug_quoted(pairs.last().0) + ": "@
            + debug_quoted(pairs.last().1) + ",\n"@
    }
}

pub open spec fn py_head(r: RequestV, url: Seq<char>) -> Seq<char> {
    "import requests\n\n"@ + "response = requests.request(\n"@ + "    "@ + debug_quoted(
        method_name(r.method),
    ) + ",\n    "@ + debug_quoted(url) + ",\n"@
}

pub open spec fn py_headers(hs: Seq<(Seq<char>, Seq<char>)>) -> Seq<char> {
    if hs.len() > 0 {
        "    headers={\n"@ + dict_lines(hs) + "    },\n"@
    } else {
        seq![]
    }
}

pub open spec fn py_auth(a: AuthV) -> Seq<char> {
    match a {
        AuthV::Basic { username, password } => "    auth=("@ + debug_quoted(username) + ", "@
            + debug_quoted(password) + "),\n"@,
        _ => seq![],
    }
}

pub open spec fn py_body(r: RequestV) -> Seq<char> {
    if r.body_type == BodyType::Json || r.body_type == BodyType::Text {
        if r.body.len() > 0 {
            "    data="@ + debug_quoted(r.body) + ",\n"@
        } else {
            seq![]
        }
    } else if r.body_type == BodyType::GraphQL {
        "    data="@ + debug_quoted(gql_body_spec(r)) + ",\n"@
    } else if r.body_type == BodyType::Form {
        "    data={\n"@ + dict_lines(enabled_pairs(r.form)) + "    },\n"@
    } else {
        seq![]
    }
}

/// The request as Python code using `requests`, for the final `url`.
pub open spec fn python_code(r: RequestV, url: Seq<char>) -> Seq<char> {
    py_head(r, url) + py_headers(effective_headers_spec(r)) + py_auth(r.auth) + py_body(r)
        + ")\n\nprint(response.status_code)\nprint(response.text)\n"@
}

/// Python code for Basic auth passes `requests` the pair (username,
/// password), in that order, each as a quoted string.
pub proof fn law_python_basic_auth_order(r: RequestV, url: Seq<char>, u: Seq<char>, p: Seq<char>)
    requires
        r.auth == (AuthV::Basic { username: u, password: p }),
    ensures
        contains(
            python_code(r, url),
            "    auth=("@ + debug_quoted(u) + ", "@ + debug_quoted(p) + "),\n"@,
        ),
{
    let code = python_code(r, url);
    let needle = "    auth=("@ + debug_quoted(u) + ", "@ + debug_quoted(p) + "),\n"@;
    let a = py_head(r, url) + py_headers(effective_headers_spec(r));
    let rest = py_body(r) + ")\n\nprint(response.status_code)\nprint(response.text)\n"@;
    assert(code =~= a + needle + rest);
    assert(code.subrange(a.len() as int, (a.len() + needle.len()) as int) =~= needle);
    assert(occurs_at(code, needle, a.len() as int));
}

/// Appends a dict line for each pair.
fn push_dict_lines(s: &mut String, pairs: &Vec<(String, String)>)
    ensures
        final(s)@ == old(s)@ + dict_lines(pairs.deep_view()),
{
    let ghost start = s@;
    let mut i: usize = 0;
    while i < pairs.len()
        invariant
            i <= pairs@.len(),
            s@ == start + dict_lines(pairs.deep_view().take(i as int)),
        decreases pairs.len() - i,
    {
        let ghost dv = pairs.deep_view();
        assert(dv.take(i + 1).drop_last() == dv.take(i as int));
        push_str(s, "        ");
        push_str(s, py(pairs[i].0.as_str()).as_str());
        push_str(s, ": ");
        push_str(s, py(pairs[i].1.as_str()).as_str());
        push_str(s, ",\n");
        i += 1;
    }
    assert(pairs.deep_view().take(pairs@.len() as int) == pairs.deep_view());
}

fn push_py_head(s: &mut String, req: &Request, url: &str)
    ensures
        final(s)@ == old(s)@ + py_head(req@, url@),
{
    push_str(s, "import requests\n\n");
    push_str(s, "response = requests.request(\n");
    push_str(s, "    ");
    push_str(s, py(req.method.as_str()).as_str());
    push_str(s, ",\n    ");
    push_str(s, py(url).as_str());
    push_str(s, ",\n");
}

fn push_py_headers(s: &mut String, hs: &Vec<(String, String)>)
    ensures
        final(s)@ == old(s)@ + py_headers(hs.deep_view()),
{
    if hs.len() > 0 {
        push_str(s, "    headers={\n");
        push_dict_lines(s, hs);
        push_str(s, "    },\n");
    }
}

fn push_py_auth(s: &mut String, a: &Auth)
    ensures
        final(s)@ == old(s)@ + py_auth(a@),
{
    if let Auth::Basic { username, password } = a {
        push_str(s, "    auth=(");
        push_str(s, py(username.as_str()).as_str());
        push_str(s, ", ");
        push_str(s, py(password.as_str()).as_str());
        push_str(s, "),\n");
    }
}

fn push_py_body(s: &mut String, req: &Request)
    ensures
        final(s)@ == old(s)@ + py_body(req@),
{
    match req.body_type {
        BodyType::Json | BodyType::Text => {
            if !req.body.as_str().is_empty() {
                push_str(s, "    data=");
                push_str(s, py(req.body.as_str()).as_str());
                push_str(s, ",\n");
            }
        },
        BodyType::GraphQL => {
            push_str(s, "    data=");
            push_str(s, py(gql_body(req).as_str()).as_str());
            push_str(s, ",\n");
        },
        BodyType::Form => {
            push_str(s, "    data={\n");
            let rows = enabled_pairs_exec(&req.form);
            push_dict_lines(s, &rows);
            push_str(s, "    },\n");
        },
        BodyType::NoBody => {},
    }
}

/// The request as Python code using `requests`, for the final `url`.
pub fn to_python(req: &Request, url: &str) -> (r: String)
    ensures
        r@ == python_code(req@, url@),
{
    let mut s = String::new();
    push_py_head(&mut s, req, url);
    let hs = effective_headers(req);
    push_py_headers(&mut s, &hs);
    push_py_auth(&mut s, &req.auth);
    push_py_body(&mut s, req);
    push_str(&mut s, ")\n\nprint(response.status_code)\nprint(response.text)\n");
    s
}

} // verus!
