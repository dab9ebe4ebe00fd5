//! Importing a Postman collection (v2.x) or environment.  Only the fields
//! this client supports are carried over; the rest is dropped.
use vstd::prelude::*;

use crate::import::without_header;
use crate::json::{
    Json, array_of, bool_of, deref_json, field, field_of, json_compact, json_get, json_minify,
    lemma_get_smaller, str_of, text_of, text_value,
};
use crate::models::{
    Auth, AuthV, BodyType, Collection, Environment, Folder, HttpMethod, KeyValue, KvV, Request,
    RequestV, blank_request, copy_auth, method_from_name, method_named,
};
use crate::text::{
    chars_of, find_char, find_char_from, lemma_find_char_bounds, owned, push_range, str_eq, upper,
    upper_exec,
};

verus! {

/// A row of a Postman list `{key, value, disabled}`.
pub open spec fn pm_row(x: Json) -> KvV {
    KvV {
        enabled: !(bool_of(json_get(x, "disabled"@)) == Some(true)),
        key: text_value(json_get(x, "key"@)),
        value: text_value(json_get(x, "value"@)),
    }
}

/// The rows of the items that have a `key`.
pub open spec fn pm_rows(items: Seq<Json>) -> Seq<KvV>
    decreases items.len(),
{
    if items.len() == 0 {
        seq![]
    } else {
        let r = pm_rows(items.drop_last());
        if json_get(items.last(), "key"@) is Some {
            r.push(pm_row(items.last()))
        } else {
            r
        }
    }
}

/// The rows of a Postman list; none when the value is not an array.
pub open spec fn pm_kvs(v: Option<Json>) -> Seq<KvV> {
    match array_of(v) {
        Some(items) => pm_rows(items),
        None => seq![],
    }
}

fn kvs(v: Option<&Json>) -> (r: Vec<KeyValue>)
    ensures
        r.deep_view() == pm_kvs(deref_json(v)),
{
    let mut r: Vec<KeyValue> = Vec::new();
    let items = match v {
        Some(j) => match j.as_array() {
            Some(items) => items,
            None => {
                assert(r.deep_view() =~= Seq::<KvV>::empty());
                return r;
            },
        },
        None => {
            assert(r.deep_view() =~= Seq::<KvV>::empty());
            return r;
        },
    };
    let mut i: usize = 0;
    assert(r.deep_view() =~= pm_rows(items@.take(0)));
    while i < items.len()
        invariant
            i <= items@.len(),
            r.deep_view() == pm_rows(items@.take(i as int)),
        decreases items.len() - i,
    {
        assert(items@.take(i + 1).drop_last() == items@.take(i as int));
        assert(items@.take(i + 1).last() == items@[i as int]);
        let x = &items[i];
        if x.get("key").is_some() {
            let enabled = !(match field_of(Some(x), "disabled") {
                Some(d) => d.as_bool(),
                None => None,
            } == Some(true));
            let key = text_of(x.get("key"));
            let value = text_of(x.get("value"));
            let ghost before = r.deep_view();
            r.push(KeyValue { enabled, key, value });
            assert(r.deep_view() =~= before.push(pm_row(items@[i as int])));
        }
        i += 1;
    }
    assert(items@.take(items@.len() as int) == items@);
    r
}

/// The position of the first item whose `key` is the string `k`.
pub open spec fn first_with_key(items: Seq<Json>, k: Seq<char>, i: int) -> Option<int>
    decreases items.len() - i,
{
    if i < 0 || i >= items.len() {
        None
    } else if str_of(json_get(items[i], "key"@)) == Some(k) {
        Some(i)
    } else {
        first_with_key(items, k, i + 1)
    }
}

/// The `value` of the parameter `k` of a Postman auth object of type
/// `kind`; empty when there is none.
pub open spec fn pm_param(v: Json, kind: Seq<char>, k: Seq<char>) -> Seq<char> {
    match array_of(json_get(v, kind)) {
        Some(items) => match first_with_key(items, k, 0) {
            Some(i) => text_value(json_get(items[i], "value"@)),
            None => seq![],
        },
        None => seq![],
    }
}

/// A Postman auth object `{type, <type>: [{key, value}]}`: bearer, basic
/// and apikey are read, another type is no auth; none without a string
/// `type`.
pub open spec fn pm_auth(v: Option<Json>) -> Option<AuthV> {
    match v {
        None => None,
        Some(v) => match str_of(json_get(v, "type"@)) {
            None => None,
            Some(kind) => Some(
                if kind == "bearer"@ {
                    AuthV::Bearer { token: pm_param(v, kind, "token"@) }
                } else if kind == "basic"@ {
                    AuthV::Basic {
                        username: pm_param(v, kind, "username"@),
                        password: pm_param(v, kind, "password"@),
                    }
                } else if kind == "apikey"@ {
                    AuthV::ApiKey {
                        key: pm_param(v, kind, "key"@),
                        value: pm_param(v, kind, "value"@),
                        in_query: pm_param(v, kind, "in"@) == "query"@,
                    }
                } else {
                    AuthV::NoAuth
                },
            ),
        },
    }
}

fn param(v: &Json, kind: &str, k: &str) -> (r: String)
    ensures
        r@ == pm_param(*v, kind@, k@),
{
    let items = match field_of(Some(v), kind) {
        Some(a) => match a.as_array() {
            Some(items) => items,
            None => return String::new(),
        },
        None => return String::new(),
    };
    let mut i: usize = 0;
    while i < items.len()
        invariant
            i <= items@.len(),
            array_of(json_get(*v, kind@)) == Some(items@),
            first_with_key(items@, k@, 0) == first_with_key(items@, k@, i as int),
        decreases items.len() - i,
    {
        let found = match items[i].get("key") {
            Some(key) => match key.as_str() {
                Some(s) => str_eq(s.as_str(), k),
                None => false,
            },
            None => false,
        };
        if found {
            return text_of(items[i].get("value"));
        }
        i += 1;
    }
    String::new()
}

fn auth(v: Option<&Json>) -> (r: Option<Auth>)
    ensures
        match r {
            Some(a) => pm_auth(deref_json(v)) == Some(a@),
            None => pm_auth(deref_json(v)) is None,
        },
{
    let v = match v {
        Some(v) => v,
        None => return None,
    };
    let kind = match v.get("type") {
        Some(t) => match t.as_str() {
            Some(k) => k,
            None => return None,
        },
        None => return None,
    };
    let k = kind.as_str();
    if str_eq(k, "bearer") {
        Some(Auth::Bearer { token: param(v, k, "token") })
    } else if str_eq(k, "basic") {
        Some(Auth::Basic { username: param(v, k, "username"), password: param(v, k, "password") })
    } else if str_eq(k, "apikey") {
        let key = param(v, k, "key");
        let value = param(v, k, "value");
        let in_query = str_eq(param(v, k, "in").as_str(), "query");
        Some(Auth::ApiKey { key, value, in_query })
    } else {
        Some(Auth::NoAuth)
    }
}

/// `s` up to its first `c` (all of it without one).
pub open spec fn before_char(s: Seq<char>, c: char) -> Seq<char> {
    match find_char_from(s, 0, c) {
        Some(i) => s.take(i),
        None => s,
    }
}

/// The raw text of a Postman body.
pub open spec fn pm_raw_text(body: Json) -> Seq<char> {
    text_value(json_get(body, "raw"@))
}

/// The body of a Postman request applied to `base`: raw (JSON when its
/// language is json or `raw_parses`, the raw text being JSON; then without
/// a Content-Type header; else text), graphql (POST, without a Content-Type
/// header), urlencoded and formdata (text fields only) as a form.
pub open spec fn pm_apply_body(base: RequestV, body: Json, raw_parses: bool) -> RequestV {
    let mode = text_value(json_get(body, "mode"@));
    if mode == "raw"@ {
        let text = pm_raw_text(body);
        let lang = text_value(field(field(json_get(body, "options"@), "raw"@), "language"@));
        let is_json = lang == "json"@ || raw_parses;
        RequestV {
            body: text,
            body_type: if is_json {
                BodyType::Json
            } else {
                BodyType::Text
            },
            headers: if is_json {
                without_header(base.headers, "content-type"@)
            } else {
                base.headers
            },
            ..base
        }
    } else if mode == "graphql"@ {
        RequestV {
            body_type: BodyType::GraphQL,
            method: HttpMethod::Post,
            headers: without_header(base.headers, "content-type"@),
            body: text_value(field(json_get(body, "graphql"@), "query"@)),
            graphql_variables: text_value(field(json_get(body, "graphql"@), "variables"@)),
            ..base
        }
    } else if mode == "urlencoded"@ {
        RequestV { body_type: BodyType::Form, form: pm_kvs(json_get(body, "urlencoded"@)), ..base }
    } else if mode == "formdata"@ {
        RequestV { body_type: BodyType::Form, form: pm_kvs(json_get(body, "formdata"@)), ..base }
    } else {
        base
    }
}

/// A Postman request item, `inherited` being the auth of its folders.
pub open spec fn pm_request(item: Json, inherited: AuthV) -> RequestV {
    let name = text_value(json_get(item, "name"@));
    let r = json_get(item, "request"@);
    match r {
        Some(Json::Str(url)) => RequestV { url: url@, ..blank_request(name) },
        _ => {
            let method = match method_named(upper(text_value(field(r, "method"@)))) {
                Some(m) => m,
                None => HttpMethod::Get,
            };
            let u = field(r, "url"@);
            let url = match u {
                Some(Json::Str(s)) => s@,
                Some(Json::Object(_)) => before_char(text_value(field(u, "raw"@)), '?'),
                _ => seq![],
            };
            let params = match u {
                Some(Json::Object(_)) => pm_kvs(field(u, "query"@)),
                _ => seq![],
            };
            let auth = match pm_auth(field(r, "auth"@)) {
                Some(a) => a,
                None => inherited,
            };
            let base = RequestV {
                method,
                url,
                params,
                headers: pm_kvs(field(r, "header"@)),
                auth,
                ..blank_request(name)
            };
            match field(r, "body"@) {
                Some(body) => pm_apply_body(base, body, json_compact(pm_raw_text(body)) is Some),
                None => base,
            }
        },
    }
}

/// A Postman request whose body has mode `formdata` imports with a form
/// body whose rows are the rows of the `formdata` list (and likewise
/// `urlencoded` with its list); the other parts of the request stay as
/// the request gives them.
pub proof fn law_postman_form_bodies(item: Json, inherited: AuthV, b: Json)
    requires
        !(json_get(item, "request"@) matches Some(Json::Str(_))),
        field(json_get(item, "request"@), "body"@) == Some(b),
        text_value(json_get(b, "mode"@)) == "formdata"@ || text_value(json_get(b, "mode"@))
            == "urlencoded"@,
    ensures
        pm_request(item, inherited).body_type == BodyType::Form,
        pm_request(item, inherited).form == pm_kvs(
            json_get(b, text_value(json_get(b, "mode"@))),
        ),
        pm_request(item, inherited).body == Seq::<char>::empty(),
        pm_request(item, inherited).headers == pm_kvs(field(json_get(item, "request"@), "header"@)),
{
    reveal_strlit("raw");
    reveal_strlit("graphql");
    reveal_strlit("urlencoded");
    reveal_strlit("formdata");
    assert("raw"@.len() != "formdata"@.len() && "raw"@.len() != "urlencoded"@.len());
    assert("graphql"@.len() != "formdata"@.len() && "graphql"@[0] != "urlencoded"@[0]);
    assert("formdata"@.len() != "urlencoded"@.len());
}

fn text_before_question(s: &str) -> (r: String)
    ensures
        r@ == before_char(s@, '?'),
{
    let v = chars_of(s);
    let end = match find_char(v.as_slice(), 0, '?') {
        Some(i) => {
            proof {
                lemma_find_char_bounds(v@, 0, '?');
            }
            i
        },
        None => v.len(),
    };
    let mut r = String::new();
    push_range(&mut r, v.as_slice(), 0, end);
    assert(v@.subrange(0, v@.len() as int) == v@);
    r
}

/// Applies the body of a Postman request (see `pm_apply_body`);
/// `raw_parses` tells whether the raw text is JSON.
pub fn apply_body(req: &mut Request, body: &Json, raw_parses: bool)
    ensures
        final(req)@ == pm_apply_body(old(req)@, *body, raw_parses),
        final(req).id == old(req).id,
{
    let mode = text_of(body.get("mode"));
    if str_eq(mode.as_str(), "raw") {
        let text = text_of(body.get("raw"));
        let lang = text_of(field_of(field_of(body.get("options"), "raw"), "language"));
        let is_json = str_eq(lang.as_str(), "json") || raw_parses;
        if is_json {
            req.body_type = BodyType::Json;
            let mut hs: Vec<KeyValue> = Vec::new();
            std::mem::swap(&mut hs, &mut req.headers);
            req.headers = crate::import::without_header_exec(hs, "content-type");
        } else {
            req.body_type = BodyType::Text;
        }
        req.body = text;
    } else if str_eq(mode.as_str(), "graphql") {
        req.body_type = BodyType::GraphQL;
        req.method = HttpMethod::Post;
        let mut hs: Vec<KeyValue> = Vec::new();
            std::mem::swap(&mut hs, &mut req.headers);
        req.headers = crate::import::without_header_exec(hs, "content-type");
        let g = body.get("graphql");
        req.body = text_of(field_of(g, "query"));
        req.graphql_variables = text_of(field_of(g, "variables"));
    } else if str_eq(mode.as_str(), "urlencoded") {
        req.body_type = BodyType::Form;
        req.form = kvs(body.get("urlencoded"));
    } else if str_eq(mode.as_str(), "formdata") {
        req.body_type = BodyType::Form;
        req.form = kvs(body.get("formdata"));
    }
}

fn request(item: &Json, inherited: &Auth) -> (r: Request)
    ensures
        r@ == pm_request(*item, inherited@),
{
    let name = text_of(item.get("name"));
    let mut req = Request::new(name.as_str());
    let r = item.get("request");
    if let Some(Json::Str(url)) = r {
        req.url = url.clone();
        return req;
    }
    let m = upper_exec(text_of(field_of(r, "method")).as_str());
    req.method = match method_from_name(m.as_str()) {
        Some(x) => x,
        None => HttpMethod::Get,
    };
    let u = field_of(r, "url");
    match u {
        Some(Json::Str(s)) => req.url = s.clone(),
        Some(Json::Object(_)) => {
            req.url = text_before_question(text_of(field_of(u, "raw")).as_str());
            req.params = kvs(field_of(u, "query"));
        },
        _ => {},
    }
    req.headers = kvs(field_of(r, "header"));
    req.auth = match auth(field_of(r, "auth")) {
        Some(a) => a,
        None => copy_auth(inherited),
    };
    if let Some(body) = field_of(r, "body") {
        let raw_parses = json_minify(text_of(body.get("raw")).as_str()).is_some();
        apply_body(&mut req, body, raw_parses);
    }
    req
}

/// An item that holds an `item` array is a folder.
pub open spec fn is_folder_item(it: Json) -> bool {
    array_of(json_get(it, "item"@)) is Some
}

/// The items of a folder item.
pub open spec fn folder_items(it: Json) -> Seq<Json> {
    array_of(json_get(it, "item"@))->0
}

/// The auth a folder passes down: its own, else what it inherits.
pub open spec fn folder_auth(it: Json, inherited: AuthV) -> AuthV {
    match pm_auth(json_get(it, "auth"@)) {
        Some(a) => a,
        None => inherited,
    }
}

pub proof fn lemma_folder_items_smaller(it: Json)
    requires
        is_folder_item(it),
    ensures
        decreases_to!(it => folder_items(it)),
{
    lemma_get_smaller(it, "item"@);
    let v = json_get(it, "item"@)->0;
    let items = v->Array_0;
    assert(decreases_to!(v => items));
    assert(decreases_to!(items => items@));
}

/// `fs` and `rs` are the folders and requests that the items make, in
/// order: a folder item makes a folder, an item with a `request` a request,
/// any other item nothing.
pub open spec fn walked(items: Seq<Json>, inherited: AuthV, fs: Seq<Folder>, rs: Seq<Request>) -> bool
    decreases items,
{
    if items.len() == 0 {
        fs.len() == 0 && rs.len() == 0
    } else {
        let it = items[items.len() - 1];
        let rest = items.subrange(0, items.len() - 1);
        if is_folder_item(it) {
            &&& fs.len() > 0
            &&& walked(rest, inherited, fs.subrange(0, fs.len() - 1), rs)
            &&& folder_made(fs[fs.len() - 1], it, inherited)
        } else if json_get(it, "request"@) is Some {
            &&& rs.len() > 0
            &&& walked(rest, inherited, fs, rs.subrange(0, rs.len() - 1))
            &&& rs[rs.len() - 1]@ == pm_request(it, inherited)
        } else {
            walked(rest, inherited, fs, rs)
        }
    }
}

/// `f` is the folder that the folder item `it` makes.
pub open spec fn folder_made(f: Folder, it: Json, inherited: AuthV) -> bool
    decreases it,
{
    if is_folder_item(it) {
        proof {
            lemma_folder_items_smaller(it);
        }
        &&& f.name@ == text_value(json_get(it, "name"@))
        &&& walked(folder_items(it), folder_auth(it, inherited), f.folders@, f.requests@)
    } else {
        false
    }
}

proof fn lemma_walked_step(
    items: Seq<Json>,
    n: int,
    inherited: AuthV,
    fs: Seq<Folder>,
    rs: Seq<Request>,
)
    requires
        0 < n <= items.len(),
    ensures
        walked(items.take(n), inherited, fs, rs) == ({
            let it = items[n - 1];
            let rest = items.take(n - 1);
            if is_folder_item(it) {
                &&& fs.len() > 0
                &&& walked(rest, inherited, fs.subrange(0, fs.len() - 1), rs)
                &&& folder_made(fs[fs.len() - 1], it, inherited)
            } else if json_get(it, "request"@) is Some {
                &&& rs.len() > 0
                &&& walked(rest, inherited, fs, rs.subrange(0, rs.len() - 1))
                &&& rs[rs.len() - 1]@ == pm_request(it, inherited)
            } else {
                walked(rest, inherited, fs, rs)
            }
        }),
{
    assert(items.take(n).subrange(0, n - 1) == items.take(n - 1));
    assert(items.take(n)[n - 1] == items[n - 1]);
}

/// The folders and requests of a list of Postman items.
fn walk(items: &Vec<Json>, inherited: &Auth) -> (r: (Vec<Folder>, Vec<Request>))
    ensures
        walked(items@, inherited@, r.0@, r.1@),
    decreases items@,
{
    let mut folders: Vec<Folder> = Vec::new();
    let mut requests: Vec<Request> = Vec::new();
    let mut i: usize = 0;
    assert(items@.take(0) =~= Seq::<Json>::empty());
    while i < items.len()
        invariant
            i <= items@.len(),
            walked(items@.take(i as int), inherited@, folders@, requests@),
        decreases items.len() - i,
    {
        let it = &items[i];
        proof {
            lemma_walked_step(items@, i + 1, inherited@, folders@, requests@);
        }
        match it.get("item") {
            Some(children) => match children.as_array() {
                Some(children) => {
                    let mut f = Folder::new(text_of(it.get("name")).as_str());
                    let a = match auth(it.get("auth")) {
                        Some(a) => a,
                        None => copy_auth(inherited),
                    };
                    proof {
                        lemma_folder_items_smaller(*it);
                        assert(decreases_to!(items@ => items@[i as int]));
                    }
                    let (fs, rs) = walk(children, &a);
                    f.folders = fs;
                    f.requests = rs;
                    let ghost before = folders@;
                    folders.push(f);
                    proof {
                        lemma_walked_step(items@, i + 1, inherited@, folders@, requests@);
                        assert(folders@.subrange(0, folders@.len() - 1) == before);
                    }
                },
                None => {
                    if it.get("request").is_some() {
                        let ghost before = requests@;
                        requests.push(request(it, inherited));
                        proof {
                            lemma_walked_step(items@, i + 1, inherited@, folders@, requests@);
                            assert(requests@.subrange(0, requests@.len() - 1) == before);
                        }
                    }
                },
            },
            None => {
                if it.get("request").is_some() {
                    let ghost before = requests@;
                    requests.push(request(it, inherited));
                    proof {
                        lemma_walked_step(items@, i + 1, inherited@, folders@, requests@);
                        assert(requests@.subrange(0, requests@.len() - 1) == before);
                    }
                }
            },
        }
        i += 1;
    }
    assert(items@.take(items@.len() as int) == items@);
    (folders, requests)
}

/// A Postman collection has `info` and `item`.
pub open spec fn pm_is_collection(v: Json) -> bool {
    json_get(v, "info"@) is Some && json_get(v, "item"@) is Some
}

/// A Postman environment has a `values` array and no `item`.
pub open spec fn pm_is_environment(v: Json) -> bool {
    array_of(json_get(v, "values"@)) is Some && json_get(v, "item"@) is None
}

pub fn is_collection(v: &Json) -> (r: bool)
    ensures
        r == pm_is_collection(*v),
{
    v.get("info").is_some() && v.get("item").is_some()
}

pub fn is_environment(v: &Json) -> (r: bool)
    ensures
        r == pm_is_environment(*v),
{
    let has_values = match v.get("values") {
        Some(x) => x.as_array().is_some(),
        None => false,
    };
    has_values && v.get("item").is_none()
}

/// The name of an imported collection: `info.name`, or a default when
/// empty.
pub open spec fn pm_collection_name(v: Json) -> Seq<char> {
    let n = text_value(field(json_get(v, "info"@), "name"@));
    if n.len() == 0 {
        "Imported collection"@
    } else {
        n
    }
}

/// The items of a collection; none when `item` is not an array.
pub open spec fn pm_items(v: Json) -> Seq<Json> {
    match array_of(json_get(v, "item"@)) {
        Some(items) => items,
        None => seq![],
    }
}

/// The auth of a collection, inherited by its requests.
pub open spec fn pm_root_auth(v: Json) -> AuthV {
    match pm_auth(json_get(v, "auth"@)) {
        Some(a) => a,
        None => AuthV::NoAuth,
    }
}

/// Converts a Postman collection: its name, and its folder tree with the
/// collection's and the folders' auth inherited by requests without their
/// own.
pub fn to_collection(v: &Json) -> (c: Collection)
    ensures
        c.name@ == pm_collection_name(*v),
        walked(pm_items(*v), pm_root_auth(*v), c.folders@, c.requests@),
{
    let n = text_of(field_of(v.get("info"), "name"));
    let name = if n.as_str().is_empty() {
        owned("Imported collection")
    } else {
        n
    };
    let mut col = Collection::new(name.as_str());
    let root = match auth(v.get("auth")) {
        Some(a) => a,
        None => Auth::NoAuth,
    };
    let empty: Vec<Json> = Vec::new();
    let items = match v.get("item") {
        Some(x) => match x.as_array() {
            Some(items) => items,
            None => &empty,
        },
        None => &empty,
    };
    assert(items@ == pm_items(*v));
    let (fs, rs) = walk(items, &root);
    col.folders = fs;
    col.requests = rs;
    col
}

/// A variable of a Postman environment `{key, value, enabled}`.
pub open spec fn pm_var(x: Json) -> KvV {
    KvV {
        enabled: match bool_of(json_get(x, "enabled"@)) {
            Some(b) => b,
            None => true,
        },
        key: text_value(json_get(x, "key"@)),
        value: text_value(json_get(x, "value"@)),
    }
}

/// The name of an imported environment: `name`, or a default when empty.
pub open spec fn pm_environment_name(v: Json) -> Seq<char> {
    let n = text_value(json_get(v, "name"@));
    if n.len() == 0 {
        "Imported environment"@
    } else {
        n
    }
}

/// The variables of a Postman environment; none without a `values` array.
pub open spec fn pm_env_vars(v: Json) -> Seq<KvV> {
    match array_of(json_get(v, "values"@)) {
        Some(items) => items.map_values(|x: Json| pm_var(x)),
        None => Seq::<KvV>::empty(),
    }
}

/// Converts a Postman environment: its name and its variables.
pub fn to_environment(v: &Json) -> (e: Environment)
    ensures
        e.name@ == pm_environment_name(*v),
        e.variables.deep_view() == pm_env_vars(*v),
{
    let n = text_of(v.get("name"));
    let name = if n.as_str().is_empty() {
        owned("Imported environment")
    } else {
        n
    };
    let mut variables: Vec<KeyValue> = Vec::new();
    match v.get("values") {
        Some(x) => match x.as_array() {
            Some(items) => {
                let mut i: usize = 0;
                while i < items.len()
                    invariant
                        i <= items@.len(),
                        variables@.len() == i,
                        forall|t: int|
                            0 <= t < i ==> #[trigger] variables@[t]@ == pm_var(items@[t]),
                    decreases items.len() - i,
                {
                    let it = &items[i];
                    let enabled = match it.get("enabled") {
                        Some(b) => match b.as_bool() {
                            Some(b) => b,
                            None => true,
                        },
                        None => true,
                    };
                    variables.push(
                        KeyValue { enabled, key: text_of(it.get("key")), value: text_of(it.get("value")) },
                    );
                    i += 1;
                }
                assert(variables.deep_view() =~= items@.map_values(|x: Json| pm_var(x)));
            },
            None => {
                assert(variables.deep_view() =~= Seq::<KvV>::empty());
            },
        },
        None => {
            assert(variables.deep_view() =~= Seq::<KvV>::empty());
        },
    }
    Environment { id: crate::models::new_id(), name, variables }
}

} // verus!
