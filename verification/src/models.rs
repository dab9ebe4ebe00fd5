//! The data model: requests, their folders and collections, environments,
//! responses and history entries, each with a view over plain values.
use vstd::prelude::*;

use crate::text::{owned, str_eq};

verus! {

#[verifier::external_type_specification]
#[verifier::external_body]
pub struct ExUuid(uuid::Uuid);

/// A fresh random identifier: calls `uuid::Uuid::new_v4`.  Nothing is
/// stated of the value, which is random.
#[verifier::external_body]
pub(crate) fn new_id() -> uuid::Uuid {
    uuid::Uuid::new_v4()
}

#[derive(Debug, Clone, Copy, PartialEq, Eq, Structural)]
pub enum HttpMethod {
    Get,
    Post,
    Put,
    Delete,
    Patch,
    Head,
    Options,
}

/// The name of a method as it is sent on the wire.
pub open spec fn method_name(m: HttpMethod) -> Seq<char> {
    match m {
        HttpMethod::Get => "GET"@,
        HttpMethod::Post => "POST"@,
        HttpMethod::Put => "PUT"@,
        HttpMethod::Delete => "DELETE"@,
        HttpMethod::Patch => "PATCH"@,
        HttpMethod::Head => "HEAD"@,
        HttpMethod::Options => "OPTIONS"@,
    }
}

/// The method whose name is `n`, if any.
pub open spec fn method_named(n: Seq<char>) -> Option<HttpMethod> {
    if n == "GET"@ {
        Some(HttpMethod::Get)
    } else if n == "POST"@ {
        Some(HttpMethod::Post)
    } else if n == "PUT"@ {
        Some(HttpMethod::Put)
    } else if n == "DELETE"@ {
        Some(HttpMethod::Delete)
    } else if n == "PATCH"@ {
        Some(HttpMethod::Patch)
    } else if n == "HEAD"@ {
        Some(HttpMethod::Head)
    } else if n == "OPTIONS"@ {
        Some(HttpMethod::Options)
    } else {
        None
    }
}

/// A method's name names that method, and no other.
pub proof fn law_method_name_roundtrip(m: HttpMethod)
    ensures
        method_named(method_name(m)) == Some(m),
{
    reveal_strlit("GET");
    reveal_strlit("POST");
    reveal_strlit("PUT");
    reveal_strlit("DELETE");
    reveal_strlit("PATCH");
    reveal_strlit("HEAD");
    reveal_strlit("OPTIONS");
    assert("GET"@.len() != "POST"@.len());
    assert("GET"@[0] != "PUT"@[0]);
    assert("GET"@.len() != "DELETE"@.len());
    assert("GET"@.len() != "PATCH"@.len());
    assert("GET"@.len() != "HEAD"@.len());
    assert("GET"@.len() != "OPTIONS"@.len());
    assert("POST"@.len() != "PUT"@.len());
    assert("POST"@.len() != "DELETE"@.len());
    assert("POST"@.len() != "PATCH"@.len());
    assert("POST"@[0] != "HEAD"@[0]);
    assert("POST"@.len() != "OPTIONS"@.len());
    assert("PUT"@.len() != "DELETE"@.len());
    assert("PUT"@.len() != "PATCH"@.len());
    assert("PUT"@.len() != "HEAD"@.len());
    assert("PUT"@.len() != "OPTIONS"@.len());
    assert("DELETE"@.len() != "PATCH"@.len());
    assert("DELETE"@.len() != "HEAD"@.len());
    assert("DELETE"@.len() != "OPTIONS"@.len());
    assert("PATCH"@.len() != "HEAD"@.len());
    assert("PATCH"@.len() != "OPTIONS"@.len());
    assert("HEAD"@.len() != "OPTIONS"@.len());
}

impl HttpMethod {
    pub const ALL: [HttpMethod; 7] = [
        HttpMethod::Get,
        HttpMethod::Post,
        HttpMethod::Put,
        HttpMethod::Delete,
        HttpMethod::Patch,
        HttpMethod::Head,
        HttpMethod::Options,
    ];

    pub fn as_str(&self) -> (s: &'static str)
        ensures
            s@ == method_name(*self),
    {
        match self {
            HttpMethod::Get => "GET",
            HttpMethod::Post => "POST",
            HttpMethod::Put => "PUT",
            HttpMethod::Delete => "DELETE",
            HttpMethod::Patch => "PATCH",
            HttpMethod::Head => "HEAD",
            HttpMethod::Options => "OPTIONS",
        }
    }
}

/// The method named `n` (exact, upper-case match).
pub fn method_from_name(n: &str) -> (r: Option<HttpMethod>)
    ensures
        r == method_named(n@),
{
    if str_eq(n, "GET") {
        Some(HttpMethod::Get)
    } else if str_eq(n, "POST") {
        Some(HttpMethod::Post)
    } else if str_eq(n, "PUT") {
        Some(HttpMethod::Put)
    } else if str_eq(n, "DELETE") {
        Some(HttpMethod::Delete)
    } else if str_eq(n, "PATCH") {
        Some(HttpMethod::Patch)
    } else if str_eq(n, "HEAD") {
        Some(HttpMethod::Head)
    } else if str_eq(n, "OPTIONS") {
        Some(HttpMethod::Options)
    } else {
        None
    }
}

/// A key/value row of a table (params, headers, form fields, variables).
#[derive(Debug, Clone, PartialEq, Eq)]
pub struct KeyValue {
    pub enabled: bool,
    pub key: String,
    pub value: String,
}

pub struct KvV {
    pub enabled: bool,
    pub key: Seq<char>,
    pub value: Seq<char>,
}

impl View for KeyValue {
    type V = KvV;

    open spec fn view(&self) -> KvV {
        KvV { enabled: self.enabled, key: self.key@, value: self.value@ }
    }
}

impl DeepView for KeyValue {
    type V = KvV;

    open spec fn deep_view(&self) -> KvV {
        self@
    }
}

/// An enabled row.
pub open spec fn kv(key: Seq<char>, value: Seq<char>) -> KvV {
    KvV { enabled: true, key, value }
}

impl KeyValue {
    pub fn new(key: &str, value: &str) -> (r: KeyValue)
        ensures
            r@ == kv(key@, value@),
    {
        KeyValue { enabled: true, key: owned(key), value: owned(value) }
    }
}

/// A copy of a row.
pub fn copy_kv(k: &KeyValue) -> (r: KeyValue)
    ensures
        r@ == k@,
{
    KeyValue { enabled: k.enabled, key: k.key.clone(), value: k.value.clone() }
}

/// A copy of a table.
pub fn copy_kvs(v: &Vec<KeyValue>) -> (r: Vec<KeyValue>)
    ensures
        r.deep_view() == v.deep_view(),
{
    let mut r: Vec<KeyValue> = Vec::new();
    let mut i: usize = 0;
    while i < v.len()
        invariant
            i <= v@.len(),
            r@.len() == i,
            forall|j: int| 0 <= j < i ==> r@[j]@ == v@[j]@,
        decreases v.len() - i,
    {
        r.push(copy_kv(&v[i]));
        i += 1;
    }
    assert(r.deep_view() =~= v.deep_view());
    r
}

#[derive(Debug, Clone, Copy, PartialEq, Eq, Structural)]
pub enum BodyType {
    NoBody,
    Json,
    Text,
    Form,
    GraphQL,
}

#[derive(Debug, Clone, PartialEq, Eq)]
pub enum Auth {
    NoAuth,
    Bearer { token: String },
    Basic { username: String, password: String },
    /// Sent in the query string when `in_query`, else as a header.
    ApiKey { key: String, value: String, in_query: bool },
}

pub enum AuthV {
    NoAuth,
    Bearer { token: Seq<char> },
    Basic { username: Seq<char>, password: Seq<char> },
    ApiKey { key: Seq<char>, value: Seq<char>, in_query: bool },
}

impl View for Auth {
    type V = AuthV;

    open spec fn view(&self) -> AuthV {
        match self {
            Auth::NoAuth => AuthV::NoAuth,
            Auth::Bearer { token } => AuthV::Bearer { token: token@ },
            Auth::Basic { username, password } => AuthV::Basic {
                username: username@,
                password: password@,
            },
            Auth::ApiKey { key, value, in_query } => AuthV::ApiKey {
                key: key@,
                value: value@,
                in_query: *in_query,
            },
        }
    }
}

/// A copy of an auth setting.
pub fn copy_auth(a: &Auth) -> (r: Auth)
    ensures
        r@ == a@,
{
    match a {
        Auth::NoAuth => Auth::NoAuth,
        Auth::Bearer { token } => Auth::Bearer { token: token.clone() },
        Auth::Basic { username, password } => Auth::Basic {
            username: username.clone(),
            password: password.clone(),
        },
        Auth::ApiKey { key, value, in_query } => Auth::ApiKey {
            key: key.clone(),
            value: value.clone(),
            in_query: *in_query,
        },
    }
}

#[derive(Debug)]
pub struct Request {
    pub id: uuid::Uuid,
    pub name: String,
    pub method: HttpMethod,
    pub url: String,
    pub params: Vec<KeyValue>,
    pub headers: Vec<KeyValue>,
    pub body_type: BodyType,
    pub body: String,
    /// The variables of a GraphQL body, as JSON text.
    pub graphql_variables: String,
    pub form: Vec<KeyValue>,
    pub auth: Auth,
    /// Pinned to the top of the sidebar.
    pub pinned: bool,
}

/// A request by its contents (its random `id` left out).
pub struct RequestV {
    pub name: Seq<char>,
    pub method: HttpMethod,
    pub url: Seq<char>,
    pub params: Seq<KvV>,
    pub headers: Seq<KvV>,
    pub body_type: BodyType,
    pub body: Seq<char>,
    pub graphql_variables: Seq<char>,
    pub form: Seq<KvV>,
    pub auth: AuthV,
    pub pinned: bool,
}

impl View for Request {
    type V = RequestV;

    open spec fn view(&self) -> RequestV {
        RequestV {
            name: self.name@,
            method: self.method,
            url: self.url@,
            params: self.params.deep_view(),
            headers: self.headers.deep_view(),
            body_type: self.body_type,
            body: self.body@,
            graphql_variables: self.graphql_variables@,
            form: self.form.deep_view(),
            auth: self.auth@,
            pinned: self.pinned,
        }
    }
}

/// A fresh request named `name`: GET, empty URL, no rows, no body, no auth.
pub open spec fn blank_request(name: Seq<char>) -> RequestV {
    RequestV {
        name,
        method: HttpMethod::Get,
        url: Seq::empty(),
        params: Seq::empty(),
        headers: Seq::empty(),
        body_type: BodyType::NoBody,
        body: Seq::empty(),
        graphql_variables: Seq::empty(),
        form: Seq::empty(),
        auth: AuthV::NoAuth,
        pinned: false,
    }
}

impl Request {
    /// A new request with a fresh random id.
    pub fn new(name: &str) -> (r: Request)
        ensures
            r@ == blank_request(name@),
    {
        let r = Request {
            id: new_id(),
            name: owned(name),
            method: HttpMethod::Get,
            url: String::new(),
            params: Vec::new(),
            headers: Vec::new(),
            body_type: BodyType::NoBody,
            body: String::new(),
            graphql_variables: String::new(),
            form: Vec::new(),
            auth: Auth::NoAuth,
            pinned: false,
        };
        assert(r.params.deep_view() =~= Seq::<KvV>::empty());
        assert(r.headers.deep_view() =~= Seq::<KvV>::empty());
        assert(r.form.deep_view() =~= Seq::<KvV>::empty());
        r
    }
}

/// A copy of a request, id included.
pub fn copy_request(r: &Request) -> (c: Request)
    ensures
        c@ == r@,
        c.id == r.id,
{
    Request {
        id: r.id,
        name: r.name.clone(),
        method: r.method,
        url: r.url.clone(),
        params: copy_kvs(&r.params),
        headers: copy_kvs(&r.headers),
        body_type: r.body_type,
        body: r.body.clone(),
        graphql_variables: r.graphql_variables.clone(),
        form: copy_kvs(&r.form),
        auth: copy_auth(&r.auth),
        pinned: r.pinned,
    }
}

#[derive(Debug)]
pub struct Folder {
    pub id: uuid::Uuid,
    pub name: String,
    pub folders: Vec<Folder>,
    pub requests: Vec<Request>,
}

impl Folder {
    /// A new empty folder with a fresh random id.
    pub fn new(name: &str) -> (r: Folder)
        ensures
            r.name@ == name@,
            r.folders@.len() == 0,
            r.requests@.len() == 0,
    {
        Folder { id: new_id(), name: owned(name), folders: Vec::new(), requests: Vec::new() }
    }
}

#[derive(Debug)]
pub struct Collection {
    pub id: uuid::Uuid,
    pub name: String,
    pub folders: Vec<Folder>,
    pub requests: Vec<Request>,
}

impl Collection {
    /// A new empty collection with a fresh random id.
    pub fn new(name: &str) -> (r: Collection)
        ensures
            r.name@ == name@,
            r.folders@.len() == 0,
            r.requests@.len() == 0,
    {
        Collection { id: new_id(), name: owned(name), folders: Vec::new(), requests: Vec::new() }
    }
}

/// The variables of an environment, by name.  Inserting a name again
/// replaces its value.
pub struct VarMap {
    entries: Vec<(String, String)>,
}

pub open spec fn entries_map(es: Seq<(String, String)>) -> Map<Seq<char>, Seq<char>>
    decreases es.len(),
{
    if es.len() == 0 {
        Map::empty()
    } else {
        entries_map(es.drop_last()).insert(es.last().0@, es.last().1@)
    }
}

impl View for VarMap {
    type V = Map<Seq<char>, Seq<char>>;

    closed spec fn view(&self) -> Map<Seq<char>, Seq<char>> {
        entries_map(self.entries@)
    }
}

impl VarMap {
    pub fn new() -> (m: VarMap)
        ensures
            m@ == Map::<Seq<char>, Seq<char>>::empty(),
    {
        VarMap { entries: Vec::new() }
    }

    pub fn insert(&mut self, key: &str, value: &str)
        ensures
            final(self)@ == old(self)@.insert(key@, value@),
    {
        let ghost es = self.entries@;
        self.entries.push((owned(key), owned(value)));
        assert(self.entries@.drop_last() == es);
    }

    pub fn contains_key(&self, key: &str) -> (r: bool)
        ensures
            r == self@.contains_key(key@),
    {
        self.get(key).is_some()
    }

    /// The value of `key`, if defined.
    pub fn get(&self, key: &str) -> (r: Option<String>)
        ensures
            match r {
                Some(v) => self@.contains_key(key@) && self@[key@] == v@,
                None => !self@.contains_key(key@),
            },
    {
        let k = owned(key);
        let mut i = self.entries.len();
        assert(self.entries@.take(i as int) =~= self.entries@);
        while i > 0
            invariant
                i <= self.entries@.len(),
                k@ == key@,
                entries_map(self.entries@).contains_key(key@) == entries_map(
                    self.entries@.take(i as int),
                ).contains_key(key@),
                entries_map(self.entries@).contains_key(key@) ==> entries_map(self.entries@)[key@]
                    == entries_map(self.entries@.take(i as int))[key@],
            decreases i,
        {
            let ghost pre = self.entries@.take(i as int);
            assert(pre.drop_last() == self.entries@.take(i - 1));
            if self.entries[i - 1].0 == k {
                return Some(self.entries[i - 1].1.clone());
            }
            i -= 1;
        }
        assert(self.entries@.take(0) =~= Seq::<(String, String)>::empty());
        None
    }
}

#[derive(Debug)]
pub struct Environment {
    pub id: uuid::Uuid,
    pub name: String,
    pub variables: Vec<KeyValue>,
}

/// The variables of an environment: its enabled rows with a non-empty
/// name, a later row winning over an earlier one of the same name.
pub open spec fn env_map(vs: Seq<KvV>) -> Map<Seq<char>, Seq<char>>
    decreases vs.len(),
{
    if vs.len() == 0 {
        Map::empty()
    } else {
        let m = env_map(vs.drop_last());
        let v = vs.last();
        if v.enabled && v.key.len() > 0 {
            m.insert(v.key, v.value)
        } else {
            m
        }
    }
}

impl Environment {
    pub fn var_map(&self) -> (m: VarMap)
        ensures
            m@ == env_map(self.variables.deep_view()),
    {
        let mut m = VarMap::new();
        let mut i: usize = 0;
        while i < self.variables.len()
            invariant
                i <= self.variables@.len(),
                m@ == env_map(self.variables.deep_view().take(i as int)),
            decreases self.variables.len() - i,
        {
            let ghost dv = self.variables.deep_view();
            assert(dv.take(i + 1).drop_last() == dv.take(i as int));
            let v = &self.variables[i];
            if v.enabled && !v.key.as_str().is_empty() {
                m.insert(v.key.as_str(), v.value.as_str());
            }
            i += 1;
        }
        assert(self.variables.deep_view().take(self.variables@.len() as int)
            == self.variables.deep_view());
        m
    }
}

#[derive(Debug, Clone)]
pub struct ResponseMeta {
    pub status: u16,
    pub headers: Vec<(String, String)>,
    pub body: Vec<u8>,
    pub duration_ms: u128,
    pub size_bytes: usize,
}

} // verus!
