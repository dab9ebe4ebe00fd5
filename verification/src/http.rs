//! What an HTTP request is sent as: the final URL, the headers, the auth and
//! the body; and the errors a send can end in.  The sending itself is I/O.
use vstd::prelude::*;

use crate::export::{enabled_pairs, graphql_payload_spec};
use crate::models::{Auth, AuthV, BodyType, KeyValue, Request, RequestV, method_name};
use crate::text::{owned, push_str};
use crate::url::{append_query_pairs, split_url, url_parts, url_with_pairs};

verus! {

/// The default time a request may take, in seconds.
pub const DEFAULT_TIMEOUT_SECS: u64 = 30;

/// A time limit: whole seconds and the nanoseconds beyond them (fewer than
/// a second), as a `Duration` holds it.
#[derive(Debug, Clone, Copy, PartialEq, Eq)]
pub struct TimeLimit {
    secs: u64,
    nanos: u32,
}

impl TimeLimit {
    #[verifier::type_invariant]
    spec fn within_second(self) -> bool {
        self.nanos < 1_000_000_000
    }

    pub closed spec fn secs_spec(self) -> u64 {
        self.secs
    }

    pub closed spec fn nanos_spec(self) -> u32 {
        self.nanos
    }

    /// The limit of `secs` seconds and `nanos` nanoseconds; none when
    /// `nanos` is a second or more.
    pub fn new(secs: u64, nanos: u32) -> (r: Option<TimeLimit>)
        ensures
            match r {
                Some(t) => nanos < 1_000_000_000 && t.secs_spec() == secs && t.nanos_spec() == nanos,
                None => nanos >= 1_000_000_000,
            },
    {
        if nanos < 1_000_000_000 {
            Some(TimeLimit { secs, nanos })
        } else {
            None
        }
    }

    pub fn secs(&self) -> (r: u64)
        ensures
            r == self.secs_spec(),
    {
        self.secs
    }

    pub fn nanos(&self) -> (r: u32)
        ensures
            r == self.nanos_spec(),
            r < 1_000_000_000,
    {
        proof {
            use_type_invariant(self);
        }
        self.nanos
    }
}

#[derive(Debug)]
pub enum HttpError {
    /// The time limit that the send ran out of.
    Timeout(TimeLimit),
    Cancelled,
    InvalidUrl(String),
    /// The body cannot be built (GraphQL variables that are not JSON).
    InvalidBody(String),
    Network(String),
}

/// The `Debug` text of a `Duration` of `secs` seconds and `nanos`
/// nanoseconds (such as `30s` or `100ms`).
pub uninterp spec fn duration_debug(secs: u64, nanos: u32) -> Seq<char>;

/// `format!("{:?}", Duration::new(secs, nanos))` (which cannot panic, the
/// nanoseconds being under a second).  The contract names the text, which
/// depends on the two numbers alone.
#[verifier::external_body]
fn duration_text(secs: u64, nanos: u32) -> (s: String)
    requires
        nanos < 1_000_000_000,
    ensures
        s@ == duration_debug(secs, nanos),
{
    format!("{:?}", std::time::Duration::new(secs, nanos))
}

/// Whether `t` is the message shown for `e`: a fixed text and what the
/// error carries (for a timeout, the duration's text).
pub open spec fn is_message(e: HttpError, t: Seq<char>) -> bool {
    match e {
        HttpError::Timeout(l) => t == "Request timed out ("@ + duration_debug(
            l.secs_spec(),
            l.nanos_spec(),
        ) + ")"@,
        HttpError::Cancelled => t == "Request cancelled"@,
        HttpError::InvalidUrl(u) => t == "Invalid URL: "@ + u@,
        HttpError::InvalidBody(b) => t == "Invalid body: "@ + b@,
        HttpError::Network(n) => t == "Network error: "@ + n@,
    }
}

impl HttpError {
    /// The message shown for the error.
    pub fn message(&self) -> (r: String)
        ensures
            is_message(*self, r@),
    {
        match self {
            HttpError::Timeout(l) => {
                let mut r = owned("Request timed out (");
                let t = duration_text(l.secs(), l.nanos());
                push_str(&mut r, t.as_str());
                push_str(&mut r, ")");
                assert(r@ == "Request timed out ("@ + t@ + ")"@);
                r
            },
            HttpError::Cancelled => owned("Request cancelled"),
            HttpError::InvalidUrl(u) => {
                let mut r = owned("Invalid URL: ");
                push_str(&mut r, u.as_str());
                r
            },
            HttpError::InvalidBody(b) => {
                let mut r = owned("Invalid body: ");
                push_str(&mut r, b.as_str());
                r
            },
            HttpError::Network(n) => {
                let mut r = owned("Network error: ");
                push_str(&mut r, n.as_str());
                r
            },
        }
    }
}

/// The pairs appended to the query: the enabled params with a non-empty
/// key, then a query API key.
pub open spec fn query_pairs_spec(r: RequestV) -> Seq<(Seq<char>, Seq<char>)> {
    let ps = enabled_pairs(r.params);
    match r.auth {
        AuthV::ApiKey { key, value, in_query } => if in_query && key.len() > 0 {
            ps.push((key, value))
        } else {
            ps
        },
        _ => ps,
    }
}

/// The final URL: the request's URL with the query pairs appended, without
/// a `?` left over when the query stays empty.  None when the URL does not
/// parse.
pub open spec fn build_url_spec(r: RequestV) -> Option<Seq<char>> {
    match url_with_pairs(r.url, query_pairs_spec(r)) {
        None => None,
        Some((u, q)) => if q == Some(Seq::<char>::empty()) {
            match url_parts(u) {
                Ok((base, _, _)) => Some(base),
                Err(_) => None,
            }
        } else {
            Some(u)
        },
    }
}

/// Whether the auth is an API key sent in the query, with a name.
pub open spec fn is_query_key(a: AuthV) -> bool {
    a matches AuthV::ApiKey { key, in_query, .. } && in_query && key.len() > 0
}

/// Only an API key sent in the query changes the URL: for any other auth
/// (Bearer, Basic, none, or an API key sent as a header) the final URL is
/// the one the request would have without auth, its query being the enabled
/// params alone; a query API key is appended, once, after them.
pub proof fn law_only_query_api_key_reaches_url(r: RequestV)
    ensures
        !is_query_key(r.auth) ==> query_pairs_spec(r) == enabled_pairs(r.params)
            && build_url_spec(r) == build_url_spec(RequestV { auth: AuthV::NoAuth, ..r }),
        is_query_key(r.auth) ==> query_pairs_spec(r).len() == enabled_pairs(r.params).len() + 1
            && query_pairs_spec(r).drop_last() == enabled_pairs(r.params) && query_pairs_spec(
            r,
        ).last() == (r.auth->ApiKey_key, r.auth->ApiKey_value),
{
    if is_query_key(r.auth) {
        assert(query_pairs_spec(r).drop_last() =~= enabled_pairs(r.params));
    }
}

fn query_pairs(req: &Request) -> (r: Vec<(String, String)>)
    ensures
        r.deep_view() == query_pairs_spec(req@),
{
    let mut ps = crate::export::enabled_pairs_exec(&req.params);
    if let Auth::ApiKey { key, value, in_query } = &req.auth {
        if *in_query && !key.as_str().is_empty() {
            let ghost before = ps.deep_view();
            ps.push((key.clone(), value.clone()));
            assert(ps.deep_view() =~= before.push((key@, value@)));
        }
    }
    ps
}

/// The final URL of a request (see `build_url_spec`); a URL that does not
/// parse is `InvalidUrl` with the request's URL.
pub fn build_url(req: &Request) -> (r: Result<String, HttpError>)
    ensures
        match r {
            Ok(u) => build_url_spec(req@) == Some(u@),
            Err(e) => build_url_spec(req@) is None && (e matches HttpError::InvalidUrl(u) && u@
                == req.url@),
        },
{
    let pairs = query_pairs(req);
    match append_query_pairs(req.url.as_str(), &pairs) {
        None => Err(HttpError::InvalidUrl(req.url.clone())),
        Some((u, q)) => {
            let empty_query = match &q {
                Some(q) => q.as_str().is_empty(),
                None => false,
            };
            proof {
                if let Some(qq) = q {
                    if qq@.len() == 0 {
                        assert(qq@ =~= Seq::<char>::empty());
                    }
                }
            }
            if empty_query {
                match split_url(u.as_str()) {
                    Ok((base, _, _)) => Ok(base),
                    Err(_) => Err(HttpError::InvalidUrl(req.url.clone())),
                }
            } else {
                Ok(u)
            }
        },
    }
}

/// The body a request is sent with.
pub enum PlanBody {
    NoBody,
    /// A JSON body, sent with `Content-Type: application/json`.
    Json(String),
    Text(String),
    /// Form fields, sent form-urlencoded.
    Form(Vec<(String, String)>),
}

/// What a request is sent as.
pub struct HttpPlan {
    pub method: String,
    pub url: String,
    pub headers: Vec<(String, String)>,
    pub bearer: Option<String>,
    pub basic: Option<(String, String)>,
    pub body: PlanBody,
}

/// The headers a request is sent with before auth and body: its enabled
/// headers with a non-empty name, then a header API key.
pub open spec fn plan_headers(r: RequestV) -> Seq<(Seq<char>, Seq<char>)> {
    let hs = enabled_pairs(r.headers);
    match r.auth {
        AuthV::ApiKey { key, value, in_query } => if !in_query && key.len() > 0 {
            hs.push((key, value))
        } else {
            hs
        },
        _ => hs,
    }
}

/// Plans the send of a request: the final URL, the method's name, the
/// headers, Bearer or Basic auth, and the body (JSON as JSON, non-empty
/// text, enabled form fields, a GraphQL payload as JSON).
pub fn plan_request(req: &Request) -> (r: Result<HttpPlan, HttpError>)
    ensures
        match r {
            Ok(p) => {
                &&& build_url_spec(req@) == Some(p.url@)
                &&& p.method@ == method_name(req.method)
                &&& p.headers.deep_view() == plan_headers(req@)
                &&& match req@.auth {
                    AuthV::Bearer { token } => p.bearer matches Some(t) && t@ == token,
                    _ => p.bearer is None,
                }
                &&& match req@.auth {
                    AuthV::Basic { username, password } => p.basic matches Some((u, w)) && u@
                        == username && w@ == password,
                    _ => p.basic is None,
                }
                &&& match req.body_type {
                    BodyType::Json => p.body matches PlanBody::Json(b) && b@ == req.body@,
                    BodyType::GraphQL => p.body matches PlanBody::Json(b)
                        && graphql_payload_spec(req@) == Ok::<Seq<char>, Seq<char>>(b@),
                    BodyType::Text => if req.body@.len() > 0 {
                        p.body matches PlanBody::Text(b) && b@ == req.body@
                    } else {
                        p.body is NoBody
                    },
                    BodyType::Form => p.body matches PlanBody::Form(f) && f.deep_view()
                        == enabled_pairs(req@.form),
                    BodyType::NoBody => p.body is NoBody,
                }
            },
            Err(e) => match e {
                HttpError::InvalidUrl(u) => build_url_spec(req@) is None && u@ == req.url@,
                HttpError::InvalidBody(m) => build_url_spec(req@) is Some
                    && req.body_type == BodyType::GraphQL && graphql_payload_spec(req@)
                    == Err::<Seq<char>, Seq<char>>(m@),
                _ => false,
            },
        },
{
    let url = build_url(req)?;
    let mut headers = crate::export::enabled_pairs_exec(&req.headers);
    let mut bearer: Option<String> = None;
    let mut basic: Option<(String, String)> = None;
    match &req.auth {
        Auth::Bearer { token } => bearer = Some(token.clone()),
        Auth::Basic { username, password } => basic = Some((username.clone(), password.clone())),
        Auth::ApiKey { key, value, in_query } => {
            if !*in_query && !key.as_str().is_empty() {
                let ghost before = headers.deep_view();
                headers.push((key.clone(), value.clone()));
                assert(headers.deep_view() =~= before.push((key@, value@)));
            }
        },
        Auth::NoAuth => {},
    }
    let body = match req.body_type {
        BodyType::Json => PlanBody::Json(req.body.clone()),
        BodyType::GraphQL => match req.graphql_payload() {
            Ok(p) => PlanBody::Json(p),
            Err(m) => return Err(HttpError::InvalidBody(m)),
        },
        BodyType::Text => if req.body.as_str().is_empty() {
            PlanBody::NoBody
        } else {
            PlanBody::Text(req.body.clone())
        },
        BodyType::Form => PlanBody::Form(crate::export::enabled_pairs_exec(&req.form)),
        BodyType::NoBody => PlanBody::NoBody,
    };
    Ok(HttpPlan { method: owned(req.method.as_str()), url, headers, bearer, basic, body })
}

/// The error a failed send ends in: a timeout is `Timeout` with the time
/// limit, a failure to
/// connect is a `Network` error that says so, anything else a `Network`
/// error with the client's message.
pub fn classify_error(
    is_timeout: bool,
    is_connect: bool,
    text: String,
    timeout: TimeLimit,
) -> (r: HttpError)
    ensures
        is_timeout ==> r == HttpError::Timeout(timeout),
        !is_timeout && is_connect ==> (r matches HttpError::Network(m) && m@
            == "Cannot connect to server (connection refused or DNS failure)"@),
        !is_timeout && !is_connect ==> (r matches HttpError::Network(m) && m@ == text@),
{
    if is_timeout {
        HttpError::Timeout(timeout)
    } else if is_connect {
        HttpError::Network(owned("Cannot connect to server (connection refused or DNS failure)"))
    } else {
        HttpError::Network(text)
    }
}

} // verus!
