//! What the front end asks of the back end, apart from the I/O: the
//! variables of the active environment, the undefined names of a request,
//! exported code, curl import, the classification of imported files and
//! the response as the front end receives it.
use vstd::prelude::*;

use crate::export::{curl_command, python_code, to_curl, to_python};
use crate::http::{build_url, build_url_spec};
use crate::import::{curl_import, from_curl};
use crate::json::{Json, json_document, parse_json_bytes};
use crate::models::{Collection, Environment, Request, RequestV, ResponseMeta, VarMap, env_map};
use crate::postman::{is_collection, is_environment, to_collection, to_environment};
use crate::text::{owned, push_str, str_eq};
use crate::vars::{missing_across, request_substituted, request_texts, substitute_request};

verus! {

/// The variables of the active environment; none without one.
pub open spec fn env_vars_spec(env: Option<Environment>) -> Map<Seq<char>, Seq<char>> {
    match env {
        Some(e) => env_map(e.variables.deep_view()),
        None => Map::empty(),
    }
}

pub fn env_vars(env: &Option<Environment>) -> (m: VarMap)
    ensures
        m@ == env_vars_spec(*env),
{
    match env {
        Some(e) => e.var_map(),
        None => VarMap::new(),
    }
}

/// The names a request uses that the environment does not define.
pub fn missing_vars(request: Request, env: Option<Environment>) -> (r: Vec<String>)
    ensures
        r.deep_view() == missing_across(request_texts(request@), env_vars_spec(env)),
{
    let vars = env_vars(&env);
    substitute_request(&request, &vars).1
}

/// The URL exported code is given: the final URL, or the request's URL
/// when that does not parse.
pub open spec fn export_url(r: RequestV) -> Seq<char> {
    match build_url_spec(r) {
        Some(u) => u,
        None => r.url,
    }
}

/// Code for a request: Python for `python`, curl otherwise.
pub open spec fn code_for(kind: Seq<char>, r: RequestV) -> Seq<char> {
    if kind == "python"@ {
        python_code(r, export_url(r))
    } else {
        curl_command(r, export_url(r))
    }
}

/// Exports a request as code (`python`, else curl) after substituting the
/// environment's variables.
pub fn export_code(request: Request, env: Option<Environment>, kind: String) -> (r: String)
    ensures
        exists|s: RequestV|
            request_substituted(request@, env_vars_spec(env), s) && r@ == #[trigger] code_for(
                kind@,
                s,
            ),
{
    let vars = env_vars(&env);
    let (req, _) = substitute_request(&request, &vars);
    let url = match build_url(&req) {
        Ok(u) => u,
        Err(_) => req.url.clone(),
    };
    let code = if str_eq(kind.as_str(), "python") {
        to_python(&req, url.as_str())
    } else {
        to_curl(&req, url.as_str())
    };
    assert(code@ == code_for(kind@, req@));
    code
}

pub fn import_curl(text: String) -> (r: Result<Request, String>)
    ensures
        match r {
            Ok(req) => curl_import(text@) == Ok::<RequestV, Seq<char>>(req@),
            Err(e) => curl_import(text@) == Err::<RequestV, Seq<char>>(e@),
        },
{
    from_curl(text.as_str())
}

/// The request to send and its time limit in seconds (at least one).
pub fn prepare_send(request: &Request, env: &Option<Environment>, timeout_secs: u64) -> (r: (
    Request,
    u64,
))
    ensures
        request_substituted(request@, env_vars_spec(*env), r.0@),
        r.0.id == request.id,
        r.1 == if timeout_secs < 1 {
            1
        } else {
            timeout_secs
        },
{
    let vars = env_vars(env);
    let (req, _) = substitute_request(request, &vars);
    let t = if timeout_secs < 1 {
        1
    } else {
        timeout_secs
    };
    (req, t)
}

/// What an imported file holds.
pub struct Imported {
    pub collection: Option<Collection>,
    pub environment: Option<Environment>,
}

/// How an imported JSON document is read.
pub enum ImportPlan {
    /// A Firebee export: its `collection` member is a collection as stored.
    Native,
    /// A Postman collection or environment, converted.
    Converted(Imported),
}

pub open spec fn unrecognised_message() -> Seq<char> {
    "Unrecognised file — expected a Firebee export, a Postman collection (v2.x) or a Postman environment"@
}

/// What an imported document is read as: a Firebee export (it has
/// `firebee`), else a Postman collection, else a Postman environment;
/// anything else is an error.
pub open spec fn import_outcome(v: Json, r: Result<ImportPlan, String>) -> bool {
    match r {
        Ok(ImportPlan::Native) => crate::json::json_get(v, "firebee"@) is Some,
        Ok(ImportPlan::Converted(i)) => crate::json::json_get(v, "firebee"@) is None && (
        if crate::postman::pm_is_collection(v) {
            &&& i.environment is None
            &&& i.collection matches Some(c) && c.name@ == crate::postman::pm_collection_name(v)
                && crate::postman::walked(
                crate::postman::pm_items(v),
                crate::postman::pm_root_auth(v),
                c.folders@,
                c.requests@,
            )
        } else {
            &&& crate::postman::pm_is_environment(v)
            &&& i.collection is None
            &&& i.environment matches Some(e) && e.name@ == crate::postman::pm_environment_name(v)
                && e.variables.deep_view() == crate::postman::pm_env_vars(v)
        }),
        Err(e) => crate::json::json_get(v, "firebee"@) is None && !crate::postman::pm_is_collection(v)
            && !crate::postman::pm_is_environment(v) && e@ == unrecognised_message(),
    }
}

/// Classifies an imported document (see `import_outcome`).
pub fn import_document(v: &Json) -> (r: Result<ImportPlan, String>)
    ensures
        import_outcome(*v, r),
{
    if v.get("firebee").is_some() {
        return Ok(ImportPlan::Native);
    }
    if is_collection(v) {
        return Ok(
            ImportPlan::Converted(Imported { collection: Some(to_collection(v)), environment: None }),
        );
    }
    if is_environment(v) {
        return Ok(
            ImportPlan::Converted(Imported { collection: None, environment: Some(to_environment(v)) }),
        );
    }
    Err(
        owned(
            "Unrecognised file — expected a Firebee export, a Postman collection (v2.x) or a Postman environment",
        ),
    )
}

/// Imports the bytes of a file: bytes that are not JSON are refused with
/// the parser's message; a JSON document is classified (see
/// `import_outcome`).
pub fn import_bytes(bytes: &[u8]) -> (r: Result<ImportPlan, String>)
    ensures
        match json_document(bytes@) {
            Err(m) => r matches Err(e) && e@ == "Not valid JSON: "@ + m,
            Ok(v) => import_outcome(v, r),
        },
{
    match parse_json_bytes(bytes) {
        Err(m) => {
            let mut e = owned("Not valid JSON: ");
            push_str(&mut e, m.as_str());
            Err(e)
        },
        Ok(v) => import_document(&v),
    }
}

/// The text of a response body, invalid UTF-8 replaced.
pub uninterp spec fn utf8_lossy(bytes: Seq<u8>) -> Seq<char>;

/// `String::from_utf8_lossy`.  Claims, as its documentation says, that
/// valid UTF-8 is decoded unchanged; otherwise only names the result.
#[verifier::external_body]
pub(crate) fn lossy_text(b: &Vec<u8>) -> (r: String)
    ensures
        r@ == utf8_lossy(b@),
        vstd::utf8::valid_utf8(b@) ==> r@ == vstd::utf8::decode_utf8(b@),
{
    String::from_utf8_lossy(b).into_owned()
}

/// A response as the front end receives it: the body as text.
pub struct ResponseDto {
    pub status: u16,
    pub headers: Vec<(String, String)>,
    pub body: String,
    pub duration_ms: u128,
    pub size_bytes: usize,
}

impl ResponseDto {
    pub fn from_meta(r: ResponseMeta) -> (d: ResponseDto)
        ensures
            d.status == r.status,
            d.headers == r.headers,
            d.body@ == utf8_lossy(r.body@),
            d.duration_ms == r.duration_ms,
            d.size_bytes == r.size_bytes,
    {
        let body = lossy_text(&r.body);
        ResponseDto {
            status: r.status,
            headers: r.headers,
            body,
            duration_ms: r.duration_ms,
            size_bytes: r.size_bytes,
        }
    }
}

} // verus!
