//! The state that the user interface keeps beside the data, the export
//! dialog's text, and reading the collection tree by path.
use vstd::prelude::*;

use crate::commands::export_url;
use crate::export::{curl_command, python_code, to_curl, to_python};
use crate::editor::{EnvManager, active_vars, active_vars_spec};
use crate::http::{DEFAULT_TIMEOUT_SECS, HttpError, build_url, is_message};
use crate::models::{Environment, Request, RequestV, ResponseMeta, VarMap, blank_request};
use crate::storage::{HISTORY_LIMIT, history_start_spec};
use crate::text::str_eq;
use crate::vars::{
    law_request_substitution_unique, missing_across, request_no_dynamic, request_substituted,
    request_texts, substitute_request,
};
use crate::worker::Job;

verus! {

pub enum SidebarTab {
    Collections,
    History,
}

#[derive(PartialEq, Eq, Clone, Copy, Debug, Structural)]
pub enum ReqTab {
    Params,
    Headers,
    Body,
    Auth,
}

#[derive(PartialEq, Eq, Clone, Copy, Debug, Structural)]
pub enum RespTab {
    Body,
    Headers,
}

/// The languages of the export dialog.
pub enum Kind {
    Curl,
    Python,
}

/// Code of a kind for a request and its export URL.
pub open spec fn kind_code(kind: Kind, s: RequestV) -> Seq<char> {
    match kind {
        Kind::Curl => curl_command(s, export_url(s)),
        Kind::Python => python_code(s, export_url(s)),
    }
}

/// The export dialog's text: the current request with the environment's
/// variables substituted, as curl or Python code for its final URL.
pub fn render(current: &Request, vars: &VarMap, kind: Kind) -> (r: String)
    ensures
        exists|s: RequestV|
            request_substituted(current@, vars@, s) && r@ == #[trigger] kind_code(kind, s),
{
    let (req, _) = substitute_request(current, vars);
    let url = match build_url(&req) {
        Ok(u) => u,
        Err(_) => req.url.clone(),
    };
    let code = match kind {
        Kind::Curl => to_curl(&req, url.as_str()),
        Kind::Python => to_python(&req, url.as_str()),
    };
    assert(code@ == kind_code(kind, req@));
    code
}

/// Without undefined dynamic variables, the export dialog's text is the
/// code for the one substituted request: whatever request `s` the current
/// one substitutes to, `render` gives `kind_code(kind, s)`.
pub proof fn law_render_is_export_of_substituted(
    current: RequestV,
    vars: Map<Seq<char>, Seq<char>>,
    kind: Kind,
    text: Seq<char>,
    s: RequestV,
)
    requires
        request_no_dynamic(current, vars),
        exists|t: RequestV| request_substituted(current, vars, t) && text == #[trigger] kind_code(kind, t),
        request_substituted(current, vars, s),
    ensures
        text == kind_code(kind, s),
{
    let t = choose|t: RequestV| request_substituted(current, vars, t) && text == #[trigger] kind_code(kind, t);
    law_request_substitution_unique(current, vars, s, t);
}

/// Whether Send sends: it does when no name is undefined, or when the
/// undefined names are those already shown (the second click); otherwise it
/// only shows them.
pub open spec fn sends(shown: Seq<Seq<char>>, missing: Seq<Seq<char>>) -> bool {
    missing.len() == 0 || shown == missing
}

/// Whether two lists of texts are equal.
fn same_texts(a: &Vec<String>, b: &Vec<String>) -> (r: bool)
    ensures
        r == (a.deep_view() == b.deep_view()),
{
    if a.len() != b.len() {
        assert(a.deep_view().len() != b.deep_view().len());
        return false;
    }
    let mut i: usize = 0;
    while i < a.len()
        invariant
            a.len() == b.len(),
            i <= a.len(),
            forall|j: int| 0 <= j < i ==> a.deep_view()[j] == b.deep_view()[j],
        decreases a.len() - i,
    {
        if !str_eq(a[i].as_str(), b[i].as_str()) {
            assert(a.deep_view()[i as int] != b.deep_view()[i as int]);
            return false;
        }
        i = i + 1;
    }
    assert(a.deep_view() =~= b.deep_view());
    true
}

/// The request editor's state: the environments, the request being
/// edited, the undefined names last shown, the time limit, and the id the
/// next send gets.
pub struct FirebeeApp {
    pub envs: EnvManager,
    pub current: Request,
    /// The response shown: the last send's response or error message.
    pub response: Option<Result<ResponseMeta, String>>,
    /// The id of the send in flight.
    pub pending: Option<u64>,
    pub missing_vars: Vec<String>,
    pub timeout_secs: u64,
    pub next_job_id: u64,
}

impl FirebeeApp {
    /// The editor on a new request, with the environments loaded and none
    /// active.
    pub fn new(environments: Vec<Environment>) -> (app: FirebeeApp)
        ensures
            app.envs.environments@ == environments@,
            app.envs.env_sel is None,
            app.envs.active_env is None,
            !app.envs.dirty,
            app.current@ == blank_request("新请求"@),
            app.response is None,
            app.pending is None,
            app.missing_vars@.len() == 0,
            app.timeout_secs == DEFAULT_TIMEOUT_SECS,
            app.next_job_id == 1,
    {
        FirebeeApp {
            envs: EnvManager { environments, env_sel: None, active_env: None, dirty: false },
            current: Request::new("新请求"),
            response: None,
            pending: None,
            missing_vars: Vec::new(),
            timeout_secs: DEFAULT_TIMEOUT_SECS,
            next_job_id: 1,
        }
    }

    /// The variables of the active environment.
    pub fn env_vars(&self) -> (m: VarMap)
        ensures
            m@ == active_vars_spec(self.envs.environments@, self.envs.active_env),
    {
        active_vars(&self.envs.environments, &self.envs.active_env)
    }

    /// Send pressed.  With undefined names that were not shown yet, shows
    /// them and sends nothing; otherwise clears them and hands out a job:
    /// the next id, the current request with the active environment's
    /// variables substituted, and the time limit (at least a second).  The
    /// job becomes the send in flight and the shown response is cleared.
    pub fn send(&mut self) -> (r: Option<Job>)
        requires
            old(self).next_job_id < u64::MAX,
        ensures
            final(self).envs == old(self).envs,
            final(self).current == old(self).current,
            final(self).timeout_secs == old(self).timeout_secs,
            ({
                let cur = old(self).current;
                let vars = active_vars_spec(old(self).envs.environments@, old(self).envs.active_env);
                let m = missing_across(request_texts(cur@), vars);
                if sends(old(self).missing_vars.deep_view(), m) {
                    &&& r matches Some(job) && job.id == old(self).next_job_id && job.request.id
                        == cur.id && request_substituted(cur@, vars, job.request@)
                        && job.timeout_secs == (if old(self).timeout_secs < 1 {
                        1
                    } else {
                        old(self).timeout_secs
                    })
                    &&& final(self).next_job_id == old(self).next_job_id + 1
                    &&& final(self).missing_vars@.len() == 0
                    &&& final(self).pending == Some(old(self).next_job_id)
                    &&& final(self).response is None
                } else {
                    &&& r is None
                    &&& final(self).next_job_id == old(self).next_job_id
                    &&& final(self).missing_vars.deep_view() == m
                    &&& final(self).pending == old(self).pending
                    &&& final(self).response == old(self).response
                }
            }),
    {
        let vars = self.env_vars();
        let (substituted, missing) = substitute_request(&self.current, &vars);
        if missing.len() > 0 && !same_texts(&self.missing_vars, &missing) {
            self.missing_vars = missing;
            return None;
        }
        self.missing_vars = Vec::new();
        assert(self.missing_vars@.len() == 0);
        let id = self.next_job_id;
        self.next_job_id = self.next_job_id + 1;
        let timeout = if self.timeout_secs < 1 {
            1
        } else {
            self.timeout_secs
        };
        self.pending = Some(id);
        self.response = None;
        Some(Job { id, request: substituted, timeout_secs: timeout })
    }

    /// A request chosen in the sidebar or the history is loaded into the
    /// editor: it becomes the current request, and the shown response and
    /// undefined names are cleared.
    pub fn load(&mut self, r: Request)
        ensures
            final(self).current == r,
            final(self).response is None,
            final(self).missing_vars@.len() == 0,
            final(self).envs == old(self).envs,
            final(self).pending == old(self).pending,
            final(self).timeout_secs == old(self).timeout_secs,
            final(self).next_job_id == old(self).next_job_id,
    {
        self.current = r;
        self.response = None;
        self.missing_vars = Vec::new();
    }

    /// A send finished: nothing is in flight any more and its response, or
    /// its error's message, is shown.  Returns the status and time the
    /// history records it with.
    pub fn finish(&mut self, result: Result<ResponseMeta, HttpError>) -> (r: (
        Option<u16>,
        Option<u128>,
    ))
        ensures
            finished(*old(self), *final(self), result),
            r == summary_of(result),
    {
        let summary = result_summary(&result);
        self.pending = None;
        self.response = Some(shown_response(result));
        summary
    }
}

/// The status and time a finished send is recorded with: those of the
/// response, none for an error.
pub open spec fn summary_of(result: Result<ResponseMeta, HttpError>) -> (Option<u16>, Option<u128>) {
    match result {
        Ok(m) => (Some(m.status), Some(m.duration_ms)),
        Err(_) => (None, None),
    }
}

/// `response` shows the outcome of a send: its response, or its error's
/// message.
pub open spec fn shows_result(
    response: Option<Result<ResponseMeta, String>>,
    result: Result<ResponseMeta, HttpError>,
) -> bool {
    match result {
        Ok(m) => response == Some(Ok::<ResponseMeta, String>(m)),
        Err(e) => response matches Some(Err(t)) && is_message(e, t@),
    }
}

/// `new` is `old` after a send finished with `result`: nothing in flight,
/// the outcome shown, everything else as it was.
pub open spec fn finished(old: FirebeeApp, new: FirebeeApp, result: Result<ResponseMeta, HttpError>) -> bool {
    &&& new.pending is None
    &&& shows_result(new.response, result)
    &&& new.envs == old.envs
    &&& new.current == old.current
    &&& new.missing_vars == old.missing_vars
    &&& new.timeout_secs == old.timeout_secs
    &&& new.next_job_id == old.next_job_id
}

/// Finishing several sends in order (`states[i + 1]` being `states[i]`
/// after `results[i]`, and one history entry recorded per result) leaves
/// nothing in flight, shows the last outcome, keeps the request, the
/// environments and the next id, and leaves the history, when it started
/// within the limit, as the last `HISTORY_LIMIT` of the old entries and the
/// new ones in order.
pub proof fn law_finished_sends<T>(
    states: Seq<FirebeeApp>,
    results: Seq<Result<ResponseMeta, HttpError>>,
    h: Seq<T>,
    entries: Seq<T>,
)
    requires
        results.len() >= 1,
        states.len() == results.len() + 1,
        entries.len() == results.len(),
        forall|i: int| 0 <= i < results.len() ==> finished(#[trigger] states[i], states[i + 1], results[i]),
        h.len() <= HISTORY_LIMIT,
    ensures
        states.last().pending is None,
        shows_result(states.last().response, results.last()),
        states.last().current == states[0].current,
        states.last().envs == states[0].envs,
        states.last().next_job_id == states[0].next_job_id,
        history_after_all(h, entries) == last_kept(h + entries),
        history_after_all(h, entries).len() <= HISTORY_LIMIT,
    decreases results.len(),
{
    let k = results.len() as int;
    assert(finished(states[k - 1], states[k], results[k - 1]));
    if k > 1 {
        let s2 = states.drop_last();
        let r2 = results.drop_last();
        assert forall|i: int| 0 <= i < r2.len() implies finished(#[trigger] s2[i], s2[i + 1], r2[i]) by {
            assert(finished(states[i], states[i + 1], results[i]));
        }
        law_finished_sends(s2, r2, h, entries.drop_last());
    }
    law_history_after_many(h, entries);
}

/// With undefined names the first Send only shows them, and pressing Send
/// again on the same request sends it; with none, Send always sends.
pub proof fn law_second_send_sends(shown: Seq<Seq<char>>, missing: Seq<Seq<char>>)
    ensures
        !sends(shown, missing) ==> sends(missing, missing),
        sends(shown, Seq::<Seq<char>>::empty()),
{
}

/// The history after a finished send: the new entry last, and only the
/// most recent `HISTORY_LIMIT` entries kept.
pub open spec fn history_after<T>(h: Seq<T>, entry: T) -> Seq<T> {
    let all = h.push(entry);
    all.subrange(history_start_spec(all.len()) as int, all.len() as int)
}

/// Adds the entry of a finished send to the history, dropping the oldest
/// entries beyond `HISTORY_LIMIT`.
pub fn record_history<T>(history: &mut Vec<T>, entry: T)
    requires
        old(history)@.len() < usize::MAX,
    ensures
        final(history)@ == history_after(old(history)@, entry),
{
    history.push(entry);
    if history.len() > HISTORY_LIMIT {
        let n = history.len() - HISTORY_LIMIT;
        let kept = history.split_off(n);
        *history = kept;
    }
}

/// The history never holds more than `HISTORY_LIMIT` entries, the newest
/// is the one just added, and entries already kept stay in order.
pub proof fn law_history_bounded<T>(h: Seq<T>, entry: T)
    ensures
        history_after(h, entry).len() <= HISTORY_LIMIT,
        history_after(h, entry).last() == entry,
        h.len() < HISTORY_LIMIT ==> history_after(h, entry) == h.push(entry),
        h.len() >= HISTORY_LIMIT ==> history_after(h, entry) == h.subrange(
            h.len() - HISTORY_LIMIT + 1,
            h.len() as int,
        ).push(entry),
{
    let all = h.push(entry);
    if h.len() < HISTORY_LIMIT {
        assert(all.subrange(0, all.len() as int) =~= all);
    } else {
        assert(all.subrange(h.len() - HISTORY_LIMIT + 1, all.len() as int) =~= h.subrange(
            h.len() - HISTORY_LIMIT + 1,
            h.len() as int,
        ).push(entry));
    }
}

/// The history after several finished sends, recorded in order.
pub open spec fn history_after_all<T>(h: Seq<T>, entries: Seq<T>) -> Seq<T>
    decreases entries.len(),
{
    if entries.len() == 0 {
        h
    } else {
        history_after(history_after_all(h, entries.drop_last()), entries.last())
    }
}

/// The last `HISTORY_LIMIT` entries of `s`.
pub open spec fn last_kept<T>(s: Seq<T>) -> Seq<T> {
    s.subrange(history_start_spec(s.len()) as int, s.len() as int)
}

/// Recording finished sends one by one into a history within the limit
/// keeps exactly the most recent `HISTORY_LIMIT` of the old entries and the
/// new ones, in order.
pub proof fn law_history_after_many<T>(h: Seq<T>, entries: Seq<T>)
    requires
        h.len() <= HISTORY_LIMIT,
    ensures
        history_after_all(h, entries) == last_kept(h + entries),
    decreases entries.len(),
{
    if entries.len() == 0 {
        assert(h + entries =~= h);
        assert(last_kept(h) =~= h);
    } else {
        let d = entries.drop_last();
        let e = entries.last();
        law_history_after_many(h, d);
        let a = h + d;
        let l = last_kept(a);
        let full = a.push(e);
        assert(h + entries =~= full);
        let x = history_after(l, e);
        assert(x =~= last_kept(l.push(e)));
        assert(last_kept(l.push(e)) =~= last_kept(full));
    }
}

/// Edited collections and environments are saved once this many
/// milliseconds have passed since the last edit.
pub const SAVE_DELAY_MS: u128 = 500;

/// Whether the edits made `elapsed_ms` milliseconds ago are due to be saved.
pub fn save_due(elapsed_ms: u128) -> (r: bool)
    ensures
        r == (elapsed_ms > SAVE_DELAY_MS),
{
    elapsed_ms > SAVE_DELAY_MS
}

/// The status and time a finished send is recorded with: those of the
/// response, none for an error.
pub fn result_summary(result: &Result<ResponseMeta, HttpError>) -> (r: (Option<u16>, Option<u128>))
    ensures
        match result {
            Ok(m) => r == (Some(m.status), Some(m.duration_ms)),
            Err(_) => r == (None::<u16>, None::<u128>),
        },
{
    match result {
        Ok(m) => (Some(m.status), Some(m.duration_ms)),
        Err(_) => (None, None),
    }
}

/// The response shown for a finished send: the response, or the error's
/// message.
pub fn shown_response(result: Result<ResponseMeta, HttpError>) -> (r: Result<ResponseMeta, String>)
    ensures
        match result {
            Ok(m) => r == Ok::<ResponseMeta, String>(m),
            Err(e) => r matches Err(t) && is_message(e, t@),
        },
{
    match result {
        Ok(m) => Ok(m),
        Err(e) => Err(e.message()),
    }
}

} // verus!
