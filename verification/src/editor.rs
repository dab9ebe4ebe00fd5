//! The decisions of the request editor, the environment manager and the
//! response view: what a click changes and what is shown, apart from the
//! drawing.
use vstd::prelude::*;

use crate::commands::{lossy_text, utf8_lossy};
use crate::models::{Auth, AuthV, Environment, KeyValue, KvV, VarMap, env_map, kv, new_id};
use crate::text::{join, join_exec, owned, push_str};
use crate::vars::{nat_text, push_nat};

verus! {

/// A click in a key/value table: remove row `i`, or add an empty row.
pub enum RowEdit {
    Remove(usize),
    Add,
}

pub open spec fn rows_edited(rows: Seq<KvV>, e: RowEdit) -> Seq<KvV> {
    match e {
        RowEdit::Remove(i) => if i < rows.len() {
            rows.remove(i as int)
        } else {
            rows
        },
        RowEdit::Add => rows.push(kv(seq![], seq![])),
    }
}

/// Applies a click to a table; returns whether the table changed.
pub fn edit_rows(rows: &mut Vec<KeyValue>, e: RowEdit) -> (changed: bool)
    ensures
        final(rows).deep_view() == rows_edited(old(rows).deep_view(), e),
        changed == (final(rows).deep_view() != old(rows).deep_view()),
{
    let ghost before = rows.deep_view();
    match e {
        RowEdit::Remove(i) => {
            if i < rows.len() {
                rows.remove(i);
                assert(rows.deep_view() =~= before.remove(i as int));
                assert(rows.deep_view().len() != before.len());
                true
            } else {
                false
            }
        },
        RowEdit::Add => {
            rows.push(KeyValue::new("", ""));
            proof {
                reveal_strlit("");
                assert(""@ =~= Seq::<char>::empty());
            }
            assert(rows.deep_view() =~= before.push(kv(seq![], seq![])));
            assert(rows.deep_view().len() != before.len());
            true
        },
    }
}

/// The kinds of auth the editor offers.
#[derive(PartialEq, Eq, Clone, Copy, Debug, Structural)]
pub enum AuthKind {
    NoAuth,
    Bearer,
    Basic,
    ApiKey,
}

pub open spec fn kind_of(a: AuthV) -> AuthKind {
    match a {
        AuthV::NoAuth => AuthKind::NoAuth,
        AuthV::Bearer { .. } => AuthKind::Bearer,
        AuthV::Basic { .. } => AuthKind::Basic,
        AuthV::ApiKey { .. } => AuthKind::ApiKey,
    }
}

/// The auth of a kind with every field empty (an API key in a header).
pub open spec fn empty_auth(k: AuthKind) -> AuthV {
    match k {
        AuthKind::NoAuth => AuthV::NoAuth,
        AuthKind::Bearer => AuthV::Bearer { token: seq![] },
        AuthKind::Basic => AuthV::Basic { username: seq![], password: seq![] },
        AuthKind::ApiKey => AuthV::ApiKey { key: seq![], value: seq![], in_query: false },
    }
}

pub fn auth_kind(a: &Auth) -> (k: AuthKind)
    ensures
        k == kind_of(a@),
{
    match a {
        Auth::NoAuth => AuthKind::NoAuth,
        Auth::Bearer { .. } => AuthKind::Bearer,
        Auth::Basic { .. } => AuthKind::Basic,
        Auth::ApiKey { .. } => AuthKind::ApiKey,
    }
}

/// A kind of auth picked in the editor: another kind starts empty; the
/// same kind keeps what was typed.  Returns whether the auth changed.
pub fn choose_auth(auth: &mut Auth, k: AuthKind) -> (changed: bool)
    ensures
        changed == (kind_of(old(auth)@) != k),
        changed ==> final(auth)@ == empty_auth(k),
        !changed ==> *final(auth) == *old(auth),
{
    if auth_kind(auth) == k {
        return false;
    }
    *auth = match k {
        AuthKind::Bearer => Auth::Bearer { token: String::new() },
        AuthKind::Basic => Auth::Basic { username: String::new(), password: String::new() },
        AuthKind::ApiKey => Auth::ApiKey { key: String::new(), value: String::new(), in_query: false },
        AuthKind::NoAuth => Auth::NoAuth,
    };
    true
}

/// The warning shown under the URL while undefined names are pending:
/// none without any.
pub open spec fn notice_text(missing: Seq<Seq<char>>) -> Option<Seq<char>> {
    if missing.len() == 0 {
        None
    } else {
        Some(
            "Undefined variables: "@ + join(missing, ", "@) + " (click Send again to send anyway)"@,
        )
    }
}

pub fn missing_notice(missing: &Vec<String>) -> (r: Option<String>)
    ensures
        match r {
            Some(t) => notice_text(missing.deep_view()) == Some(t@),
            None => notice_text(missing.deep_view()) is None,
        },
{
    if missing.len() == 0 {
        assert(missing.deep_view().len() == 0);
        return None;
    }
    let mut t = owned("Undefined variables: ");
    push_str(&mut t, join_exec(missing, ", ").as_str());
    push_str(&mut t, " (click Send again to send anyway)");
    Some(t)
}

/// `Uuid`'s `==`.
#[verifier::external_body]
fn same_id(a: &uuid::Uuid, b: &uuid::Uuid) -> (r: bool)
    ensures
        r == (*a == *b),
{
    a == b
}

/// The position of the first environment with id `id`.
pub open spec fn env_position(envs: Seq<Environment>, id: uuid::Uuid, i: int) -> Option<int>
    decreases envs.len() - i,
{
    if i < 0 || i >= envs.len() {
        None
    } else if envs[i].id == id {
        Some(i)
    } else {
        env_position(envs, id, i + 1)
    }
}

/// The environment that `active` names, if it names one.
pub open spec fn active_position(envs: Seq<Environment>, active: Option<uuid::Uuid>) -> Option<int> {
    match active {
        Some(id) => env_position(envs, id, 0),
        None => None,
    }
}

fn find_env(envs: &Vec<Environment>, active: &Option<uuid::Uuid>) -> (r: Option<usize>)
    ensures
        match r {
            Some(i) => active_position(envs@, *active) == Some(i as int),
            None => active_position(envs@, *active) is None,
        },
{
    match active {
        None => None,
        Some(id) => {
            let mut i: usize = 0;
            while i < envs.len()
                invariant
                    i <= envs@.len(),
                    env_position(envs@, *id, 0) == env_position(envs@, *id, i as int),
                    *active == Some(*id),
                decreases envs.len() - i,
            {
                if same_id(&envs[i].id, id) {
                    return Some(i);
                }
                i = i + 1;
            }
            None
        },
    }
}

/// The name the environment picker shows.
pub fn active_env_name(envs: &Vec<Environment>, active: &Option<uuid::Uuid>) -> (r: String)
    ensures
        match active_position(envs@, *active) {
            Some(i) => r@ == envs@[i].name@,
            None => r@ == "No Environment"@,
        },
{
    proof {
        if let Some(id) = active {
            lemma_env_position_bounds(envs@, *id, 0);
        }
    }
    match find_env(envs, active) {
        Some(i) => envs[i].name.clone(),
        None => owned("No Environment"),
    }
}

/// The variables requests are sent with: those of the active
/// environment, none without one.
pub open spec fn active_vars_spec(envs: Seq<Environment>, active: Option<uuid::Uuid>) -> Map<
    Seq<char>,
    Seq<char>,
> {
    match active_position(envs, active) {
        Some(i) => env_map(envs[i].variables.deep_view()),
        None => Map::empty(),
    }
}

pub fn active_vars(envs: &Vec<Environment>, active: &Option<uuid::Uuid>) -> (m: VarMap)
    ensures
        m@ == active_vars_spec(envs@, *active),
{
    proof {
        if let Some(id) = active {
            lemma_env_position_bounds(envs@, *id, 0);
        }
    }
    match find_env(envs, active) {
        Some(i) => envs[i].var_map(),
        None => VarMap::new(),
    }
}

pub proof fn lemma_env_position_bounds(envs: Seq<Environment>, id: uuid::Uuid, i: int)
    requires
        0 <= i,
    ensures
        env_position(envs, id, i) matches Some(j) ==> i <= j < envs.len() && envs[j].id == id,
    decreases envs.len() - i,
{
    if i < envs.len() && envs[i].id != id {
        lemma_env_position_bounds(envs, id, i + 1);
    }
}

/// The environment manager: the environments, the one selected for
/// editing, the active one, and whether anything changed since the last
/// save.
pub struct EnvManager {
    pub environments: Vec<Environment>,
    pub env_sel: Option<usize>,
    pub active_env: Option<uuid::Uuid>,
    pub dirty: bool,
}

/// What the environment bar and manager ask for.
pub enum EnvAction {
    /// Makes the environment at a position active; none for no environment.
    Activate(Option<usize>),
    /// Selects an environment for editing.
    Select(usize),
    /// Adds an empty environment, named by its number, and selects it.
    New,
    /// Deletes the selected environment; the active one becomes none if it
    /// was that one.
    DeleteSelected,
}

pub open spec fn env_step(old: EnvManager, new: EnvManager, a: EnvAction) -> bool {
    let n = old.environments@.len();
    match a {
        EnvAction::Activate(sel) => {
            &&& new.environments@ == old.environments@
            &&& new.env_sel == old.env_sel
            &&& new.dirty == old.dirty
            &&& new.active_env == match sel {
                None => None,
                Some(i) => if i < n {
                    Some(old.environments@[i as int].id)
                } else {
                    old.active_env
                },
            }
        },
        EnvAction::Select(i) => {
            &&& new.environments@ == old.environments@
            &&& new.env_sel == Some(i)
            &&& new.active_env == old.active_env
            &&& new.dirty == old.dirty
        },
        EnvAction::New => {
            &&& new.environments@.len() == n + 1
            &&& new.environments@.take(n as int) == old.environments@
            &&& new.environments@[n as int].name@ == "Environment "@ + nat_text(n + 1)
            &&& new.environments@[n as int].variables@.len() == 0
            &&& new.env_sel == Some(n as usize)
            &&& new.active_env == old.active_env
            &&& new.dirty
        },
        EnvAction::DeleteSelected => match old.env_sel {
            Some(i) if i < n => {
                &&& new.environments@ == old.environments@.remove(i as int)
                &&& new.env_sel is None
                &&& new.active_env == if old.active_env == Some(old.environments@[i as int].id) {
                    None
                } else {
                    old.active_env
                }
                &&& new.dirty
            },
            _ => {
                &&& new.environments@ == old.environments@
                &&& new.env_sel == old.env_sel
                &&& new.active_env == old.active_env
                &&& new.dirty == old.dirty
            },
        },
    }
}

/// The active environment is none or one of the environments.
pub open spec fn active_valid(m: EnvManager) -> bool {
    m.active_env matches Some(id) ==> exists|j: int|
        0 <= j < m.environments@.len() && #[trigger] m.environments@[j].id == id
}

/// Whatever the environment manager is asked, the active environment stays
/// none or one of the environments: deleting the active one makes none
/// active.
pub proof fn law_active_env_stays_valid(old: EnvManager, new: EnvManager, a: EnvAction)
    requires
        env_step(old, new, a),
        active_valid(old),
    ensures
        active_valid(new),
{
    let n = old.environments@.len();
    match a {
        EnvAction::Activate(sel) => {
            if let Some(i) = sel {
                if i < n {
                    assert(new.environments@[i as int].id == new.active_env->0);
                }
            }
        },
        EnvAction::Select(_) => {},
        EnvAction::New => {
            if let Some(id) = new.active_env {
                let j = choose|j: int| 0 <= j < n && #[trigger] old.environments@[j].id == id;
                assert(new.environments@.take(n as int)[j] == new.environments@[j]);
                assert(new.environments@[j].id == id);
            }
        },
        EnvAction::DeleteSelected => {
            if let Some(i) = old.env_sel {
                if i < n {
                    if let Some(id) = new.active_env {
                        let j = choose|j: int| 0 <= j < n && #[trigger] old.environments@[j].id == id;
                        assert(j != i);
                        if j < i {
                            assert(new.environments@[j] == old.environments@[j]);
                        } else {
                            assert(new.environments@[j - 1] == old.environments@[j]);
                        }
                    }
                }
            }
        },
    }
}

impl EnvManager {
    pub fn apply(&mut self, a: EnvAction)
        ensures
            env_step(*old(self), *final(self), a),
    {
        match a {
            EnvAction::Activate(sel) => match sel {
                None => {
                    self.active_env = None;
                },
                Some(i) => {
                    if i < self.environments.len() {
                        self.active_env = Some(self.environments[i].id);
                    }
                },
            },
            EnvAction::Select(i) => {
                self.env_sel = Some(i);
            },
            EnvAction::New => {
                let n = self.environments.len();
                let mut name = owned("Environment ");
                push_nat(&mut name, (n as u128) + 1);
                self.environments.push(
                    Environment { id: new_id(), name, variables: Vec::new() },
                );
                assert(self.environments@.take(n as int) == old(self).environments@);
                self.env_sel = Some(n);
                self.dirty = true;
            },
            EnvAction::DeleteSelected => {
                if let Some(i) = self.env_sel {
                    if i < self.environments.len() {
                        let removed = self.environments.remove(i);
                        let clear = match &self.active_env {
                            Some(id) => same_id(id, &removed.id),
                            None => false,
                        };
                        if clear {
                            self.active_env = None;
                        }
                        self.env_sel = None;
                        self.dirty = true;
                    }
                }
            },
        }
    }
}

/// The colour a status code is shown in (red, green, blue): success
/// green, redirect blue, client error orange, anything else red.
pub open spec fn status_rgb_spec(status: u16) -> (u8, u8, u8) {
    if 200 <= status <= 299 {
        (60, 170, 90)
    } else if 300 <= status <= 399 {
        (80, 140, 220)
    } else if 400 <= status <= 499 {
        (220, 140, 40)
    } else {
        (220, 60, 60)
    }
}

pub fn status_rgb(status: u16) -> (r: (u8, u8, u8))
    ensures
        r == status_rgb_spec(status),
{
    if 200 <= status && status <= 299 {
        (60, 170, 90)
    } else if 300 <= status && status <= 399 {
        (80, 140, 220)
    } else if 400 <= status && status <= 499 {
        (220, 140, 40)
    } else {
        (220, 60, 60)
    }
}

/// The indented text of the JSON document `text`, or none when `text` is
/// not JSON (what `serde_json` parses and writes back pretty).
pub uninterp spec fn json_pretty(text: Seq<char>) -> Option<Seq<char>>;

/// Parses `text` as JSON and writes it back indented
/// (`serde_json::to_string_pretty`).  The contract names the result and
/// claims nothing more.
#[verifier::external_body]
fn json_pretty_text(text: &str) -> (r: Option<String>)
    ensures
        match r {
            Some(p) => json_pretty(text@) == Some(p@),
            None => json_pretty(text@) is None,
        },
{
    let v = serde_json::from_str::<serde_json::Value>(text).ok()?;
    Some(serde_json::to_string_pretty(&v).unwrap_or_else(|_| text.to_string()))
}

/// How a response body is shown, and in which language it is highlighted:
/// a JSON body indented as `json`, anything else as its text, `txt`.
pub open spec fn body_view_spec(body: Seq<u8>) -> (Seq<char>, Seq<char>) {
    let t = utf8_lossy(body);
    match json_pretty(t) {
        Some(p) => (p, "json"@),
        None => (t, "txt"@),
    }
}

pub fn body_view(body: &Vec<u8>) -> (r: (String, String))
    ensures
        (r.0@, r.1@) == body_view_spec(body@),
{
    let text = lossy_text(body);
    match json_pretty_text(text.as_str()) {
        Some(p) => (p, owned("json")),
        None => (text, owned("txt")),
    }
}

} // verus!
