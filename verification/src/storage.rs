//! Where the data lives and what is kept: the data directory, the names of
//! the backup and temporary files, and the history limit.  Reading and
//! writing the files is I/O.
use vstd::prelude::*;

use crate::text::{chars_of, occurs_at, occurs_at_exec, owned, push_char, push_str};

verus! {

#[verifier::external_type_specification]
#[verifier::external_body]
pub struct ExPathBuf(std::path::PathBuf);

/// Only the most recent entries are kept in the history.
pub const HISTORY_LIMIT: usize = 500;

pub struct Storage {
    dir: std::path::PathBuf,
}

impl Storage {
    /// The directory the data files are kept in.
    pub closed spec fn root(&self) -> std::path::PathBuf {
        self.dir
    }

    pub fn new(dir: std::path::PathBuf) -> (s: Storage)
        ensures
            s.root() == dir,
    {
        Storage { dir }
    }

    pub fn dir(&self) -> (d: &std::path::PathBuf)
        ensures
            *d == self.root(),
    {
        &self.dir
    }
}

/// The position the kept history starts at: all but the last
/// `HISTORY_LIMIT` entries are dropped.
pub open spec fn history_start_spec(len: nat) -> nat {
    if len > HISTORY_LIMIT {
        (len - HISTORY_LIMIT) as nat
    } else {
        0
    }
}

/// The entries of a history that are saved: the last `HISTORY_LIMIT`.
pub fn history_to_keep<T>(history: &[T]) -> (r: &[T])
    ensures
        r@ == history@.subrange(history_start_spec(history@.len()) as int, history@.len() as int),
        r@.len() <= HISTORY_LIMIT,
{
    let start = if history.len() > HISTORY_LIMIT {
        history.len() - HISTORY_LIMIT
    } else {
        0
    };
    vstd::slice::slice_subrange(history, start, history.len())
}

/// `s` with each occurrence of `pat` replaced by `rep`, left to right.
pub open spec fn replace_from(s: Seq<char>, pat: Seq<char>, rep: Seq<char>, i: int) -> Seq<char>
    decreases s.len() - i,
{
    if i < 0 || i >= s.len() || pat.len() == 0 {
        if 0 <= i < s.len() {
            s.subrange(i, s.len() as int)
        } else {
            seq![]
        }
    } else if occurs_at(s, pat, i) {
        rep + replace_from(s, pat, rep, i + pat.len())
    } else {
        seq![s[i]] + replace_from(s, pat, rep, i + 1)
    }
}

/// `str::replace` of `pat` (non-empty) by `rep`.
pub fn replace_exec(s: &str, pat: &str, rep: &str) -> (r: String)
    requires
        pat@.len() > 0,
    ensures
        r@ == replace_from(s@, pat@, rep@, 0),
{
    let v = chars_of(s);
    let p = chars_of(pat);
    let mut r = String::new();
    let mut i: usize = 0;
    while i < v.len()
        invariant
            v@ == s@,
            p@ == pat@,
            p@.len() > 0,
            i <= v@.len(),
            replace_from(s@, pat@, rep@, 0) == r@ + replace_from(s@, pat@, rep@, i as int),
        decreases v.len() - i,
    {
        if occurs_at_exec(v.as_slice(), p.as_slice(), i) {
            push_str(&mut r, rep);
            i = i + p.len();
        } else {
            push_char(&mut r, v[i]);
            i = i + 1;
        }
    }
    r
}

/// The name a file that does not parse is moved to: `.json` becomes `.bak`.
pub fn backup_name(name: &str) -> (r: String)
    ensures
        r@ == replace_from(name@, ".json"@, ".bak"@, 0),
{
    proof {
        reveal_strlit(".json");
    }
    replace_exec(name, ".json", ".bak")
}

/// The temporary file a save writes before renaming it into place.
pub fn temp_name(name: &str) -> (r: String)
    ensures
        r@ == name@ + ".tmp"@,
{
    let mut r = owned(name);
    push_str(&mut r, ".tmp");
    r
}

} // verus!
