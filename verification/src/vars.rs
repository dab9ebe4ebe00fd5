//! `{{name}}` placeholders: their replacement by environment variables or by
//! dynamic values, and the list of names that stay undefined.
use vstd::prelude::*;

use crate::models::{
    Auth, AuthV, KeyValue, KvV, Request, RequestV, VarMap, copy_auth, new_id,
};
use crate::text::{
    chars_of, find_pair, find_pair_from, lemma_find_pair_bounds, lemma_find_pair_none, push_char, push_range, push_str,
    str_eq, trim, trim_bounds,
};

verus! {

/// A piece of a text: plain text, or a `{{name}}` placeholder (its name
/// trimmed of surrounding whitespace).
pub enum Piece {
    Text(Seq<char>),
    Var(Seq<char>),
}

/// The pieces of `s[k..]`.  A `{{` without a later `}}` is plain text.
pub open spec fn pieces_from(s: Seq<char>, k: int) -> Seq<Piece>
    decreases s.len() - k,
{
    if k < 0 || k > s.len() {
        seq![]
    } else {
        match find_pair_from(s, k, '{', '{') {
            None => seq![Piece::Text(s.subrange(k, s.len() as int))],
            Some(i) => {
                proof {
                    lemma_find_pair_bounds(s, k, '{', '{');
                    lemma_find_pair_bounds(s, i + 2, '}', '}');
                }
                match find_pair_from(s, i + 2, '}', '}') {
                    None => seq![Piece::Text(s.subrange(k, s.len() as int))],
                    Some(j) => seq![
                        Piece::Text(s.subrange(k, i)),
                        Piece::Var(trim(s.subrange(i + 2, j))),
                    ] + pieces_from(s, j + 2),
                }
            },
        }
    }
}

pub open spec fn pieces(s: Seq<char>) -> Seq<Piece> {
    pieces_from(s, 0)
}

/// The names of the dynamic variables, generated afresh at each occurrence.
pub open spec fn is_dynamic(n: Seq<char>) -> bool {
    n == "$uuid"@ || n == "$timestamp"@ || n == "$isoTimestamp"@ || n == "$randomInt"@
}

pub open spec fn digit(d: int) -> char {
    (48 + d) as char
}

/// The decimal text of a natural number.
pub open spec fn nat_text(n: nat) -> Seq<char>
    decreases n,
{
    if n < 10 {
        seq![digit(n as int)]
    } else {
        nat_text((n / 10) as nat).push(digit((n % 10) as int))
    }
}

/// The decimal text of an integer, with a leading `-` when negative.
pub open spec fn int_text(n: int) -> Seq<char> {
    if n < 0 {
        seq!['-'] + nat_text((-n) as nat)
    } else {
        nat_text(n as nat)
    }
}

pub open spec fn is_lower_hex(c: char) -> bool {
    ('0' <= c && c <= '9') || ('a' <= c && c <= 'f')
}

pub open spec fn is_digit(c: char) -> bool {
    '0' <= c && c <= '9'
}

/// A UUID's hyphenated text: 36 characters, `-` at positions 8, 13, 18
/// and 23, lower-case hexadecimal digits everywhere else.
pub open spec fn uuid_form(s: Seq<char>) -> bool {
    &&& s.len() == 36
    &&& forall|i: int|
        0 <= i < 36 ==> if i == 8 || i == 13 || i == 18 || i == 23 {
            s[i] == '-'
        } else {
            is_lower_hex(#[trigger] s[i])
        }
}

/// The digits of a year as RFC 3339 writes it: four digits, or for a year
/// outside 0..=9999 a sign followed by at least four digits.
pub open spec fn year_form(y: Seq<char>) -> bool {
    ||| y.len() == 4 && forall|i: int| 0 <= i < 4 ==> is_digit(#[trigger] y[i])
    ||| y.len() >= 5 && (y[0] == '+' || y[0] == '-') && forall|i: int|
        1 <= i < y.len() ==> is_digit(#[trigger] y[i])
}

/// A UTC time in RFC 3339 with whole seconds and `Z`:
/// `YYYY-MM-DDTHH:MM:SSZ` (the year as `year_form` says).
pub open spec fn iso_form(s: Seq<char>) -> bool {
    &&& s.len() >= 20
    &&& year_form(s.take(s.len() - 16))
    &&& forall|k: int|
        0 <= k < 16 ==> {
            let c = #[trigger] s[s.len() - 16 + k];
            if k == 0 || k == 3 {
                c == '-'
            } else if k == 6 {
                c == 'T'
            } else if k == 9 || k == 12 {
                c == ':'
            } else if k == 15 {
                c == 'Z'
            } else {
                is_digit(c)
            }
        }
}

/// What is known of a generated value: a UUID is in its hyphenated
/// lower-case form, a timestamp is an integer, an ISO timestamp is a UTC
/// RFC 3339 time with whole seconds, a random integer lies in 0..=1000.
pub open spec fn dynamic_value_ok(n: Seq<char>, v: Seq<char>) -> bool {
    if n == "$uuid"@ {
        uuid_form(v)
    } else if n == "$timestamp"@ {
        exists|t: i64| v == #[trigger] int_text(t as int)
    } else if n == "$isoTimestamp"@ {
        iso_form(v)
    } else if n == "$randomInt"@ {
        exists|r: int| 0 <= r <= 1000 && v == #[trigger] int_text(r)
    } else {
        true
    }
}

/// The value a name takes: the variable's value, else a generated value
/// for a dynamic name (`d`), else none.
pub open spec fn resolved(n: Seq<char>, vars: Map<Seq<char>, Seq<char>>, d: Seq<char>) -> Option<
    Seq<char>,
> {
    if vars.contains_key(n) {
        Some(vars[n])
    } else if is_dynamic(n) {
        Some(d)
    } else {
        None
    }
}

pub open spec fn placeholder(n: Seq<char>) -> Seq<char> {
    "{{"@ + n + "}}"@
}

/// The output of one piece: text stays, a placeholder becomes its value, or
/// `{{name}}` when it has none.
pub open spec fn piece_out(p: Piece, vars: Map<Seq<char>, Seq<char>>, d: Seq<char>) -> Seq<char> {
    match p {
        Piece::Text(t) => t,
        Piece::Var(n) => match resolved(n, vars, d) {
            Some(v) => v,
            None => placeholder(n),
        },
    }
}

pub open spec fn render(ps: Seq<Piece>, vars: Map<Seq<char>, Seq<char>>, ds: Seq<Seq<char>>) -> Seq<
    char,
>
    decreases ps.len(),
{
    if ps.len() == 0 {
        seq![]
    } else {
        render(ps.drop_last(), vars, ds.drop_last()) + piece_out(ps.last(), vars, ds.last())
    }
}

/// A placeholder whose name is neither a variable nor dynamic.
pub open spec fn unresolved(p: Piece, vars: Map<Seq<char>, Seq<char>>) -> bool {
    match p {
        Piece::Var(n) => !vars.contains_key(n) && !is_dynamic(n),
        Piece::Text(_) => false,
    }
}

pub open spec fn add_missing(m: Seq<Seq<char>>, n: Seq<char>) -> Seq<Seq<char>> {
    if m.contains(n) {
        m
    } else {
        m.push(n)
    }
}

/// The unresolved names, each once, in order of first occurrence.
pub open spec fn missing_in(ps: Seq<Piece>, vars: Map<Seq<char>, Seq<char>>) -> Seq<Seq<char>>
    decreases ps.len(),
{
    if ps.len() == 0 {
        seq![]
    } else {
        let m = missing_in(ps.drop_last(), vars);
        match ps.last() {
            Piece::Var(n) => if unresolved(ps.last(), vars) {
                add_missing(m, n)
            } else {
                m
            },
            Piece::Text(_) => m,
        }
    }
}

/// `ds` holds one value per piece, and the value of each dynamic
/// placeholder satisfies what is known of it.
pub open spec fn generated_ok(ps: Seq<Piece>, vars: Map<Seq<char>, Seq<char>>, ds: Seq<Seq<char>>) -> bool {
    &&& ds.len() == ps.len()
    &&& forall|i: int|
        0 <= i < ps.len() ==> match #[trigger] ps[i] {
            Piece::Var(n) => !vars.contains_key(n) && is_dynamic(n) ==> dynamic_value_ok(n, ds[i]),
            Piece::Text(_) => true,
        }
}

/// `out` is `input` with its placeholders replaced, for some choice of the
/// generated values.
pub open spec fn is_substitution(
    input: Seq<char>,
    vars: Map<Seq<char>, Seq<char>>,
    out: Seq<char>,
) -> bool {
    exists|ds: Seq<Seq<char>>|
        generated_ok(pieces(input), vars, ds) && out == #[trigger] render(pieces(input), vars, ds)
}

pub open spec fn missing_names(input: Seq<char>, vars: Map<Seq<char>, Seq<char>>) -> Seq<Seq<char>> {
    missing_in(pieces(input), vars)
}

/// A text without `{{` is left unchanged, whatever the variables.
pub proof fn law_plain_text_unchanged(
    input: Seq<char>,
    vars: Map<Seq<char>, Seq<char>>,
    out: Seq<char>,
)
    requires
        forall|i: int| 0 <= i && i + 1 < input.len() ==> !(#[trigger] input[i] == '{' && input[i + 1] == '{'),
        is_substitution(input, vars, out),
    ensures
        out == input,
        missing_names(input, vars).len() == 0,
{
    lemma_find_pair_none(input, 0, '{', '{');
    assert(input.subrange(0, input.len() as int) == input);
    let ps = pieces(input);
    assert(ps == seq![Piece::Text(input)]);
    let ds = choose|ds: Seq<Seq<char>>|
        generated_ok(pieces(input), vars, ds) && out == #[trigger] render(pieces(input), vars, ds);
    assert(ps.drop_last() =~= Seq::<Piece>::empty());
    assert(render(ps.drop_last(), vars, ds.drop_last()) == Seq::<char>::empty());
    assert(render(ps, vars, ds) == piece_out(ps.last(), vars, ds.last()));
    assert(missing_in(ps.drop_last(), vars) == Seq::<Seq<char>>::empty());
}

proof fn lemma_render_independent(
    ps: Seq<Piece>,
    vars: Map<Seq<char>, Seq<char>>,
    ds1: Seq<Seq<char>>,
    ds2: Seq<Seq<char>>,
)
    requires
        ds1.len() == ps.len(),
        ds2.len() == ps.len(),
        forall|i: int|
            0 <= i < ps.len() ==> match #[trigger] ps[i] {
                Piece::Var(n) => vars.contains_key(n) || !is_dynamic(n),
                Piece::Text(_) => true,
            },
    ensures
        render(ps, vars, ds1) == render(ps, vars, ds2),
    decreases ps.len(),
{
    if ps.len() > 0 {
        assert forall|i: int|
            0 <= i < ps.drop_last().len() implies match #[trigger] ps.drop_last()[i] {
            Piece::Var(n) => vars.contains_key(n) || !is_dynamic(n),
            Piece::Text(_) => true,
        } by {
            assert(ps.drop_last()[i] == ps[i]);
        }
        lemma_render_independent(ps.drop_last(), vars, ds1.drop_last(), ds2.drop_last());
        let last = ps[ps.len() - 1];
        assert(ps.last() == last);
    }
}

/// Without dynamic placeholders (other than names the variables define),
/// substitution is a function: any two outputs are equal.
pub proof fn law_substitution_deterministic(
    input: Seq<char>,
    vars: Map<Seq<char>, Seq<char>>,
    out1: Seq<char>,
    out2: Seq<char>,
)
    requires
        forall|i: int|
            0 <= i < pieces(input).len() ==> match #[trigger] pieces(input)[i] {
                Piece::Var(n) => vars.contains_key(n) || !is_dynamic(n),
                Piece::Text(_) => true,
            },
        is_substitution(input, vars, out1),
        is_substitution(input, vars, out2),
    ensures
        out1 == out2,
{
    let ps = pieces(input);
    let ds1 = choose|ds: Seq<Seq<char>>|
        generated_ok(pieces(input), vars, ds) && out1 == #[trigger] render(pieces(input), vars, ds);
    let ds2 = choose|ds: Seq<Seq<char>>|
        generated_ok(pieces(input), vars, ds) && out2 == #[trigger] render(pieces(input), vars, ds);
    lemma_render_independent(ps, vars, ds1, ds2);
}

/// A lone placeholder `{{n}}` (a name without braces or surrounding
/// whitespace) becomes the variable's value when the environment defines
/// it; a name that is neither defined nor dynamic stays as it is and is
/// the one undefined name.
pub proof fn law_placeholder_value(n: Seq<char>, vars: Map<Seq<char>, Seq<char>>, out: Seq<char>)
    requires
        forall|i: int| 0 <= i < n.len() ==> n[i] != '{' && n[i] != '}',
        trim(n) == n,
        is_substitution(placeholder(n), vars, out),
    ensures
        vars.contains_key(n) ==> out == vars[n],
        !vars.contains_key(n) && !is_dynamic(n) ==> out == placeholder(n) && missing_names(
            placeholder(n),
            vars,
        ) == seq![n],
{
    reveal_strlit("{{");
    reveal_strlit("}}");
    let s = placeholder(n);
    let e = (n.len() + 2) as int;
    assert(s.len() == n.len() + 4);
    assert(s[0] == '{' && s[1] == '{');
    assert(s[e] == '}' && s[e + 1] == '}');
    assert(find_pair_from(s, 0, '{', '{') == Some(0int));
    assert forall|j: int| 2 <= j && j + 1 < s.len() && j < e implies !(#[trigger] s[j] == '}' && s[j
        + 1] == '}') by {
        assert(s[j] == n[j - 2]);
    }
    lemma_find_pair_bounds(s, 2, '}', '}');
    assert(find_pair_from(s, 2, '}', '}') == Some(e));
    assert(s.subrange(2, e) =~= n);
    assert(s.subrange(0, 0) =~= Seq::<char>::empty());
    assert(find_pair_from(s, e + 2, '{', '{') is None);
    assert(s.subrange(e + 2, s.len() as int) =~= Seq::<char>::empty());
    let ps = pieces(s);
    let empty = Seq::<char>::empty();
    assert(pieces_from(s, e + 2) == seq![Piece::Text(empty)]);
    assert(ps =~= seq![Piece::Text(empty), Piece::Var(n), Piece::Text(empty)]);
    let ds = choose|ds: Seq<Seq<char>>|
        generated_ok(pieces(s), vars, ds) && out == #[trigger] render(pieces(s), vars, ds);
    let p1 = ps.drop_last().drop_last();
    let d1 = ds.drop_last().drop_last();
    assert(p1 =~= seq![Piece::Text(empty)]);
    assert(p1.drop_last() =~= Seq::<Piece>::empty());
    assert(render(p1.drop_last(), vars, d1.drop_last()) == empty);
    assert(empty + empty =~= empty);
    assert(render(p1, vars, d1) == empty);
    assert(ps.drop_last().last() == Piece::Var(n));
    assert(render(ps.drop_last(), vars, ds.drop_last()) == piece_out(Piece::Var(n), vars, ds[1]));
    assert(out == piece_out(Piece::Var(n), vars, ds[1]) + empty);
    if !vars.contains_key(n) && !is_dynamic(n) {
        assert(missing_in(p1.drop_last(), vars) == Seq::<Seq<char>>::empty());
        assert(missing_in(p1, vars) == Seq::<Seq<char>>::empty());
        assert(missing_in(ps.drop_last(), vars) == add_missing(Seq::<Seq<char>>::empty(), n));
        assert(!Seq::<Seq<char>>::empty().contains(n));
        assert(Seq::<Seq<char>>::empty().push(n) =~= seq![n]);
    }
}

/// The undefined names: no name twice, each neither a variable nor
/// dynamic, and every undefined placeholder's name among them.
pub proof fn law_missing_names(ps: Seq<Piece>, vars: Map<Seq<char>, Seq<char>>)
    ensures
        missing_in(ps, vars).no_duplicates(),
        forall|j: int|
            0 <= j < missing_in(ps, vars).len() ==> !vars.contains_key(
                #[trigger] missing_in(ps, vars)[j],
            ) && !is_dynamic(missing_in(ps, vars)[j]),
        forall|i: int|
            0 <= i < ps.len() && unresolved(#[trigger] ps[i], vars) ==> missing_in(
                ps,
                vars,
            ).contains(ps[i]->Var_0),
    decreases ps.len(),
{
    if ps.len() > 0 {
        law_missing_names(ps.drop_last(), vars);
        let m = missing_in(ps.drop_last(), vars);
        assert forall|i: int| 0 <= i < ps.len() && unresolved(#[trigger] ps[i], vars) implies missing_in(
            ps,
            vars,
        ).contains(ps[i]->Var_0) by {
            if i < ps.len() - 1 {
                assert(ps.drop_last()[i] == ps[i]);
                assert(m.contains(ps[i]->Var_0));
                let k = choose|k: int| 0 <= k < m.len() && m[k] == ps[i]->Var_0;
                assert(missing_in(ps, vars)[k] == ps[i]->Var_0);
            } else {
                if !m.contains(ps[i]->Var_0) {
                    assert(missing_in(ps, vars)[m.len() as int] == ps[i]->Var_0);
                }
            }
        }
    }
}

/// No placeholder of `t` names a dynamic variable that `vars` does not
/// define.
pub open spec fn no_dynamic(t: Seq<char>, vars: Map<Seq<char>, Seq<char>>) -> bool {
    forall|i: int|
        0 <= i < pieces(t).len() ==> match #[trigger] pieces(t)[i] {
            Piece::Var(n) => vars.contains_key(n) || !is_dynamic(n),
            Piece::Text(_) => true,
        }
}

pub open spec fn kvs_no_dynamic(kvs: Seq<KvV>, vars: Map<Seq<char>, Seq<char>>) -> bool {
    forall|i: int|
        0 <= i < kvs.len() ==> no_dynamic(#[trigger] kvs[i].key, vars) && no_dynamic(
            kvs[i].value,
            vars,
        )
}

/// No text of the request names an undefined dynamic variable.
pub open spec fn request_no_dynamic(r: RequestV, vars: Map<Seq<char>, Seq<char>>) -> bool {
    &&& no_dynamic(r.url, vars)
    &&& kvs_no_dynamic(r.params, vars)
    &&& kvs_no_dynamic(r.headers, vars)
    &&& kvs_no_dynamic(r.form, vars)
    &&& no_dynamic(r.body, vars)
    &&& no_dynamic(r.graphql_variables, vars)
    &&& forall|k: int|
        0 <= k < auth_texts(r.auth).len() ==> no_dynamic(#[trigger] auth_texts(r.auth)[k], vars)
}

proof fn lemma_kvs_unique(
    kvs: Seq<KvV>,
    vars: Map<Seq<char>, Seq<char>>,
    a: Seq<KvV>,
    b: Seq<KvV>,
)
    requires
        kvs_no_dynamic(kvs, vars),
        kvs_substituted(kvs, vars, a),
        kvs_substituted(kvs, vars, b),
    ensures
        a == b,
{
    assert forall|i: int| 0 <= i < a.len() implies #[trigger] a[i] == b[i] by {
        let x = a[i];
        let y = b[i];
        assert(no_dynamic(kvs[i].key, vars));
        law_substitution_deterministic(kvs[i].key, vars, x.key, y.key);
        law_substitution_deterministic(kvs[i].value, vars, x.value, y.value);
    }
    assert(a =~= b);
}

/// Without undefined dynamic variables, substituting a request's variables
/// has one outcome: every text of it substituted as `substitute` does (see
/// `law_substitution_deterministic`).  So `substitute_request` gives, field
/// by field, what `substitute` gives for that field.
pub proof fn law_request_substitution_unique(
    req: RequestV,
    vars: Map<Seq<char>, Seq<char>>,
    a: RequestV,
    b: RequestV,
)
    requires
        request_no_dynamic(req, vars),
        request_substituted(req, vars, a),
        request_substituted(req, vars, b),
    ensures
        a == b,
{
    law_substitution_deterministic(req.url, vars, a.url, b.url);
    law_substitution_deterministic(req.body, vars, a.body, b.body);
    law_substitution_deterministic(req.graphql_variables, vars, a.graphql_variables, b.graphql_variables);
    lemma_kvs_unique(req.params, vars, a.params, b.params);
    lemma_kvs_unique(req.headers, vars, a.headers, b.headers);
    lemma_kvs_unique(req.form, vars, a.form, b.form);
    let ts = auth_texts(req.auth);
    match (req.auth, a.auth, b.auth) {
        (AuthV::Bearer { token: t }, AuthV::Bearer { token: x }, AuthV::Bearer { token: y }) => {
            assert(no_dynamic(ts[0], vars));
            law_substitution_deterministic(t, vars, x, y);
        },
        (
            AuthV::Basic { username: u, password: p },
            AuthV::Basic { username: u1, password: p1 },
            AuthV::Basic { username: u2, password: p2 },
        ) => {
            assert(no_dynamic(ts[0], vars) && no_dynamic(ts[1], vars));
            law_substitution_deterministic(u, vars, u1, u2);
            law_substitution_deterministic(p, vars, p1, p2);
        },
        (
            AuthV::ApiKey { key: k, value: v, .. },
            AuthV::ApiKey { key: k1, value: v1, .. },
            AuthV::ApiKey { key: k2, value: v2, .. },
        ) => {
            assert(no_dynamic(ts[0], vars) && no_dynamic(ts[1], vars));
            law_substitution_deterministic(k, vars, k1, k2);
            law_substitution_deterministic(v, vars, v1, v2);
        },
        _ => {},
    }
}

/// A UUID's text (`Uuid`'s `Display`, which writes the hyphenated
/// lower-case hexadecimal form).  The digits depend on the UUID, which is
/// random; the form is stated.
#[verifier::external_body]
fn uuid_text(u: &uuid::Uuid) -> (s: String)
    ensures
        uuid_form(s@),
{
    u.to_string()
}

/// The 16 bytes of a UUID (`Uuid::as_bytes`).  Nothing is claimed of them.
#[verifier::external_body]
fn id_bytes(u: &uuid::Uuid) -> [u8; 16] {
    *u.as_bytes()
}

/// The current time in seconds since the Unix epoch
/// (`chrono::Utc::now().timestamp()`).  Nothing is claimed of the value.
#[verifier::external_body]
fn unix_timestamp() -> i64 {
    chrono::Utc::now().timestamp()
}

/// The current time as RFC 3339 text in UTC with whole seconds
/// (`chrono::Utc::now().to_rfc3339_opts(Secs, true)`).  The time is the
/// clock's; its form is stated.
#[verifier::external_body]
fn iso_timestamp() -> (s: String)
    ensures
        iso_form(s@),
{
    chrono::Utc::now().to_rfc3339_opts(chrono::SecondsFormat::Secs, true)
}

/// Appends the decimal text of `n`.
pub fn push_nat(out: &mut String, n: u128)
    ensures
        final(out)@ == old(out)@ + nat_text(n as nat),
    decreases n,
{
    if n >= 10 {
        push_nat(out, n / 10);
    }
    let d = (n % 10) as u8;
    let c = (48u8 + d) as char;
    assert(c == digit((n % 10) as int));
    push_char(out, c);
    proof {
        if n >= 10 {
            assert(old(out)@ + nat_text(n as nat) == old(out)@ + nat_text((n / 10) as nat) + seq![
                c,
            ]);
        }
    }
}

/// The decimal text of `n`.
pub fn int_to_text(n: i64) -> (s: String)
    ensures
        s@ == int_text(n as int),
{
    let mut s = String::new();
    if n < 0 {
        push_char(&mut s, '-');
        let m: u64 = if n == i64::MIN {
            9223372036854775808u64
        } else {
            (-n) as u64
        };
        push_nat(&mut s, m as u128);
    } else {
        push_nat(&mut s, n as u128);
    }
    s
}

/// A random integer in `0..=1000`, from the random bytes of a fresh UUID
/// read as a little-endian `u32`.
fn random_int() -> (r: u32)
    ensures
        r <= 1000,
{
    let b = id_bytes(&new_id());
    let x: u32 = (b[0] as u32) + (b[1] as u32) * 256 + (b[2] as u32) * 65536 + (b[3] as u32)
        * 16777216;
    x % 1001
}

/// A generated value for a dynamic name; none for any other name.
pub fn dynamic(name: &str) -> (r: Option<String>)
    ensures
        r is Some <==> is_dynamic(name@),
        r matches Some(v) ==> dynamic_value_ok(name@, v@),
{
    if str_eq(name, "$uuid") {
        Some(uuid_text(&new_id()))
    } else if str_eq(name, "$timestamp") {
        let t = unix_timestamp();
        let s = int_to_text(t);
        assert(s@ == int_text(t as int));
        Some(s)
    } else if str_eq(name, "$isoTimestamp") {
        proof {
            reveal_strlit("$isoTimestamp");
            reveal_strlit("$randomInt");
            assert("$isoTimestamp"@[1] != "$randomInt"@[1]);
        }
        Some(iso_timestamp())
    } else if str_eq(name, "$randomInt") {
        let r = random_int();
        let s = int_to_text(r as i64);
        assert(0 <= r as int <= 1000 && s@ == int_text(r as int));
        Some(s)
    } else {
        None
    }
}

/// Whether `v` holds a string equal to `s`.
pub fn contains_string(v: &Vec<String>, s: &String) -> (r: bool)
    ensures
        r == v.deep_view().contains(s@),
{
    let mut i: usize = 0;
    while i < v.len()
        invariant
            i <= v@.len(),
            forall|j: int| 0 <= j < i ==> v@[j]@ != s@,
        decreases v.len() - i,
    {
        if v[i] == *s {
            assert(v.deep_view()[i as int] == s@);
            return true;
        }
        i += 1;
    }
    assert forall|j: int| 0 <= j < v.deep_view().len() implies v.deep_view()[j] != s@ by {
        assert(v.deep_view()[j] == v@[j]@);
    }
    false
}

pub struct SubstituteResult {
    pub output: String,
    pub missing: Vec<String>,
}

proof fn lemma_pieces_step(s: Seq<char>, k: int, i: int, j: int)
    requires
        0 <= k <= s.len(),
        find_pair_from(s, k, '{', '{') == Some(i),
        find_pair_from(s, i + 2, '}', '}') == Some(j),
    ensures
        pieces_from(s, k) == seq![
            Piece::Text(s.subrange(k, i)),
            Piece::Var(trim(s.subrange(i + 2, j))),
        ] + pieces_from(s, j + 2),
        k <= i,
        i + 2 <= j,
        j + 2 <= s.len(),
{
    lemma_find_pair_bounds(s, k, '{', '{');
    lemma_find_pair_bounds(s, i + 2, '}', '}');
}

/// Replaces each `{{name}}` of `input` by the variable's value, or by a
/// generated value for a dynamic name (`$uuid`, `$timestamp`,
/// `$isoTimestamp`, `$randomInt`, fresh at each occurrence).  A name with
/// neither stays as `{{name}}` and is listed in `missing`, each once, in
/// order of first occurrence.  A variable wins over a dynamic name.
pub fn substitute(input: &str, vars: &VarMap) -> (r: SubstituteResult)
    ensures
        is_substitution(input@, vars@, r.output@),
        r.missing.deep_view() == missing_names(input@, vars@),
{
    let s = chars_of(input);
    let mut out = String::new();
    let mut missing: Vec<String> = Vec::new();
    let mut k: usize = 0;
    let ghost mut done: Seq<Piece> = seq![];
    let ghost mut ds: Seq<Seq<char>> = seq![];
    assert(missing.deep_view() =~= Seq::<Seq<char>>::empty());
    loop
        invariant
            s@ == input@,
            k <= s@.len(),
            pieces(s@) == done + pieces_from(s@, k as int),
            generated_ok(done, vars@, ds),
            out@ == render(done, vars@, ds),
            missing.deep_view() == missing_in(done, vars@),
        decreases s@.len() - k,
    {
        let open = find_pair(s.as_slice(), k, '{', '{');
        let close = match open {
            Some(i) => {
                proof {
                    lemma_find_pair_bounds(s@, k as int, '{', '{');
                }
                find_pair(s.as_slice(), i + 2, '}', '}')
            },
            None => None,
        };
        if open.is_none() || close.is_none() {
            // No further placeholder: the rest is text.
            let ghost p = Piece::Text(s@.subrange(k as int, s@.len() as int));
            push_range(&mut out, s.as_slice(), k, s.len());
            proof {
                assert(pieces_from(s@, k as int) == seq![p]);
                let nd = done.push(p);
                let nds = ds.push(Seq::<char>::empty());
                assert(nd.drop_last() == done);
                assert(nds.drop_last() == ds);
                assert(pieces(s@) == nd);
                assert(generated_ok(nd, vars@, nds)) by {
                    assert forall|t: int| 0 <= t < nd.len() implies match #[trigger] nd[t] {
                        Piece::Var(n) => !vars@.contains_key(n) && is_dynamic(n)
                            ==> dynamic_value_ok(n, nds[t]),
                        Piece::Text(_) => true,
                    } by {
                        if t < done.len() {
                            assert(nd[t] == done[t]);
                            assert(nds[t] == ds[t]);
                        }
                    }
                }
                assert(out@ == render(nd, vars@, nds));
                assert(missing.deep_view() == missing_in(nd, vars@));
                assert(render(pieces(input@), vars@, nds) == out@);
            }
            return SubstituteResult { output: out, missing };
        }
        let i = open.unwrap();
        let j = close.unwrap();
        proof {
            lemma_pieces_step(s@, k as int, i as int, j as int);
        }
        // The text before the placeholder.
        let ghost p1 = Piece::Text(s@.subrange(k as int, i as int));
        push_range(&mut out, s.as_slice(), k, i);
        proof {
            let nd = done.push(p1);
            let nds = ds.push(Seq::<char>::empty());
            assert(nd.drop_last() == done);
            assert(nds.drop_last() == ds);
            assert(generated_ok(nd, vars@, nds)) by {
                assert forall|t: int| 0 <= t < nd.len() implies match #[trigger] nd[t] {
                    Piece::Var(n) => !vars@.contains_key(n) && is_dynamic(n) ==> dynamic_value_ok(
                        n,
                        nds[t],
                    ),
                    Piece::Text(_) => true,
                } by {
                    if t < done.len() {
                        assert(nd[t] == done[t]);
                        assert(nds[t] == ds[t]);
                    }
                }
            }
            assert(missing_in(nd, vars@) == missing_in(done, vars@));
            done = nd;
            ds = nds;
        }
        // The placeholder.
        let (lo, hi) = trim_bounds(s.as_slice(), i + 2, j);
        let mut name = String::new();
        push_range(&mut name, s.as_slice(), lo, hi);
        assert(name@ == trim(s@.subrange(i + 2, j as int)));
        let ghost p2 = Piece::Var(name@);
        let ghost old_missing = missing.deep_view();
        let value = match vars.get(name.as_str()) {
            Some(v) => Some(v),
            None => dynamic(name.as_str()),
        };
        let ghost d: Seq<char> = match &value {
            Some(v) => v@,
            None => Seq::empty(),
        };
        match value {
            Some(v) => {
                push_str(&mut out, v.as_str());
            },
            None => {
                if !contains_string(&missing, &name) {
                    missing.push(name.clone());
                    assert(missing.deep_view() =~= old_missing.push(name@));
                }
                push_str(&mut out, "{{");
                push_str(&mut out, name.as_str());
                push_str(&mut out, "}}");
            },
        }
        proof {
            let nd = done.push(p2);
            let nds = ds.push(d);
            assert(nd.drop_last() == done);
            assert(nds.drop_last() == ds);
            assert(piece_out(p2, vars@, d) == render(nd, vars@, nds).subrange(
                render(done, vars@, ds).len() as int,
                render(nd, vars@, nds).len() as int,
            ));
            assert(out@ == render(nd, vars@, nds));
            assert(generated_ok(nd, vars@, nds)) by {
                assert forall|t: int| 0 <= t < nd.len() implies match #[trigger] nd[t] {
                    Piece::Var(n) => !vars@.contains_key(n) && is_dynamic(n) ==> dynamic_value_ok(
                        n,
                        nds[t],
                    ),
                    Piece::Text(_) => true,
                } by {
                    if t < done.len() {
                        assert(nd[t] == done[t]);
                        assert(nds[t] == ds[t]);
                    }
                }
            }
            assert(missing.deep_view() == missing_in(nd, vars@));
            assert(pieces(s@) == nd + pieces_from(s@, j + 2));
            done = nd;
            ds = nds;
        }
        assert(j + 2 <= s.len());
        k = j + 2;
    }
}

/// Adds each name of `new` that `acc` lacks, in order.
pub open spec fn merge_missing(acc: Seq<Seq<char>>, new: Seq<Seq<char>>) -> Seq<Seq<char>>
    decreases new.len(),
{
    if new.len() == 0 {
        acc
    } else {
        add_missing(merge_missing(acc, new.drop_last()), new.last())
    }
}

/// The undefined names of several texts, each once, in order.
pub open spec fn missing_across(texts: Seq<Seq<char>>, vars: Map<Seq<char>, Seq<char>>) -> Seq<
    Seq<char>,
>
    decreases texts.len(),
{
    if texts.len() == 0 {
        seq![]
    } else {
        merge_missing(missing_across(texts.drop_last(), vars), missing_names(texts.last(), vars))
    }
}

/// The keys and values of a table, in order.
pub open spec fn kv_texts(kvs: Seq<KvV>) -> Seq<Seq<char>>
    decreases kvs.len(),
{
    if kvs.len() == 0 {
        seq![]
    } else {
        kv_texts(kvs.drop_last()) + seq![kvs.last().key, kvs.last().value]
    }
}

pub open spec fn auth_texts(a: AuthV) -> Seq<Seq<char>> {
    match a {
        AuthV::Bearer { token } => seq![token],
        AuthV::Basic { username, password } => seq![username, password],
        AuthV::ApiKey { key, value, .. } => seq![key, value],
        AuthV::NoAuth => seq![],
    }
}

/// The texts of a request that placeholders are replaced in, in the order
/// they are processed.
pub open spec fn request_texts(r: RequestV) -> Seq<Seq<char>> {
    seq![r.url] + kv_texts(r.params) + kv_texts(r.headers) + kv_texts(r.form) + seq![
        r.body,
        r.graphql_variables,
    ] + auth_texts(r.auth)
}

pub open spec fn kvs_substituted(
    before: Seq<KvV>,
    vars: Map<Seq<char>, Seq<char>>,
    after: Seq<KvV>,
) -> bool {
    &&& after.len() == before.len()
    &&& forall|i: int|
        0 <= i < before.len() ==> {
            &&& (#[trigger] after[i]).enabled == before[i].enabled
            &&& is_substitution(before[i].key, vars, after[i].key)
            &&& is_substitution(before[i].value, vars, after[i].value)
        }
}

pub open spec fn auth_substituted(before: AuthV, vars: Map<Seq<char>, Seq<char>>, after: AuthV) -> bool {
    match (before, after) {
        (AuthV::NoAuth, AuthV::NoAuth) => true,
        (AuthV::Bearer { token: t0 }, AuthV::Bearer { token: t1 }) => is_substitution(t0, vars, t1),
        (
            AuthV::Basic { username: u0, password: p0 },
            AuthV::Basic { username: u1, password: p1 },
        ) => is_substitution(u0, vars, u1) && is_substitution(p0, vars, p1),
        (
            AuthV::ApiKey { key: k0, value: v0, in_query: q0 },
            AuthV::ApiKey { key: k1, value: v1, in_query: q1 },
        ) => q0 == q1 && is_substitution(k0, vars, k1) && is_substitution(v0, vars, v1),
        _ => false,
    }
}

/// `after` is `before` with the placeholders of every text replaced.
pub open spec fn request_substituted(
    before: RequestV,
    vars: Map<Seq<char>, Seq<char>>,
    after: RequestV,
) -> bool {
    &&& after.name == before.name
    &&& after.method == before.method
    &&& after.body_type == before.body_type
    &&& after.pinned == before.pinned
    &&& is_substitution(before.url, vars, after.url)
    &&& kvs_substituted(before.params, vars, after.params)
    &&& kvs_substituted(before.headers, vars, after.headers)
    &&& kvs_substituted(before.form, vars, after.form)
    &&& is_substitution(before.body, vars, after.body)
    &&& is_substitution(before.graphql_variables, vars, after.graphql_variables)
    &&& auth_substituted(before.auth, vars, after.auth)
}

/// Substitutes one text and adds its undefined names to `missing`.
fn apply(
    s: &String,
    vars: &VarMap,
    missing: &mut Vec<String>,
    Ghost(texts): Ghost<Seq<Seq<char>>>,
) -> (r: String)
    requires
        old(missing).deep_view() == missing_across(texts, vars@),
    ensures
        is_substitution(s@, vars@, r@),
        final(missing).deep_view() == missing_across(texts.push(s@), vars@),
{
    let res = substitute(s.as_str(), vars);
    let ghost acc = missing.deep_view();
    let ghost new = res.missing.deep_view();
    let mut i: usize = 0;
    while i < res.missing.len()
        invariant
            i <= res.missing@.len(),
            new == res.missing.deep_view(),
            missing.deep_view() == merge_missing(acc, new.take(i as int)),
        decreases res.missing.len() - i,
    {
        assert(new.take(i + 1).drop_last() == new.take(i as int));
        let ghost before = missing.deep_view();
        let m = &res.missing[i];
        if !contains_string(missing, m) {
            missing.push(m.clone());
            assert(missing.deep_view() =~= before.push(m@));
        }
        i += 1;
    }
    assert(new.take(new.len() as int) == new);
    assert(texts.push(s@).drop_last() == texts);
    res.output
}

/// Substitutes the keys and values of a table.
fn apply_kvs(
    kvs: &Vec<KeyValue>,
    vars: &VarMap,
    missing: &mut Vec<String>,
    Ghost(texts): Ghost<Seq<Seq<char>>>,
) -> (r: Vec<KeyValue>)
    requires
        old(missing).deep_view() == missing_across(texts, vars@),
    ensures
        kvs_substituted(kvs.deep_view(), vars@, r.deep_view()),
        final(missing).deep_view() == missing_across(texts + kv_texts(kvs.deep_view()), vars@),
{
    let mut r: Vec<KeyValue> = Vec::new();
    let mut i: usize = 0;
    while i < kvs.len()
        invariant
            i <= kvs@.len(),
            r@.len() == i,
            forall|t: int|
                0 <= t < i ==> {
                    &&& (#[trigger] r@[t]).enabled == kvs@[t].enabled
                    &&& is_substitution(kvs@[t].key@, vars@, r@[t].key@)
                    &&& is_substitution(kvs@[t].value@, vars@, r@[t].value@)
                },
            missing.deep_view() == missing_across(
                texts + kv_texts(kvs.deep_view().take(i as int)),
                vars@,
            ),
        decreases kvs.len() - i,
    {
        let ghost dv = kvs.deep_view();
        let ghost pre = texts + kv_texts(dv.take(i as int));
        assert(dv.take(i + 1).drop_last() == dv.take(i as int));
        assert(dv.take(i + 1).last() == kvs@[i as int]@);
        let kv = &kvs[i];
        let key = apply(&kv.key, vars, missing, Ghost(pre));
        let value = apply(&kv.value, vars, missing, Ghost(pre.push(kv.key@)));
        assert(texts + kv_texts(dv.take(i + 1)) == pre.push(kv.key@).push(kv.value@));
        r.push(KeyValue { enabled: kv.enabled, key, value });
        i += 1;
    }
    assert(kvs.deep_view().take(kvs@.len() as int) == kvs.deep_view());
    r
}

/// Substitutes every text of a request: URL, the keys and values of params,
/// headers and form fields, body, GraphQL variables and auth.  Returns the
/// new request (same id) and the undefined names across all its texts,
/// each once, in order.
pub fn substitute_request(req: &Request, vars: &VarMap) -> (r: (Request, Vec<String>))
    ensures
        r.0.id == req.id,
        request_substituted(req@, vars@, r.0@),
        r.1.deep_view() == missing_across(request_texts(req@), vars@),
{
    let mut missing: Vec<String> = Vec::new();
    let ghost t0: Seq<Seq<char>> = seq![];
    assert(missing.deep_view() =~= missing_across(t0, vars@));
    let url = apply(&req.url, vars, &mut missing, Ghost(t0));
    let ghost t1 = t0.push(req.url@);
    let params = apply_kvs(&req.params, vars, &mut missing, Ghost(t1));
    let ghost t2 = t1 + kv_texts(req.params.deep_view());
    let headers = apply_kvs(&req.headers, vars, &mut missing, Ghost(t2));
    let ghost t3 = t2 + kv_texts(req.headers.deep_view());
    let form = apply_kvs(&req.form, vars, &mut missing, Ghost(t3));
    let ghost t4 = t3 + kv_texts(req.form.deep_view());
    let body = apply(&req.body, vars, &mut missing, Ghost(t4));
    let ghost t5 = t4.push(req.body@);
    let graphql_variables = apply(&req.graphql_variables, vars, &mut missing, Ghost(t5));
    let ghost t6 = t5.push(req.graphql_variables@);
    let auth = match &req.auth {
        Auth::Bearer { token } => {
            let t = apply(token, vars, &mut missing, Ghost(t6));
            assert(t6.push(token@) == t6 + auth_texts(req.auth@));
            Auth::Bearer { token: t }
        },
        Auth::Basic { username, password } => {
            let u = apply(username, vars, &mut missing, Ghost(t6));
            let p = apply(password, vars, &mut missing, Ghost(t6.push(username@)));
            assert(t6.push(username@).push(password@) == t6 + auth_texts(req.auth@));
            Auth::Basic { username: u, password: p }
        },
        Auth::ApiKey { key, value, in_query } => {
            let k = apply(key, vars, &mut missing, Ghost(t6));
            let v = apply(value, vars, &mut missing, Ghost(t6.push(key@)));
            assert(t6.push(key@).push(value@) == t6 + auth_texts(req.auth@));
            Auth::ApiKey { key: k, value: v, in_query: *in_query }
        },
        Auth::NoAuth => {
            assert(t6 + auth_texts(req.auth@) == t6);
            Auth::NoAuth
        },
    };
    assert(request_texts(req@) == t6 + auth_texts(req.auth@));
    let out = Request {
        id: req.id,
        name: req.name.clone(),
        method: req.method,
        url,
        params,
        headers,
        body_type: req.body_type,
        body,
        graphql_variables,
        form,
        auth,
        pinned: req.pinned,
    };
    (out, missing)
}

} // verus!
