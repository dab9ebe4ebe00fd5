//! Importing a request from a curl command line: the words of the command
//! as a POSIX shell splits them (without expansions), then the options curl
//! takes (-X/-H/-d/--data-urlencode/-F/-u/-A/-e/-b/-G/--url; others skipped).
use vstd::prelude::*;

use crate::export::{curl_command, curl_parts, effective_headers_spec, enabled_pairs, sh_quote};
use crate::json::{json_compact, json_minify};
use crate::models::{
    Auth, AuthV, BodyType, HttpMethod, KeyValue, KvV, Request, RequestV, kv, method_from_name,
    method_name, method_named,
};
use crate::text::{
    cat, chars_of, contains, contains_exec, ends_with, ends_with_exec, eq_ignore_case,
    eq_ignore_case_exec, find_char, find_char_from, is_whitespace, is_ws, join, join_exec,
    lemma_find_char_bounds, lemma_replace_char_absent, lemma_replace_char_append,
    lemma_replace_char_one, lower,
    lower_exec, nonempty_parts, nonempty_parts_exec, owned,
    push_char, push_range, push_str, replace_char, split_once, split_once_exec, starts_with, starts_with_exec,
    str_eq, trim, trim_exec, upper, upper_exec,
};
use crate::url::{split_url, url_parts};

verus! {

/// The end of a single-quoted run starting at `i`: the closing quote's
/// position, or the end of the text.
pub open spec fn sq_end(s: Seq<char>, i: int) -> int {
    match find_char_from(s, i, '\'') {
        Some(j) => j,
        None => s.len() as int,
    }
}

/// A double-quoted run from `i` (after the opening quote): the position
/// after it and the word so far.  Inside, `\` escapes `"`, `\`, `$` and a
/// backquote, drops a newline, and stays before any other character.
pub open spec fn dq_scan(s: Seq<char>, i: int, cur: Seq<char>) -> (int, Seq<char>)
    decreases s.len() - i,
{
    if i < 0 || i >= s.len() {
        (s.len() as int, cur)
    } else if s[i] == '"' {
        (i + 1, cur)
    } else if s[i] == '\\' {
        if i + 1 >= s.len() {
            (s.len() as int, cur)
        } else {
            let e = s[i + 1];
            if e == '"' || e == '\\' || e == '$' || e == '`' {
                dq_scan(s, i + 2, cur.push(e))
            } else if e == '\n' {
                dq_scan(s, i + 2, cur)
            } else {
                dq_scan(s, i + 2, cur.push('\\').push(e))
            }
        }
    } else {
        dq_scan(s, i + 1, cur.push(s[i]))
    }
}

pub open spec fn ansi_escape(e: char) -> char {
    if e == 'n' {
        '\n'
    } else if e == 't' {
        '\t'
    } else if e == 'r' {
        '\r'
    } else {
        e
    }
}

/// An ANSI-C quoted run `$'…'` from `i` (after the opening quote): the
/// position after it and the word so far.  `\n`, `\t`, `\r` are control
/// characters; `\` before anything else keeps that character.
pub open spec fn ansi_scan(s: Seq<char>, i: int, cur: Seq<char>) -> (int, Seq<char>)
    decreases s.len() - i,
{
    if i < 0 || i >= s.len() {
        (s.len() as int, cur)
    } else if s[i] == '\'' {
        (i + 1, cur)
    } else if s[i] == '\\' {
        if i + 1 >= s.len() {
            (s.len() as int, cur)
        } else {
            ansi_scan(s, i + 2, cur.push(ansi_escape(s[i + 1])))
        }
    } else {
        ansi_scan(s, i + 1, cur.push(s[i]))
    }
}

pub proof fn lemma_dq_advances(s: Seq<char>, i: int, cur: Seq<char>)
    requires
        0 <= i,
    ensures
        i < dq_scan(s, i, cur).0 <= s.len() || (i >= s.len() && dq_scan(s, i, cur).0 == s.len()),
    decreases s.len() - i,
{
    if i < s.len() && s[i] != '"' {
        if s[i] == '\\' {
            if i + 1 < s.len() {
                let e = s[i + 1];
                if e == '"' || e == '\\' || e == '$' || e == '`' {
                    lemma_dq_advances(s, i + 2, cur.push(e));
                } else if e == '\n' {
                    lemma_dq_advances(s, i + 2, cur);
                } else {
                    lemma_dq_advances(s, i + 2, cur.push('\\').push(e));
                }
            }
        } else {
            lemma_dq_advances(s, i + 1, cur.push(s[i]));
        }
    }
}

pub proof fn lemma_ansi_advances(s: Seq<char>, i: int, cur: Seq<char>)
    requires
        0 <= i,
    ensures
        i < ansi_scan(s, i, cur).0 <= s.len() || (i >= s.len() && ansi_scan(s, i, cur).0
            == s.len()),
    decreases s.len() - i,
{
    if i < s.len() && s[i] != '\'' {
        if s[i] == '\\' {
            if i + 1 < s.len() {
                lemma_ansi_advances(s, i + 2, cur.push(ansi_escape(s[i + 1])));
            }
        } else {
            lemma_ansi_advances(s, i + 1, cur.push(s[i]));
        }
    }
}

/// The words of `s[i..]`, given the word in progress and the words so far.
pub open spec fn words_from(
    s: Seq<char>,
    i: int,
    cur: Seq<char>,
    in_word: bool,
    out: Seq<Seq<char>>,
) -> Seq<Seq<char>>
    decreases s.len() - i,
{
    if i < 0 || i >= s.len() {
        if in_word {
            out.push(cur)
        } else {
            out
        }
    } else {
        let c = s[i];
        if c == '\\' {
            if i + 1 >= s.len() {
                words_from(s, s.len() as int, cur, in_word, out)
            } else if s[i + 1] == '\n' {
                words_from(s, i + 2, cur, in_word, out)
            } else {
                words_from(s, i + 2, cur.push(s[i + 1]), true, out)
            }
        } else if c == '\'' {
            proof {
                lemma_find_char_bounds(s, i + 1, '\'');
            }
            let e = sq_end(s, i + 1);
            let next = if e < s.len() {
                e + 1
            } else {
                s.len() as int
            };
            words_from(s, next, cur + s.subrange(i + 1, e), true, out)
        } else if c == '"' {
            proof {
                lemma_dq_advances(s, i + 1, cur);
            }
            let r = dq_scan(s, i + 1, cur);
            words_from(s, r.0, r.1, true, out)
        } else if c == '$' && i + 1 < s.len() && s[i + 1] == '\'' {
            proof {
                lemma_ansi_advances(s, i + 2, cur);
            }
            let r = ansi_scan(s, i + 2, cur);
            words_from(s, r.0, r.1, true, out)
        } else if is_ws(c) {
            if in_word {
                words_from(s, i + 1, seq![], false, out.push(cur))
            } else {
                words_from(s, i + 1, cur, false, out)
            }
        } else {
            words_from(s, i + 1, cur.push(c), true, out)
        }
    }
}

/// The words of a command line as a POSIX shell splits them: whitespace
/// separates words; single quotes, double quotes and `$'…'` quote; `\`
/// escapes the next character and a `\` before a newline continues the line.
pub open spec fn shell_split(s: Seq<char>) -> Seq<Seq<char>> {
    words_from(s, 0, seq![], false, seq![])
}

/// Where the single-quoted run that starts at an opening quote of
/// `sh_quote(s)` ends, `k` characters of `s` having been read: the run holds
/// `s[k..kp]`, `kp` being the next quote of `s` or its end.
#[verifier::rlimit(40)]
proof fn lemma_quoted_layout(s: Seq<char>, k: int) -> (kp: int)
    requires
        0 <= k <= s.len(),
        k == 0 || s[k - 1] == '\'',
    ensures
        k <= kp <= s.len(),
        ({
            let t = sh_quote(s);
            let r = "'\\''"@;
            let i0 = replace_char(s.subrange(0, k), '\'', r).len() as int;
            let e = i0 + 1 + (kp - k);
            &&& 0 <= i0 < e < t.len()
            &&& t[i0] == '\''
            &&& sq_end(t, i0 + 1) == e
            &&& t.subrange(i0 + 1, e) == s.subrange(k, kp)
            &&& kp == s.len() ==> e == t.len() - 1
            &&& kp < s.len() ==> {
                &&& e + 2 < t.len()
                &&& t[e + 1] == '\\'
                &&& t[e + 2] == '\''
                &&& replace_char(s.subrange(0, kp + 1), '\'', r).len() == e + 3
                &&& s.subrange(0, kp + 1) == s.subrange(0, kp).push('\'')
            }
        }),
{
    reveal_strlit("'");
    reveal_strlit("'\\''");
    let r = "'\\''"@;
    let q = "'"@;
    let t = sh_quote(s);
    let a = s.subrange(0, k);
    let qa = replace_char(a, '\'', r);
    let i0 = qa.len() as int;
    lemma_find_char_bounds(s, k, '\'');
    let kp = match find_char_from(s, k, '\'') {
        Some(j) => j,
        None => s.len() as int,
    };
    let mid = s.subrange(k, kp);
    let rest = s.subrange(kp, s.len() as int);
    let qrest = replace_char(rest, '\'', r);
    assert(s =~= (a + mid) + rest);
    lemma_replace_char_append(a + mid, rest, '\'', r);
    lemma_replace_char_append(a, mid, '\'', r);
    lemma_replace_char_absent(mid, '\'', r);
    let pre = q + qa;
    let post = qrest + q;
    assert(t =~= pre + mid + post);
    let e = i0 + 1 + mid.len();
    assert(pre.len() == i0 + 1);
    // the opening quote closes `pre`
    if k > 0 {
        assert(a.drop_last() + seq![a.last()] =~= a);
        assert(qa == replace_char(a.drop_last(), '\'', r) + r);
        assert(pre[i0] == '\'');
    } else {
        assert(pre[i0] == '\'');
    }
    assert(t[i0] == pre[i0]);
    assert forall|j: int| i0 + 1 <= j < e implies t[j] == mid[j - i0 - 1] && t[j] != '\'' by {
    }
    assert(t[e] == post[0]);
    if kp < s.len() {
        let tail = rest.subrange(1, rest.len() as int);
        assert(rest =~= seq!['\''] + tail);
        lemma_replace_char_append(seq!['\''], tail, '\'', r);
        lemma_replace_char_one('\'', r);
        assert(post =~= r + (replace_char(tail, '\'', r) + q));
        assert(t[e + 1] == post[1]);
        assert(t[e + 2] == post[2]);
        let a2 = s.subrange(0, kp + 1);
        assert(a2 =~= (a + mid) + seq!['\'']);
        lemma_replace_char_append(a + mid, seq!['\''], '\'', r);
        assert(s.subrange(0, kp).push('\'') =~= a2);
    } else {
        assert(qrest =~= Seq::<char>::empty());
    }
    lemma_find_char_bounds(t, i0 + 1, '\'');
    assert(t.subrange(i0 + 1, e) =~= mid);
    kp
}

/// `lemma_quoted_layout` for `sh_quote(s)` standing at position
/// `pre.len()` of a longer text.
proof fn lemma_quoted_layout_in(pre: Seq<char>, s: Seq<char>, post: Seq<char>, k: int) -> (kp: int)
    requires
        0 <= k <= s.len(),
        k == 0 || s[k - 1] == '\'',
    ensures
        k <= kp <= s.len(),
        ({
            let sq = sh_quote(s);
            let t = pre + sq + post;
            let r = "'\\''"@;
            let i0 = (pre.len() + replace_char(s.subrange(0, k), '\'', r).len()) as int;
            let e = i0 + 1 + (kp - k);
            &&& pre.len() <= i0 < e < pre.len() + sq.len()
            &&& t[i0] == '\''
            &&& sq_end(t, i0 + 1) == e
            &&& t.subrange(i0 + 1, e) == s.subrange(k, kp)
            &&& kp == s.len() ==> e == pre.len() + sq.len() - 1
            &&& kp < s.len() ==> {
                &&& e + 2 < pre.len() + sq.len()
                &&& t[e + 1] == '\\'
                &&& t[e + 2] == '\''
                &&& pre.len() + replace_char(s.subrange(0, kp + 1), '\'', r).len() == e + 3
                &&& s.subrange(0, kp + 1) == s.subrange(0, kp).push('\'')
            }
        }),
{
    let sq = sh_quote(s);
    let t = pre + sq + post;
    let o = pre.len() as int;
    let kp = lemma_quoted_layout(s, k);
    let r = "'\\''"@;
    let j0 = replace_char(s.subrange(0, k), '\'', r).len() as int;
    let f = j0 + 1 + (kp - k);
    assert forall|j: int| 0 <= j < sq.len() implies t[o + j] == sq[j] by {}
    lemma_find_char_bounds(sq, j0 + 1, '\'');
    assert forall|j: int| o + j0 + 1 <= j < o + f implies t[j] != '\'' by {
        assert(t[j] == sq[j - o]);
    }
    assert(t[o + f] == '\'');
    lemma_find_char_bounds(t, o + j0 + 1, '\'');
    assert(t.subrange(o + j0 + 1, o + f) =~= sq.subrange(j0 + 1, f));
    if kp < s.len() {
        assert(t[o + f + 1] == sq[f + 1]);
        assert(t[o + f + 2] == sq[f + 2]);
    }
    kp
}

/// Reading a quoted text from one of its opening quotes, within a longer
/// text: `k` characters of `s` have been read, and the next character
/// opens a single-quoted run.  The word ends up holding `s`, and reading
/// goes on right after the quoted text.
proof fn lemma_quoted_read_in(
    pre: Seq<char>,
    s: Seq<char>,
    post: Seq<char>,
    k: int,
    w: bool,
    out: Seq<Seq<char>>,
)
    requires
        0 <= k <= s.len(),
        k == 0 || s[k - 1] == '\'',
    ensures
        words_from(
            pre + sh_quote(s) + post,
            (pre.len() + replace_char(s.subrange(0, k), '\'', "'\\''"@).len()) as int,
            s.subrange(0, k),
            w,
            out,
        ) == words_from(
            pre + sh_quote(s) + post,
            (pre.len() + sh_quote(s).len()) as int,
            s,
            true,
            out,
        ),
    decreases s.len() - k,
{
    let t = pre + sh_quote(s) + post;
    let r = "'\\''"@;
    let a = s.subrange(0, k);
    let i0 = (pre.len() + replace_char(a, '\'', r).len()) as int;
    let kp = lemma_quoted_layout_in(pre, s, post, k);
    let e = i0 + 1 + (kp - k);
    let a1 = a + s.subrange(k, kp);
    assert(a1 =~= s.subrange(0, kp));
    assert(words_from(t, i0, a, w, out) == words_from(t, e + 1, a1, true, out));
    if kp < s.len() {
        lemma_quoted_read_in(pre, s, post, kp + 1, true, out);
        assert(words_from(t, e + 1, a1, true, out) == words_from(
            t,
            e + 3,
            s.subrange(0, kp + 1),
            true,
            out,
        ));
    } else {
        assert(a1 =~= s);
    }
}

/// A text quoted for the shell, as exported curl commands quote each
/// argument, reads back as one word: the text itself.
pub proof fn law_shell_quote_reads_back(s: Seq<char>)
    ensures
        shell_split(sh_quote(s)) == seq![s],
{
    let e = Seq::<char>::empty();
    lemma_quoted_read_in(e, s, e, 0, false, seq![]);
    assert(s.subrange(0, 0) =~= e);
    assert(e + sh_quote(s) + e =~= sh_quote(s));
}

/// The words, each quoted for the shell, separated by single spaces.
pub open spec fn quoted_line(ws: Seq<Seq<char>>) -> Seq<char> {
    join(ws.map_values(|w: Seq<char>| sh_quote(w)), " "@)
}

/// Joining splits at any word boundary.
proof fn lemma_join_split(q: Seq<Seq<char>>, m: int, sep: Seq<char>)
    requires
        0 < m < q.len(),
    ensures
        join(q, sep) == join(q.take(m), sep) + sep + join(q.skip(m), sep),
    decreases q.len(),
{
    let d = q.drop_last();
    if m == q.len() - 1 {
        assert(q.take(m) =~= d);
        assert(q.skip(m) =~= seq![q.last()]);
    } else {
        lemma_join_split(d, m, sep);
        assert(d.take(m) =~= q.take(m));
        let tail = q.skip(m);
        assert(tail.len() >= 2);
        assert(tail.drop_last() =~= d.skip(m));
        assert(tail.last() == q.last());
        assert(join(tail, sep) == join(tail.drop_last(), sep) + sep + tail.last());
        assert(join(q, sep) == join(d, sep) + sep + q.last());
        assert(join(q.take(m), sep) + sep + join(d.skip(m), sep) + sep + q.last() =~= join(
            q.take(m),
            sep,
        ) + sep + (join(d.skip(m), sep) + sep + q.last()));
    }
}

/// Where the `k`-th quoted word of a line starts.
spec fn line_start(q: Seq<Seq<char>>, k: int) -> int {
    if k == 0 {
        0
    } else {
        (join(q.take(k), " "@).len() + 1) as int
    }
}

/// The line around its `k`-th quoted word.
proof fn lemma_line_around(q: Seq<Seq<char>>, k: int)
    requires
        0 <= k < q.len(),
    ensures
        ({
            let t = join(q, " "@);
            let pre = t.subrange(0, line_start(q, k));
            let post = t.subrange(line_start(q, k) + q[k].len(), t.len() as int);
            &&& line_start(q, k) + q[k].len() <= t.len()
            &&& t == pre + q[k] + post
            &&& k + 1 < q.len() ==> post.len() > 0 && post[0] == ' ' && line_start(q, k + 1)
                == line_start(q, k) + q[k].len() + 1
            &&& k + 1 == q.len() ==> post.len() == 0
        }),
{
    reveal_strlit(" ");
    let sp = " "@;
    let t = join(q, sp);
    let upto = q.take(k + 1);
    // the line up to and including word `k`
    let u = join(upto, sp);
    assert(upto.drop_last() =~= q.take(k));
    assert(upto.last() == q[k]);
    if k == 0 {
        assert(u == q[0]);
    } else {
        assert(u == join(q.take(k), sp) + sp + q[k]);
    }
    assert(u.len() == line_start(q, k) + q[k].len());
    if k + 1 < q.len() {
        lemma_join_split(q, k + 1, sp);
        let rest = sp + join(q.skip(k + 1), sp);
        assert(t == u + rest);
        assert(t.subrange(0, line_start(q, k)) + q[k] =~= u) by {
            if k == 0 {
            } else {
                assert(t.subrange(0, line_start(q, k)) =~= join(q.take(k), sp) + sp);
            }
        }
        assert(t.subrange(line_start(q, k) + q[k].len(), t.len() as int) =~= rest);
        assert(t =~= t.subrange(0, line_start(q, k)) + q[k] + rest);
    } else {
        assert(upto =~= q);
        assert(t.subrange(0, line_start(q, k)) + q[k] =~= u) by {
            if k == 0 {
            } else {
                assert(t.subrange(0, line_start(q, k)) =~= join(q.take(k), sp) + sp);
            }
        }
        assert(t =~= t.subrange(0, line_start(q, k)) + q[k] + Seq::<char>::empty());
    }
}

/// Reading a line of quoted words from its `k`-th word on.
proof fn lemma_line_read(ws: Seq<Seq<char>>, k: int)
    requires
        0 <= k < ws.len(),
    ensures
        words_from(
            quoted_line(ws),
            line_start(ws.map_values(|w: Seq<char>| sh_quote(w)), k),
            seq![],
            false,
            ws.take(k),
        ) == ws,
    decreases ws.len() - k,
{
    let q = ws.map_values(|w: Seq<char>| sh_quote(w));
    let t = quoted_line(ws);
    lemma_line_around(q, k);
    let p = line_start(q, k);
    let pre = t.subrange(0, p);
    let post = t.subrange(p + q[k].len(), t.len() as int);
    assert(q[k] == sh_quote(ws[k]));
    assert(pre.len() == p);
    lemma_quoted_read_in(pre, ws[k], post, 0, false, ws.take(k));
    assert(ws[k].subrange(0, 0) =~= Seq::<char>::empty());
    assert(replace_char(Seq::<char>::empty(), '\'', "'\\''"@).len() == 0);
    let next = p + q[k].len();
    // after the word: the end of the line, or a space and the next word
    assert(words_from(t, p, seq![], false, ws.take(k)) == words_from(t, next, ws[k], true, ws.take(k)));
    assert(ws.take(k).push(ws[k]) =~= ws.take(k + 1));
    if k + 1 < ws.len() {
        assert(t[next] == post[0]);
        assert(is_ws(t[next]));
        lemma_line_read(ws, k + 1);
    } else {
        assert(next == t.len());
        assert(ws.take(k + 1) =~= ws);
    }
}

/// Quoting each word for the shell and separating them by spaces gives a
/// line whose words are those words: what the exported curl commands
/// quote, the importer reads back word for word.
pub proof fn law_quoted_line_reads_back(ws: Seq<Seq<char>>)
    ensures
        shell_split(quoted_line(ws)) == ws,
{
    if ws.len() == 0 {
        assert(ws.map_values(|w: Seq<char>| sh_quote(w)) =~= Seq::<Seq<char>>::empty());
        assert(quoted_line(ws) == Seq::<char>::empty());
        assert(ws =~= Seq::<Seq<char>>::empty());
    } else {
        lemma_line_read(ws, 0);
        assert(ws.take(0) =~= Seq::<Seq<char>>::empty());
    }
}

/// The first whitespace position at or after `k`, or the end.
pub open spec fn next_ws(s: Seq<char>, k: int) -> int
    decreases s.len() - k,
{
    if k < 0 || k >= s.len() {
        s.len() as int
    } else if is_ws(s[k]) {
        k
    } else {
        next_ws(s, k + 1)
    }
}

pub proof fn lemma_next_ws(s: Seq<char>, k: int)
    requires
        0 <= k <= s.len(),
    ensures
        k <= next_ws(s, k) <= s.len(),
        next_ws(s, k) < s.len() ==> is_ws(s[next_ws(s, k)]),
        forall|j: int| k <= j < next_ws(s, k) ==> !is_ws(#[trigger] s[j]),
    decreases s.len() - k,
{
    if k < s.len() && !is_ws(s[k]) {
        lemma_next_ws(s, k + 1);
    }
}

/// The pieces of `s[k..]` between whitespace, empty pieces left out
/// (`str::split_whitespace`).
pub open spec fn ws_parts_from(s: Seq<char>, k: int) -> Seq<Seq<char>>
    decreases s.len() - k,
{
    if k < 0 || k >= s.len() {
        seq![]
    } else if is_ws(s[k]) {
        ws_parts_from(s, k + 1)
    } else {
        proof {
            lemma_next_ws(s, k);
        }
        let j = next_ws(s, k);
        seq![s.subrange(k, j)] + ws_parts_from(s, j)
    }
}

pub open spec fn split_whitespace(s: Seq<char>) -> Seq<Seq<char>> {
    ws_parts_from(s, 0)
}

/// A text without backslashes or quotes.
pub open spec fn unquoted(s: Seq<char>) -> bool {
    forall|i: int| 0 <= i < s.len() ==> #[trigger] s[i] != '\\' && s[i] != '\'' && s[i] != '"'
}

/// Reading the rest of a word of unquoted text.
proof fn lemma_plain_word(s: Seq<char>, i: int, cur: Seq<char>, w: bool, out: Seq<Seq<char>>)
    requires
        unquoted(s),
        0 <= i < next_ws(s, i),
        next_ws(s, i) <= s.len(),
        forall|j: int| i <= j < next_ws(s, i) ==> !is_ws(#[trigger] s[j]),
    ensures
        words_from(s, i, cur, w, out) == words_from(
            s,
            next_ws(s, i),
            cur + s.subrange(i, next_ws(s, i)),
            true,
            out,
        ),
    decreases s.len() - i,
{
    let j = next_ws(s, i);
    let c = s[i];
    assert(c != '\\' && c != '\'' && c != '"');
    if i + 1 < j {
        assert(next_ws(s, i + 1) == j);
        lemma_plain_word(s, i + 1, cur.push(c), true, out);
        assert(cur.push(c) + s.subrange(i + 1, j) =~= cur + s.subrange(i, j));
    } else {
        assert(cur.push(c) =~= cur + s.subrange(i, j));
    }
}

/// Reading unquoted text from a position between words.
proof fn lemma_plain_words(s: Seq<char>, k: int, out: Seq<Seq<char>>)
    requires
        unquoted(s),
        0 <= k <= s.len(),
    ensures
        words_from(s, k, seq![], false, out) == out + ws_parts_from(s, k),
    decreases s.len() - k,
{
    if k == s.len() {
        assert(out + Seq::<Seq<char>>::empty() =~= out);
    } else if is_ws(s[k]) {
        assert(s[k] != '\\' && s[k] != '\'' && s[k] != '"');
        lemma_plain_words(s, k + 1, out);
    } else {
        lemma_next_ws(s, k);
        let j = next_ws(s, k);
        lemma_plain_word(s, k, seq![], false, out);
        let word = s.subrange(k, j);
        assert(Seq::<char>::empty() + word =~= word);
        if j == s.len() {
            assert(out + seq![word] + Seq::<Seq<char>>::empty() =~= out.push(word));
            assert(ws_parts_from(s, k) == seq![word] + ws_parts_from(s, j));
        } else {
            assert(s[j] != '\\' && s[j] != '\'' && s[j] != '"');
            lemma_plain_words(s, j + 1, out.push(word));
            assert(ws_parts_from(s, j) == ws_parts_from(s, j + 1));
            assert(out.push(word) + ws_parts_from(s, j + 1) =~= out + (seq![word] + ws_parts_from(
                s,
                j,
            )));
        }
    }
}

/// Text without backslashes or quotes splits on whitespace only: its words
/// are those of `str::split_whitespace`.
pub proof fn law_unquoted_splits_on_whitespace(s: Seq<char>)
    requires
        unquoted(s),
    ensures
        shell_split(s) == split_whitespace(s),
{
    lemma_plain_words(s, 0, seq![]);
    assert(Seq::<Seq<char>>::empty() + ws_parts_from(s, 0) =~= ws_parts_from(s, 0));
}

/// The words of a command line (see `shell_split`).
pub fn shell_words(text: &str) -> (r: Vec<String>)
    ensures
        r.deep_view() == shell_split(text@),
{
    let s = chars_of(text);
    let n = s.len();
    let mut out: Vec<String> = Vec::new();
    let mut cur = String::new();
    let mut in_word = false;
    let mut i: usize = 0;
    assert(out.deep_view() =~= Seq::<Seq<char>>::empty());
    while i < n
        invariant
            n == s@.len(),
            s@ == text@,
            i <= n,
            shell_split(text@) == words_from(s@, i as int, cur@, in_word, out.deep_view()),
        decreases n - i,
    {
        let c = s[i];
        if c == '\\' {
            if i + 1 >= n {
                i = n;
            } else if s[i + 1] == '\n' {
                i = i + 2;
            } else {
                push_char(&mut cur, s[i + 1]);
                in_word = true;
                i = i + 2;
            }
        } else if c == '\'' {
            proof {
                lemma_find_char_bounds(s@, i + 1, '\'');
            }
            let e = match find_char(s.as_slice(), i + 1, '\'') {
                Some(j) => j,
                None => n,
            };
            push_range(&mut cur, s.as_slice(), i + 1, e);
            in_word = true;
            i = if e < n {
                e + 1
            } else {
                n
            };
        } else if c == '"' {
            let ghost start = i + 1;
            let ghost cur0 = cur@;
            proof {
                lemma_dq_advances(s@, i + 1, cur@);
            }
            let mut j = i + 1;
            loop
                invariant_except_break
                    dq_scan(s@, start, cur0) == dq_scan(s@, j as int, cur@),
                invariant
                    n == s@.len(),
                    start <= j <= n,
                ensures
                    dq_scan(s@, start, cur0) == (j as int, cur@),
                decreases n - j,
            {
                if j >= n {
                    break;
                }
                let d = s[j];
                if d == '"' {
                    j = j + 1;
                    break;
                } else if d == '\\' {
                    if j + 1 >= n {
                        j = n;
                        break;
                    }
                    let e = s[j + 1];
                    if e == '"' || e == '\\' || e == '$' || e == '`' {
                        push_char(&mut cur, e);
                    } else if e == '\n' {
                    } else {
                        push_char(&mut cur, '\\');
                        push_char(&mut cur, e);
                    }
                    j = j + 2;
                } else {
                    push_char(&mut cur, d);
                    j = j + 1;
                }
            }
            assert(dq_scan(s@, start, cur0) == (j as int, cur@));
            in_word = true;
            i = j;
        } else if c == '$' && i + 1 < n && s[i + 1] == '\'' {
            let ghost start = i + 2;
            let ghost cur0 = cur@;
            let mut j = i + 2;
            loop
                invariant_except_break
                    ansi_scan(s@, start, cur0) == ansi_scan(s@, j as int, cur@),
                invariant
                    n == s@.len(),
                    start <= j <= n,
                ensures
                    ansi_scan(s@, start, cur0) == (j as int, cur@),
                decreases n - j,
            {
                if j >= n {
                    break;
                }
                let d = s[j];
                if d == '\'' {
                    j = j + 1;
                    break;
                } else if d == '\\' {
                    if j + 1 >= n {
                        j = n;
                        break;
                    }
                    let e = s[j + 1];
                    let x = if e == 'n' {
                        '\n'
                    } else if e == 't' {
                        '\t'
                    } else if e == 'r' {
                        '\r'
                    } else {
                        e
                    };
                    push_char(&mut cur, x);
                    j = j + 2;
                } else {
                    push_char(&mut cur, d);
                    j = j + 1;
                }
            }
            assert(ansi_scan(s@, start, cur0) == (j as int, cur@));
            in_word = true;
            i = j;
        } else if is_whitespace(c) {
            if in_word {
                let ghost before = out.deep_view();
                let w = cur;
                cur = String::new();
                out.push(w);
                assert(out.deep_view() =~= before.push(w@));
                in_word = false;
            }
            i = i + 1;
        } else {
            push_char(&mut cur, c);
            in_word = true;
            i = i + 1;
        }
    }
    if in_word {
        let ghost before = out.deep_view();
        out.push(cur);
        assert(out.deep_view() =~= before.push(cur@));
    }
    out
}


/// The message for an option given without its value.
pub open spec fn needs_value(flag: Seq<char>) -> Seq<char> {
    "`"@ + flag + "` needs a value"@
}

pub open spec fn unsupported_method(s: Seq<char>) -> Seq<char> {
    "Unsupported method `"@ + s + "`"@
}

/// A method name, in any case.
pub open spec fn parse_method_spec(s: Seq<char>) -> Result<HttpMethod, Seq<char>> {
    match method_named(upper(s)) {
        Some(m) => Ok(m),
        None => Err(unsupported_method(s)),
    }
}

/// A method is read in any case: a word whose upper case is a method's
/// name is that method, and any other word is refused with a message that
/// quotes it.
pub proof fn law_method_any_case(s: Seq<char>, m: HttpMethod)
    ensures
        upper(s) == method_name(m) ==> parse_method_spec(s) == Ok::<HttpMethod, Seq<char>>(m),
        (forall|k: HttpMethod| upper(s) != #[trigger] method_name(k)) ==> parse_method_spec(s)
            == Err::<HttpMethod, Seq<char>>(unsupported_method(s)),
{
    crate::models::law_method_name_roundtrip(m);
    if let Some(k) = method_named(upper(s)) {
        assert(upper(s) == method_name(k));
    }
}

pub fn parse_method(s: &str) -> (r: Result<HttpMethod, String>)
    ensures
        match r {
            Ok(m) => parse_method_spec(s@) == Ok::<HttpMethod, Seq<char>>(m),
            Err(e) => parse_method_spec(s@) == Err::<HttpMethod, Seq<char>>(e@),
        },
{
    let up = upper_exec(s);
    match method_from_name(up.as_str()) {
        Some(m) => Ok(m),
        None => {
            let mut e = owned("Unsupported method `");
            push_str(&mut e, s);
            push_str(&mut e, "`");
            Err(e)
        },
    }
}

/// `k=v` as a row; without `=`, the whole text is the key.
pub open spec fn split_kv(s: Seq<char>) -> KvV {
    match split_once(s, '=') {
        Some((k, v)) => kv(k, v),
        None => kv(s, seq![]),
    }
}

fn split_kv_exec(s: &str) -> (r: KeyValue)
    ensures
        r@ == split_kv(s@),
{
    match split_once_exec(s, '=') {
        Some((k, v)) => KeyValue::new(k.as_str(), v.as_str()),
        None => {
            let r = KeyValue::new(s, "");
            proof {
                reveal_strlit("");
                assert(""@ =~= Seq::<char>::empty());
            }
            r
        },
    }
}

pub open spec fn is_method_flag(w: Seq<char>) -> bool {
    w == "-X"@ || w == "--request"@
}

pub open spec fn is_header_flag(w: Seq<char>) -> bool {
    w == "-H"@ || w == "--header"@
}

pub open spec fn is_data_flag(w: Seq<char>) -> bool {
    w == "-d"@ || w == "--data"@ || w == "--data-raw"@ || w == "--data-binary"@ || w
        == "--data-ascii"@ || w == "--json"@
}

pub open spec fn is_form_flag(w: Seq<char>) -> bool {
    w == "--data-urlencode"@ || w == "-F"@ || w == "--form"@ || w == "--form-string"@
}

pub open spec fn is_user_flag(w: Seq<char>) -> bool {
    w == "-u"@ || w == "--user"@
}

/// The header that an option sets: `-A` User-Agent, `-e` Referer,
/// `-b` Cookie.
pub open spec fn header_option(w: Seq<char>) -> Option<Seq<char>> {
    if w == "-A"@ || w == "--user-agent"@ {
        Some("User-Agent"@)
    } else if w == "-e"@ || w == "--referer"@ {
        Some("Referer"@)
    } else if w == "-b"@ || w == "--cookie"@ {
        Some("Cookie"@)
    } else {
        None
    }
}

pub open spec fn is_get_flag(w: Seq<char>) -> bool {
    w == "-G"@ || w == "--get"@
}

/// Options that take a value that the import does not use.
pub open spec fn takes_ignored_value(w: Seq<char>) -> bool {
    ||| w == "-o"@
    ||| w == "--output"@
    ||| w == "-m"@
    ||| w == "--max-time"@
    ||| w == "--connect-timeout"@
    ||| w == "-w"@
    ||| w == "--write-out"@
    ||| w == "-x"@
    ||| w == "--proxy"@
    ||| w == "--retry"@
    ||| w == "-T"@
    ||| w == "--upload-file"@
    ||| w == "-c"@
    ||| w == "--cookie-jar"@
    ||| w == "--cacert"@
    ||| w == "--cert"@
    ||| w == "-E"@
    ||| w == "--key"@
    ||| w == "--resolve"@
    ||| w == "--interface"@
    ||| w == "--max-redirs"@
    ||| w == "-K"@
    ||| w == "--config"@
    ||| w == "--limit-rate"@
    ||| w == "-D"@
    ||| w == "--dump-header"@
}

fn is_method_flag_exec(w: &str) -> (r: bool)
    ensures
        r == is_method_flag(w@),
{
    str_eq(w, "-X") || str_eq(w, "--request")
}

fn is_header_flag_exec(w: &str) -> (r: bool)
    ensures
        r == is_header_flag(w@),
{
    str_eq(w, "-H") || str_eq(w, "--header")
}

fn is_data_flag_exec(w: &str) -> (r: bool)
    ensures
        r == is_data_flag(w@),
{
    str_eq(w, "-d") || str_eq(w, "--data") || str_eq(w, "--data-raw") || str_eq(
        w,
        "--data-binary",
    ) || str_eq(w, "--data-ascii") || str_eq(w, "--json")
}

fn is_form_flag_exec(w: &str) -> (r: bool)
    ensures
        r == is_form_flag(w@),
{
    str_eq(w, "--data-urlencode") || str_eq(w, "-F") || str_eq(w, "--form") || str_eq(
        w,
        "--form-string",
    )
}

fn is_user_flag_exec(w: &str) -> (r: bool)
    ensures
        r == is_user_flag(w@),
{
    str_eq(w, "-u") || str_eq(w, "--user")
}

fn header_option_exec(w: &str) -> (r: Option<&'static str>)
    ensures
        match r {
            Some(h) => header_option(w@) == Some(h@),
            None => header_option(w@) is None,
        },
{
    if str_eq(w, "-A") || str_eq(w, "--user-agent") {
        Some("User-Agent")
    } else if str_eq(w, "-e") || str_eq(w, "--referer") {
        Some("Referer")
    } else if str_eq(w, "-b") || str_eq(w, "--cookie") {
        Some("Cookie")
    } else {
        None
    }
}

fn is_get_flag_exec(w: &str) -> (r: bool)
    ensures
        r == is_get_flag(w@),
{
    str_eq(w, "-G") || str_eq(w, "--get")
}

fn takes_ignored_value_exec(w: &str) -> (r: bool)
    ensures
        r == takes_ignored_value(w@),
{
    str_eq(w, "-o") || str_eq(w, "--output") || str_eq(w, "-m") || str_eq(w, "--max-time")
        || str_eq(w, "--connect-timeout") || str_eq(w, "-w") || str_eq(w, "--write-out") || str_eq(
        w,
        "-x",
    ) || str_eq(w, "--proxy") || str_eq(w, "--retry") || str_eq(w, "-T") || str_eq(
        w,
        "--upload-file",
    ) || str_eq(w, "-c") || str_eq(w, "--cookie-jar") || str_eq(w, "--cacert") || str_eq(
        w,
        "--cert",
    ) || str_eq(w, "-E") || str_eq(w, "--key") || str_eq(w, "--resolve") || str_eq(
        w,
        "--interface",
    ) || str_eq(w, "--max-redirs") || str_eq(w, "-K") || str_eq(w, "--config") || str_eq(
        w,
        "--limit-rate",
    ) || str_eq(w, "-D") || str_eq(w, "--dump-header")
}

/// What the options of a curl command set.
pub struct CurlOpts {
    pub method: Option<HttpMethod>,
    pub url: Option<Seq<char>>,
    pub user: Option<Seq<char>>,
    pub data: Seq<Seq<char>>,
    pub form: Seq<KvV>,
    pub headers: Seq<KvV>,
    pub as_get: bool,
}

/// The options from word `i` on, applied to `st`; an option that needs a
/// value and has none, or an unknown method, is an error.
pub open spec fn opts_from(ws: Seq<Seq<char>>, i: int, st: CurlOpts) -> Result<CurlOpts, Seq<char>>
    decreases ws.len() - i,
{
    if i < 1 || i >= ws.len() {
        Ok(st)
    } else {
        let w = ws[i];
        let has_val = i + 1 < ws.len();
        let v = ws[i + 1];
        if is_method_flag(w) {
            if !has_val {
                Err(needs_value(w))
            } else {
                match parse_method_spec(v) {
                    Ok(m) => opts_from(ws, i + 2, CurlOpts { method: Some(m), ..st }),
                    Err(e) => Err(e),
                }
            }
        } else if starts_with(w, "-X"@) && w.len() > 2 {
            match parse_method_spec(w.skip(2)) {
                Ok(m) => opts_from(ws, i + 1, CurlOpts { method: Some(m), ..st }),
                Err(e) => Err(e),
            }
        } else if is_header_flag(w) {
            if !has_val {
                Err(needs_value(w))
            } else {
                let hs = match split_once(v, ':') {
                    Some((k, x)) => st.headers.push(kv(trim(k), trim(x))),
                    None => st.headers,
                };
                opts_from(ws, i + 2, CurlOpts { headers: hs, ..st })
            }
        } else if is_data_flag(w) {
            if !has_val {
                Err(needs_value(w))
            } else {
                let hs = if w == "--json"@ {
                    st.headers.push(kv("Content-Type"@, "application/json"@))
                } else {
                    st.headers
                };
                opts_from(ws, i + 2, CurlOpts { headers: hs, data: st.data.push(v), ..st })
            }
        } else if is_form_flag(w) {
            if !has_val {
                Err(needs_value(w))
            } else {
                opts_from(ws, i + 2, CurlOpts { form: st.form.push(split_kv(v)), ..st })
            }
        } else if is_user_flag(w) {
            if !has_val {
                Err(needs_value(w))
            } else {
                opts_from(ws, i + 2, CurlOpts { user: Some(v), ..st })
            }
        } else if w == "--url"@ {
            if !has_val {
                Err(needs_value(w))
            } else {
                opts_from(ws, i + 2, CurlOpts { url: Some(v), ..st })
            }
        } else if header_option(w) is Some {
            if !has_val {
                Err(needs_value(w))
            } else {
                opts_from(
                    ws,
                    i + 2,
                    CurlOpts { headers: st.headers.push(kv(header_option(w)->0, v)), ..st },
                )
            }
        } else if is_get_flag(w) {
            opts_from(ws, i + 1, CurlOpts { as_get: true, ..st })
        } else if takes_ignored_value(w) {
            if !has_val {
                Err(needs_value(w))
            } else {
                opts_from(ws, i + 2, st)
            }
        } else if starts_with(w, "-"@) && w.len() > 1 {
            opts_from(ws, i + 1, st)
        } else {
            opts_from(ws, i + 1, CurlOpts { url: if st.url is None { Some(w) } else { st.url }, ..st })
        }
    }
}

pub open spec fn no_opts() -> CurlOpts {
    CurlOpts {
        method: None,
        url: None,
        user: None,
        data: seq![],
        form: seq![],
        headers: seq![],
        as_get: false,
    }
}

/// The first word names curl.
pub open spec fn is_curl_word(w: Seq<char>) -> bool {
    w == "curl"@ || ends_with(w, "/curl"@) || w == "curl.exe"@
}

/// The position of the first header named `name` (in any case), from `i`.
pub open spec fn first_header(hs: Seq<KvV>, name: Seq<char>, i: int) -> Option<int>
    decreases hs.len() - i,
{
    if i < 0 || i >= hs.len() {
        None
    } else if eq_ignore_case(hs[i].key, name) {
        Some(i)
    } else {
        first_header(hs, name, i + 1)
    }
}

/// The headers without those named `name` (in any case).
pub open spec fn without_header(hs: Seq<KvV>, name: Seq<char>) -> Seq<KvV>
    decreases hs.len(),
{
    if hs.len() == 0 {
        seq![]
    } else {
        let r = without_header(hs.drop_last(), name);
        if eq_ignore_case(hs.last().key, name) {
            r
        } else {
            r.push(hs.last())
        }
    }
}

/// The auth of an imported command, and its headers after: `-u user:pass`
/// is Basic auth; otherwise an `Authorization: Bearer …` header (the first
/// Authorization header) becomes Bearer auth and is removed.
pub open spec fn import_auth(user: Option<Seq<char>>, hs: Seq<KvV>) -> (AuthV, Seq<KvV>) {
    match user {
        Some(u) => (
            match split_once(u, ':') {
                Some((n, p)) => AuthV::Basic { username: n, password: p },
                None => AuthV::Basic { username: u, password: seq![] },
            },
            hs,
        ),
        None => match first_header(hs, "authorization"@, 0) {
            Some(i) => if starts_with(hs[i].value, "Bearer "@) {
                (AuthV::Bearer { token: trim(hs[i].value.skip("Bearer "@.len() as int)) }, hs.remove(i))
            } else {
                (AuthV::NoAuth, hs)
            },
            None => (AuthV::NoAuth, hs),
        },
    }
}

/// What the data and form options become.
pub struct ImportedBody {
    pub body_type: BodyType,
    pub body: Seq<char>,
    pub form: Seq<KvV>,
    pub params: Seq<KvV>,
    pub headers: Seq<KvV>,
}

/// The rows of `k=v&…` data, empty pieces left out.
pub open spec fn data_rows(joined: Seq<char>) -> Seq<KvV> {
    nonempty_parts(joined, '&').map_values(|p: Seq<char>| split_kv(p))
}

/// With `-G` the data goes to the query; with form options the body is a
/// form (data rows after the form fields); otherwise data that is JSON
/// (`data_is_json`, of the data joined with `&`) is a JSON body (its
/// Content-Type header dropped), data under a form-urlencoded Content-Type
/// is a form, and any other data is text.
pub open spec fn import_body(
    as_get: bool,
    form: Seq<KvV>,
    data: Seq<Seq<char>>,
    params: Seq<KvV>,
    headers: Seq<KvV>,
    data_is_json: bool,
) -> ImportedBody {
    let joined = join(data, "&"@);
    let rows = data_rows(joined);
    let ct = match first_header(headers, "content-type"@, 0) {
        Some(i) => lower(headers[i].value),
        None => seq![],
    };
    if as_get {
        ImportedBody {
            body_type: BodyType::NoBody,
            body: seq![],
            form: seq![],
            params: params + rows + form,
            headers,
        }
    } else if form.len() > 0 {
        ImportedBody { body_type: BodyType::Form, body: seq![], form: form + rows, params, headers }
    } else if joined.len() > 0 {
        if data_is_json {
            ImportedBody {
                body_type: BodyType::Json,
                body: joined,
                form: seq![],
                params,
                headers: without_header(headers, "content-type"@),
            }
        } else if contains(ct, "x-www-form-urlencoded"@) {
            ImportedBody { body_type: BodyType::Form, body: seq![], form: rows, params, headers }
        } else {
            ImportedBody { body_type: BodyType::Text, body: joined, form: seq![], params, headers }
        }
    } else {
        ImportedBody { body_type: BodyType::NoBody, body: seq![], form: seq![], params, headers }
    }
}

/// With `-G` nothing is sent as a body: the URL's query pairs stay first,
/// and every data row and every form field (`--data-urlencode`, `-F`)
/// becomes a query param, in the order given, after them.
pub proof fn law_get_flag_moves_fields_to_params(
    form: Seq<KvV>,
    data: Seq<Seq<char>>,
    params: Seq<KvV>,
    headers: Seq<KvV>,
    data_is_json: bool,
)
    ensures
        ({
            let b = import_body(true, form, data, params, headers, data_is_json);
            let rows = data_rows(join(data, "&"@));
            &&& b.body_type == BodyType::NoBody
            &&& b.body.len() == 0
            &&& b.form.len() == 0
            &&& b.headers == headers
            &&& b.params.len() == params.len() + rows.len() + form.len()
            &&& forall|i: int| 0 <= i < params.len() ==> #[trigger] b.params[i] == params[i]
            &&& forall|i: int|
                0 <= i < rows.len() ==> #[trigger] b.params[params.len() + i] == rows[i]
            &&& forall|i: int|
                0 <= i < form.len() ==> #[trigger] b.params[params.len() + rows.len() + i]
                    == form[i]
        }),
{
}

/// The URL to parse: given a scheme, as it is, else under `http://`.
pub open spec fn with_scheme(raw: Seq<char>) -> Seq<char> {
    if contains(raw, "://"@) {
        raw
    } else {
        "http://"@ + raw
    }
}

pub open spec fn not_curl_message() -> Seq<char> {
    "Not a curl command — it should start with `curl`"@
}

pub open spec fn no_url_message() -> Seq<char> {
    "No URL found in the command"@
}

pub open spec fn invalid_url_message(raw: Seq<char>, e: Seq<char>) -> Seq<char> {
    "Invalid URL `"@ + raw + "`: "@ + e
}

/// The request that the options describe, given the parts of its URL (see
/// `url_parts`) and whether the data is JSON: the query pairs are the
/// params, the auth and body come from the options, and without `-X` a
/// request with a body is a POST, else a GET.  It is named after its method
/// and path.
pub open spec fn assembled(
    st: CurlOpts,
    base: Seq<char>,
    pairs: Seq<(Seq<char>, Seq<char>)>,
    path: Seq<char>,
    data_is_json: bool,
) -> RequestV {
    let params0 = pairs.map_values(|p: (Seq<char>, Seq<char>)| kv(p.0, p.1));
    let (auth, hs) = import_auth(st.user, st.headers);
    let b = import_body(st.as_get, st.form, st.data, params0, hs, data_is_json);
    let m = match st.method {
        Some(m) => m,
        None => if b.body_type == BodyType::NoBody {
            HttpMethod::Get
        } else {
            HttpMethod::Post
        },
    };
    RequestV {
        name: method_name(m) + " "@ + path,
        method: m,
        url: base,
        params: b.params,
        headers: b.headers,
        body_type: b.body_type,
        body: b.body,
        graphql_variables: seq![],
        form: b.form,
        auth,
        pinned: false,
    }
}

/// The request that a curl command describes, or why it describes none.
pub open spec fn curl_import(text: Seq<char>) -> Result<RequestV, Seq<char>> {
    let ws = shell_split(text);
    if ws.len() == 0 || !is_curl_word(ws[0]) {
        Err(not_curl_message())
    } else {
        match opts_from(ws, 1, no_opts()) {
            Err(e) => Err(e),
            Ok(st) => match st.url {
                None => Err(no_url_message()),
                Some(raw0) => {
                    let raw = with_scheme(raw0);
                    match url_parts(raw) {
                        Err(e) => Err(invalid_url_message(raw, e)),
                        Ok((base, pairs, path)) => Ok(
                            assembled(
                                st,
                                base,
                                pairs,
                                path,
                                json_compact(join(st.data, "&"@)) is Some,
                            ),
                        ),
                    }
                },
            },
        }
    }
}

pub open spec fn opt_view(o: Option<String>) -> Option<Seq<char>> {
    match o {
        Some(s) => Some(s@),
        None => None,
    }
}

/// The first header named `name` (in any case).
fn first_header_exec(hs: &Vec<KeyValue>, name: &str) -> (r: Option<usize>)
    ensures
        match r {
            Some(i) => i < hs@.len() && first_header(hs.deep_view(), name@, 0) == Some(i as int),
            None => first_header(hs.deep_view(), name@, 0) is None,
        },
{
    let mut i: usize = 0;
    while i < hs.len()
        invariant
            i <= hs@.len(),
            first_header(hs.deep_view(), name@, 0) == first_header(hs.deep_view(), name@, i as int),
        decreases hs.len() - i,
    {
        if eq_ignore_case_exec(hs[i].key.as_str(), name) {
            return Some(i);
        }
        i += 1;
    }
    None
}

/// The headers without those named `name` (in any case).
pub(crate) fn without_header_exec(hs: Vec<KeyValue>, name: &str) -> (r: Vec<KeyValue>)
    ensures
        r.deep_view() == without_header(hs.deep_view(), name@),
{
    let mut r: Vec<KeyValue> = Vec::new();
    let mut i: usize = 0;
    while i < hs.len()
        invariant
            i <= hs@.len(),
            r.deep_view() == without_header(hs.deep_view().take(i as int), name@),
        decreases hs.len() - i,
    {
        let ghost dv = hs.deep_view();
        assert(dv.take(i + 1).drop_last() == dv.take(i as int));
        if !eq_ignore_case_exec(hs[i].key.as_str(), name) {
            let ghost before = r.deep_view();
            r.push(crate::models::copy_kv(&hs[i]));
            assert(r.deep_view() =~= before.push(hs[i as int]@));
        }
        i += 1;
    }
    assert(hs.deep_view().take(hs@.len() as int) == hs.deep_view());
    r
}

fn import_auth_exec(user: Option<String>, hs: Vec<KeyValue>) -> (r: (Auth, Vec<KeyValue>))
    ensures
        (r.0@, r.1.deep_view()) == import_auth(opt_view(user), hs.deep_view()),
{
    match user {
        Some(u) => {
            let a = match split_once_exec(u.as_str(), ':') {
                Some((n, p)) => Auth::Basic { username: n, password: p },
                None => Auth::Basic { username: u, password: String::new() },
            };
            (a, hs)
        },
        None => {
            let mut hs = hs;
            match first_header_exec(&hs, "authorization") {
                Some(i) => {
                    if starts_with_exec(hs[i].value.as_str(), "Bearer ") {
                        proof {
                            reveal_strlit("Bearer ");
                        }
                        let v = chars_of(hs[i].value.as_str());
                        let mut rest = String::new();
                        push_range(&mut rest, v.as_slice(), 7, v.len());
                        assert(rest@ == hs[i as int].value@.skip(7));
                        let token = trim_exec(rest.as_str());
                        let ghost before = hs.deep_view();
                        hs.remove(i);
                        assert(hs.deep_view() =~= before.remove(i as int));
                        (Auth::Bearer { token }, hs)
                    } else {
                        (Auth::NoAuth, hs)
                    }
                },
                None => (Auth::NoAuth, hs),
            }
        },
    }
}

/// The rows of `k=v&…` data.
fn data_rows_exec(joined: &str) -> (r: Vec<KeyValue>)
    ensures
        r.deep_view() == data_rows(joined@),
{
    let parts = nonempty_parts_exec(joined, '&');
    let mut r: Vec<KeyValue> = Vec::new();
    let mut i: usize = 0;
    while i < parts.len()
        invariant
            i <= parts@.len(),
            parts.deep_view() == nonempty_parts(joined@, '&'),
            r@.len() == i,
            forall|t: int| 0 <= t < i ==> #[trigger] r@[t]@ == split_kv(parts@[t]@),
        decreases parts.len() - i,
    {
        r.push(split_kv_exec(parts[i].as_str()));
        i += 1;
    }
    assert(r.deep_view() =~= data_rows(joined@)) by {
        assert forall|t: int| 0 <= t < r@.len() implies r.deep_view()[t] == data_rows(joined@)[t] by {
            assert(parts.deep_view()[t] == parts@[t]@);
        }
    }
    r
}

/// `a` followed by `b`.
fn append_kvs(a: &mut Vec<KeyValue>, b: Vec<KeyValue>)
    ensures
        final(a).deep_view() == old(a).deep_view() + b.deep_view(),
{
    let mut b = b;
    let ghost a0 = a.deep_view();
    let ghost b0 = b.deep_view();
    a.append(&mut b);
    assert(a.deep_view() =~= a0 + b0);
}

fn import_body_exec(
    as_get: bool,
    form: Vec<KeyValue>,
    data: &Vec<String>,
    params: Vec<KeyValue>,
    headers: Vec<KeyValue>,
    data_is_json: bool,
) -> (r: (BodyType, String, Vec<KeyValue>, Vec<KeyValue>, Vec<KeyValue>))
    ensures
        ({
            let b = import_body(
                as_get,
                form.deep_view(),
                data.deep_view(),
                params.deep_view(),
                headers.deep_view(),
                data_is_json,
            );
            &&& r.0 == b.body_type
            &&& r.1@ == b.body
            &&& r.2.deep_view() == b.form
            &&& r.3.deep_view() == b.params
            &&& r.4.deep_view() == b.headers
        }),
{
    let joined = join_exec(data, "&");
    let rows = data_rows_exec(joined.as_str());
    let ct = match first_header_exec(&headers, "content-type") {
        Some(i) => lower_exec(headers[i].value.as_str()),
        None => String::new(),
    };
    let mut params = params;
    if as_get {
        append_kvs(&mut params, rows);
        append_kvs(&mut params, form);
        let r = (BodyType::NoBody, String::new(), Vec::new(), params, headers);
        assert(r.2.deep_view() =~= Seq::<KvV>::empty());
        r
    } else if form.len() > 0 {
        let mut form = form;
        append_kvs(&mut form, rows);
        (BodyType::Form, String::new(), form, params, headers)
    } else if !joined.as_str().is_empty() {
        if data_is_json {
            let hs = without_header_exec(headers, "content-type");
            let r = (BodyType::Json, joined, Vec::new(), params, hs);
            assert(r.2.deep_view() =~= Seq::<KvV>::empty());
            r
        } else if contains_exec(ct.as_str(), "x-www-form-urlencoded") {
            (BodyType::Form, String::new(), rows, params, headers)
        } else {
            let r = (BodyType::Text, joined, Vec::new(), params, headers);
            assert(r.2.deep_view() =~= Seq::<KvV>::empty());
            r
        }
    } else {
        let r = (BodyType::NoBody, String::new(), Vec::new(), params, headers);
        assert(r.2.deep_view() =~= Seq::<KvV>::empty());
        r
    }
}

/// The options of a curl command, as read (see `CurlOpts`).
pub struct CurlOptions {
    pub method: Option<HttpMethod>,
    pub url: Option<String>,
    pub user: Option<String>,
    pub data: Vec<String>,
    pub form: Vec<KeyValue>,
    pub headers: Vec<KeyValue>,
    pub as_get: bool,
}

impl View for CurlOptions {
    type V = CurlOpts;

    open spec fn view(&self) -> CurlOpts {
        CurlOpts {
            method: self.method,
            url: opt_view(self.url),
            user: opt_view(self.user),
            data: self.data.deep_view(),
            form: self.form.deep_view(),
            headers: self.headers.deep_view(),
            as_get: self.as_get,
        }
    }
}

/// The request that the options describe, given the parts of its URL and
/// whether the data is JSON (see `assembled`).
pub fn assemble_request(
    opts: CurlOptions,
    base: String,
    pairs: Vec<(String, String)>,
    path: String,
    data_is_json: bool,
) -> (r: Request)
    ensures
        r@ == assembled(opts@, base@, pairs.deep_view(), path@, data_is_json),
{
    let ghost st = opts@;
    let mut params: Vec<KeyValue> = Vec::new();
    let mut k: usize = 0;
    while k < pairs.len()
        invariant
            k <= pairs@.len(),
            params@.len() == k,
            forall|t: int| 0 <= t < k ==> #[trigger] params@[t]@ == kv(pairs@[t].0@, pairs@[t].1@),
        decreases pairs.len() - k,
    {
        params.push(KeyValue::new(pairs[k].0.as_str(), pairs[k].1.as_str()));
        k += 1;
    }
    assert(params.deep_view() =~= pairs.deep_view().map_values(
        |p: (Seq<char>, Seq<char>)| kv(p.0, p.1),
    ));
    let CurlOptions { method, url: _, user, data, form, headers, as_get } = opts;
    let (auth, hs) = import_auth_exec(user, headers);
    let (body_type, body, form_rows, params, hs) = import_body_exec(
        as_get,
        form,
        &data,
        params,
        hs,
        data_is_json,
    );
    let m = match method {
        Some(m) => m,
        None => if body_type == BodyType::NoBody {
            HttpMethod::Get
        } else {
            HttpMethod::Post
        },
    };
    let mut name = owned(m.as_str());
    push_str(&mut name, " ");
    push_str(&mut name, path.as_str());
    Request {
        id: crate::models::new_id(),
        name,
        method: m,
        url: base,
        params,
        headers: hs,
        body_type,
        body,
        graphql_variables: String::new(),
        form: form_rows,
        auth,
        pinned: false,
    }
}

/// The message for an option given without its value.
fn needs_value_exec(flag: &str) -> (r: String)
    ensures
        r@ == needs_value(flag@),
{
    let mut e = owned("`");
    push_str(&mut e, flag);
    push_str(&mut e, "` needs a value");
    e
}

/// Imports a curl command as a request.  Quotes, `\` line continuations
/// and `$'…'` are understood; -X/--request, -H/--header,
/// -d/--data/--data-raw/--data-binary/--data-ascii/--json,
/// --data-urlencode/-F/--form/--form-string, -u/--user, --url,
/// -A/--user-agent, -e/--referer, -b/--cookie and -G/--get are read, the
/// values of options like -o are skipped and other options are ignored.
/// The URL's query becomes the params.
pub fn from_curl(text: &str) -> (r: Result<Request, String>)
    ensures
        match r {
            Ok(req) => curl_import(text@) == Ok::<RequestV, Seq<char>>(req@),
            Err(e) => curl_import(text@) == Err::<RequestV, Seq<char>>(e@),
        },
{
    let ws = shell_words(text);
    let ghost wsv = ws.deep_view();
    if ws.len() == 0 || !(str_eq(ws[0].as_str(), "curl") || ends_with_exec(ws[0].as_str(), "/curl")
        || str_eq(ws[0].as_str(), "curl.exe")) {
        return Err(owned("Not a curl command — it should start with `curl`"));
    }
    assert(wsv[0] == ws@[0]@);
    let mut method: Option<HttpMethod> = None;
    let mut url: Option<String> = None;
    let mut user: Option<String> = None;
    let mut data: Vec<String> = Vec::new();
    let mut form: Vec<KeyValue> = Vec::new();
    let mut headers: Vec<KeyValue> = Vec::new();
    let mut as_get = false;
    let mut i: usize = 1;
    assert(data.deep_view() =~= Seq::<Seq<char>>::empty());
    assert(form.deep_view() =~= Seq::<KvV>::empty());
    assert(headers.deep_view() =~= Seq::<KvV>::empty());
    while i < ws.len()
        invariant
            wsv == ws.deep_view(),
            wsv == shell_split(text@),
            wsv.len() > 0 && is_curl_word(wsv[0]),
            1 <= i <= ws@.len(),
            opts_from(wsv, 1, no_opts()) == opts_from(
                wsv,
                i as int,
                CurlOpts {
                    method,
                    url: opt_view(url),
                    user: opt_view(user),
                    data: data.deep_view(),
                    form: form.deep_view(),
                    headers: headers.deep_view(),
                    as_get,
                },
            ),
        decreases ws.len() - i,
    {
        let w = ws[i].as_str();
        assert(wsv[i as int] == w@);
        let has_val = i + 1 < ws.len();
        proof {
            if has_val {
                assert(wsv[i + 1] == ws@[i + 1]@);
            }
        }
        let ghost dv = data.deep_view();
        let ghost fv = form.deep_view();
        let ghost hv = headers.deep_view();
        if is_method_flag_exec(w) {
            if !has_val {
                return Err(needs_value_exec(w));
            }
            match parse_method(ws[i + 1].as_str()) {
                Ok(m) => method = Some(m),
                Err(e) => return Err(e),
            }
            i = i + 2;
        } else if starts_with_exec(w, "-X") && chars_of(w).len() > 2 {
            proof {
                reveal_strlit("-X");
            }
            let v = chars_of(w);
            let mut rest = String::new();
            push_range(&mut rest, v.as_slice(), 2, v.len());
            assert(rest@ == w@.skip(2));
            match parse_method(rest.as_str()) {
                Ok(m) => method = Some(m),
                Err(e) => return Err(e),
            }
            i = i + 1;
        } else if is_header_flag_exec(w) {
            if !has_val {
                return Err(needs_value_exec(w));
            }
            match split_once_exec(ws[i + 1].as_str(), ':') {
                Some((k, x)) => {
                    headers.push(KeyValue::new(trim_exec(k.as_str()).as_str(), trim_exec(x.as_str()).as_str()));
                    assert(headers.deep_view() =~= hv.push(kv(trim(k@), trim(x@))));
                },
                None => {},
            }
            i = i + 2;
        } else if is_data_flag_exec(w) {
            if !has_val {
                return Err(needs_value_exec(w));
            }
            if str_eq(w, "--json") {
                headers.push(KeyValue::new("Content-Type", "application/json"));
                assert(headers.deep_view() =~= hv.push(kv("Content-Type"@, "application/json"@)));
            }
            data.push(ws[i + 1].clone());
            assert(data.deep_view() =~= dv.push(wsv[i + 1]));
            i = i + 2;
        } else if is_form_flag_exec(w) {
            if !has_val {
                return Err(needs_value_exec(w));
            }
            form.push(split_kv_exec(ws[i + 1].as_str()));
            assert(form.deep_view() =~= fv.push(split_kv(wsv[i + 1])));
            i = i + 2;
        } else if is_user_flag_exec(w) {
            if !has_val {
                return Err(needs_value_exec(w));
            }
            user = Some(ws[i + 1].clone());
            i = i + 2;
        } else if str_eq(w, "--url") {
            if !has_val {
                return Err(needs_value_exec(w));
            }
            url = Some(ws[i + 1].clone());
            i = i + 2;
        } else if let Some(h) = header_option_exec(w) {
            if !has_val {
                return Err(needs_value_exec(w));
            }
            headers.push(KeyValue::new(h, ws[i + 1].as_str()));
            assert(headers.deep_view() =~= hv.push(kv(h@, wsv[i + 1])));
            i = i + 2;
        } else if is_get_flag_exec(w) {
            as_get = true;
            i = i + 1;
        } else if takes_ignored_value_exec(w) {
            if !has_val {
                return Err(needs_value_exec(w));
            }
            i = i + 2;
        } else if starts_with_exec(w, "-") && chars_of(w).len() > 1 {
            i = i + 1;
        } else {
            if url.is_none() {
                url = Some(ws[i].clone());
            }
            i = i + 1;
        }
    }
    let opts = CurlOptions { method, url, user, data, form, headers, as_get };
    let raw0 = match &opts.url {
        Some(u) => u.clone(),
        None => return Err(owned("No URL found in the command")),
    };
    let raw = if contains_exec(raw0.as_str(), "://") {
        raw0
    } else {
        cat("http://", raw0.as_str())
    };
    let (base, pairs, path) = match split_url(raw.as_str()) {
        Ok(parts) => parts,
        Err(e) => {
            let mut m = owned("Invalid URL `");
            push_str(&mut m, raw.as_str());
            push_str(&mut m, "`: ");
            push_str(&mut m, e.as_str());
            return Err(m);
        },
    };
    let joined = join_exec(&opts.data, "&");
    let data_is_json = json_minify(joined.as_str()).is_some();
    Ok(assemble_request(opts, base, pairs, path, data_is_json))
}

/// A word that does not start with `-` is no option.
proof fn lemma_not_option(w: Seq<char>)
    requires
        w.len() > 0,
        w[0] != '-',
    ensures
        !is_method_flag(w),
        !(starts_with(w, "-X"@) && w.len() > 2),
        !is_header_flag(w),
        !is_data_flag(w),
        !is_form_flag(w),
        !is_user_flag(w),
        w != "--url"@,
        header_option(w) is None,
        !is_get_flag(w),
        !takes_ignored_value(w),
        !(starts_with(w, "-"@) && w.len() > 1),
{
    reveal_strlit("--cacert");
    assert("--cacert"@[0] == '-');
    reveal_strlit("--cert");
    assert("--cert"@[0] == '-');
    reveal_strlit("--config");
    assert("--config"@[0] == '-');
    reveal_strlit("--connect-timeout");
    assert("--connect-timeout"@[0] == '-');
    reveal_strlit("--cookie");
    assert("--cookie"@[0] == '-');
    reveal_strlit("--cookie-jar");
    assert("--cookie-jar"@[0] == '-');
    reveal_strlit("--data");
    assert("--data"@[0] == '-');
    reveal_strlit("--data-ascii");
    assert("--data-ascii"@[0] == '-');
    reveal_strlit("--data-binary");
    assert("--data-binary"@[0] == '-');
    reveal_strlit("--data-raw");
    assert("--data-raw"@[0] == '-');
    reveal_strlit("--data-urlencode");
    assert("--data-urlencode"@[0] == '-');
    reveal_strlit("--dump-header");
    assert("--dump-header"@[0] == '-');
    reveal_strlit("--form");
    assert("--form"@[0] == '-');
    reveal_strlit("--form-string");
    assert("--form-string"@[0] == '-');
    reveal_strlit("--get");
    assert("--get"@[0] == '-');
    reveal_strlit("--header");
    assert("--header"@[0] == '-');
    reveal_strlit("--interface");
    assert("--interface"@[0] == '-');
    reveal_strlit("--json");
    assert("--json"@[0] == '-');
    reveal_strlit("--key");
    assert("--key"@[0] == '-');
    reveal_strlit("--limit-rate");
    assert("--limit-rate"@[0] == '-');
    reveal_strlit("--max-redirs");
    assert("--max-redirs"@[0] == '-');
    reveal_strlit("--max-time");
    assert("--max-time"@[0] == '-');
    reveal_strlit("--output");
    assert("--output"@[0] == '-');
    reveal_strlit("--proxy");
    assert("--proxy"@[0] == '-');
    reveal_strlit("--referer");
    assert("--referer"@[0] == '-');
    reveal_strlit("--request");
    assert("--request"@[0] == '-');
    reveal_strlit("--resolve");
    assert("--resolve"@[0] == '-');
    reveal_strlit("--retry");
    assert("--retry"@[0] == '-');
    reveal_strlit("--upload-file");
    assert("--upload-file"@[0] == '-');
    reveal_strlit("--user");
    assert("--user"@[0] == '-');
    reveal_strlit("--user-agent");
    assert("--user-agent"@[0] == '-');
    reveal_strlit("--write-out");
    assert("--write-out"@[0] == '-');
    reveal_strlit("-A");
    assert("-A"@[0] == '-');
    reveal_strlit("-D");
    assert("-D"@[0] == '-');
    reveal_strlit("-E");
    assert("-E"@[0] == '-');
    reveal_strlit("-F");
    assert("-F"@[0] == '-');
    reveal_strlit("-G");
    assert("-G"@[0] == '-');
    reveal_strlit("-H");
    assert("-H"@[0] == '-');
    reveal_strlit("-K");
    assert("-K"@[0] == '-');
    reveal_strlit("-T");
    assert("-T"@[0] == '-');
    reveal_strlit("-X");
    assert("-X"@[0] == '-');
    reveal_strlit("-b");
    assert("-b"@[0] == '-');
    reveal_strlit("-c");
    assert("-c"@[0] == '-');
    reveal_strlit("-d");
    assert("-d"@[0] == '-');
    reveal_strlit("-e");
    assert("-e"@[0] == '-');
    reveal_strlit("-m");
    assert("-m"@[0] == '-');
    reveal_strlit("-o");
    assert("-o"@[0] == '-');
    reveal_strlit("-u");
    assert("-u"@[0] == '-');
    reveal_strlit("-w");
    assert("-w"@[0] == '-');
    reveal_strlit("-x");
    assert("-x"@[0] == '-');
    reveal_strlit("--url");
    assert("--url"@[0] == '-');
    reveal_strlit("-");
    assert("-"@[0] == '-');
    if starts_with(w, "-X"@) {
        assert(w.take(2)[0] == w[0]);
    }
    if starts_with(w, "-"@) {
        assert(w.take(1)[0] == w[0]);
    }
}

/// Reading a run of plain characters up to whitespace or the end.
proof fn lemma_plain_run(s: Seq<char>, i: int, e: int, cur: Seq<char>, w: bool, out: Seq<Seq<char>>)
    requires
        0 <= i < e <= s.len(),
        forall|j: int|
            i <= j < e ==> !is_ws(#[trigger] s[j]) && s[j] != '\\' && s[j] != '\'' && s[j] != '"',
        e == s.len() || is_ws(s[e]),
    ensures
        words_from(s, i, cur, w, out) == words_from(s, e, cur + s.subrange(i, e), true, out),
    decreases e - i,
{
    let c = s[i];
    if i + 1 < s.len() {
        assert(s[i + 1] != '\'');
    }
    if i + 1 < e {
        lemma_plain_run(s, i + 1, e, cur.push(c), true, out);
        assert(cur.push(c) + s.subrange(i + 1, e) =~= cur + s.subrange(i, e));
    } else {
        assert(cur.push(c) =~= cur + s.subrange(i, e));
    }
}

/// A method's name is upper-case letters, at least three.
proof fn lemma_method_name_letters(m: HttpMethod)
    ensures
        method_name(m).len() >= 3,
        forall|j: int|
            0 <= j < method_name(m).len() ==> 'A' <= #[trigger] method_name(m)[j] <= 'Z',
{
    reveal_strlit("GET");
    reveal_strlit("POST");
    reveal_strlit("PUT");
    reveal_strlit("DELETE");
    reveal_strlit("PATCH");
    reveal_strlit("HEAD");
    reveal_strlit("OPTIONS");
}

/// A request without auth, body or headers, exported as a curl command for
/// a URL that has a scheme and does not start with `-`, imports back as a
/// request with the same method, the URL's parts as the importer reads
/// them (see `url_parts`), and nothing else; a URL that does not parse is
/// refused as the importer refuses it.
pub proof fn law_exported_curl_imports_back(r: RequestV, u: Seq<char>)
    requires
        r.auth == AuthV::NoAuth,
        r.body_type == BodyType::NoBody,
        r.headers.len() == 0,
        contains(u, "://"@),
        u[0] != '-',
    ensures
        curl_import(curl_command(r, u)) == match url_parts(u) {
            Ok((base, pairs, path)) => Ok::<RequestV, Seq<char>>(
                RequestV {
                    name: method_name(r.method) + " "@ + path,
                    method: r.method,
                    url: base,
                    params: pairs.map_values(|p: (Seq<char>, Seq<char>)| kv(p.0, p.1)),
                    headers: seq![],
                    body_type: BodyType::NoBody,
                    body: seq![],
                    graphql_variables: seq![],
                    form: seq![],
                    auth: AuthV::NoAuth,
                    pinned: false,
                },
            ),
            Err(e) => Err::<RequestV, Seq<char>>(invalid_url_message(u, e)),
        },
{
    let ws = lemma_exported_words(r, u);
    lemma_exported_options(r, u, ws);
}

/// The words of the exported command: `curl`, `-X`, the method, the URL.
proof fn lemma_exported_words(r: RequestV, u: Seq<char>) -> (ws: Seq<Seq<char>>)
    requires
        r.auth == AuthV::NoAuth,
        r.body_type == BodyType::NoBody,
        r.headers.len() == 0,
        contains(u, "://"@),
    ensures
        ws == shell_split(curl_command(r, u)),
        ws == seq!["curl"@, "-X"@, method_name(r.method), u],
{
    reveal_strlit("curl -X ");
    reveal_strlit(" \\\n  ");
    reveal_strlit("curl");
    reveal_strlit("-X");
    let mn = method_name(r.method);
    lemma_method_name_letters(r.method);
    let sep = " \\\n  "@;
    assert(enabled_pairs(r.headers) == Seq::<(Seq<char>, Seq<char>)>::empty());
    assert(effective_headers_spec(r) == Seq::<(Seq<char>, Seq<char>)>::empty());
    let parts = curl_parts(r, u);
    assert(parts =~= seq!["curl -X "@ + mn, sh_quote(u)]);
    assert(parts.drop_last() =~= seq!["curl -X "@ + mn]);
    let t = curl_command(r, u);
    assert(t == join(parts.drop_last(), sep) + sep + parts.last());
    let pre = "curl -X "@ + mn + sep;
    let sq = sh_quote(u);
    assert(t =~= pre + sq + Seq::<char>::empty());
    let k = mn.len() as int;
    assert(pre.len() == 13 + k);
    assert forall|j: int| 0 <= j < pre.len() implies t[j] == pre[j] by {}
    assert forall|j: int| 8 <= j < 8 + k implies pre[j] == mn[j - 8] by {}
    let e0 = Seq::<Seq<char>>::empty();
    let w1 = t.subrange(0, 4);
    let w2 = t.subrange(5, 7);
    let w3 = t.subrange(8, 8 + k);
    assert(w1 =~= "curl"@);
    assert(w2 =~= "-X"@);
    assert(w3 =~= mn);
    lemma_plain_run(t, 0, 4, seq![], false, e0);
    assert(Seq::<char>::empty() + w1 =~= w1);
    let o1 = e0.push(w1);
    assert(words_from(t, 4, w1, true, e0) == words_from(t, 5, seq![], false, o1));
    lemma_plain_run(t, 5, 7, seq![], false, o1);
    assert(Seq::<char>::empty() + w2 =~= w2);
    let o2 = o1.push(w2);
    assert(words_from(t, 7, w2, true, o1) == words_from(t, 8, seq![], false, o2));
    assert forall|j: int| 8 <= j < 8 + k implies !is_ws(#[trigger] t[j]) && t[j] != '\\' && t[j]
        != '\'' && t[j] != '"' by {
        assert(t[j] == mn[j - 8]);
    }
    lemma_plain_run(t, 8, 8 + k, seq![], false, o2);
    assert(Seq::<char>::empty() + w3 =~= w3);
    let o3 = o2.push(w3);
    assert(words_from(t, 8 + k, w3, true, o2) == words_from(t, 9 + k, seq![], false, o3));
    assert(words_from(t, 9 + k, seq![], false, o3) == words_from(t, 11 + k, seq![], false, o3));
    assert(words_from(t, 11 + k, seq![], false, o3) == words_from(t, 12 + k, seq![], false, o3));
    assert(words_from(t, 12 + k, seq![], false, o3) == words_from(t, 13 + k, seq![], false, o3));
    let e = Seq::<char>::empty();
    lemma_quoted_read_in(pre, u, e, 0, false, o3);
    assert(u.subrange(0, 0) =~= e);
    assert(replace_char(e, '\'', "'\\''"@) == e);
    assert(words_from(t, t.len() as int, u, true, o3) == o3.push(u));
    assert(o3.push(u) =~= seq!["curl"@, "-X"@, mn, u]);
    o3.push(u)
}

/// The options of the exported command's words.
proof fn lemma_exported_options(r: RequestV, u: Seq<char>, ws: Seq<Seq<char>>)
    requires
        r.auth == AuthV::NoAuth,
        r.body_type == BodyType::NoBody,
        r.headers.len() == 0,
        contains(u, "://"@),
        u[0] != '-',
        ws == shell_split(curl_command(r, u)),
        ws == seq!["curl"@, "-X"@, method_name(r.method), u],
    ensures
        curl_import(curl_command(r, u)) == match url_parts(u) {
            Ok((base, pairs, path)) => Ok::<RequestV, Seq<char>>(
                RequestV {
                    name: method_name(r.method) + " "@ + path,
                    method: r.method,
                    url: base,
                    params: pairs.map_values(|p: (Seq<char>, Seq<char>)| kv(p.0, p.1)),
                    headers: seq![],
                    body_type: BodyType::NoBody,
                    body: seq![],
                    graphql_variables: seq![],
                    form: seq![],
                    auth: AuthV::NoAuth,
                    pinned: false,
                },
            ),
            Err(e) => Err::<RequestV, Seq<char>>(invalid_url_message(u, e)),
        },
{
    reveal_strlit("-X");
    reveal_strlit("--request");
    let m = r.method;
    let mn = method_name(m);
    lemma_method_name_letters(m);
    assert(is_curl_word(ws[0]));
    assert(is_method_flag(ws[1]));
    assert(upper(mn) =~= mn);
    crate::models::law_method_name_roundtrip(m);
    assert(parse_method_spec(ws[2]) == Ok::<HttpMethod, Seq<char>>(m));
    let st1 = CurlOpts { method: Some(m), ..no_opts() };
    assert(opts_from(ws, 1, no_opts()) == opts_from(ws, 3, st1));
    assert(u.len() > 0) by {
        let i = choose|i: int| crate::text::occurs_at(u, "://"@, i);
        reveal_strlit("://");
    }
    lemma_not_option(u);
    let st2 = CurlOpts { url: Some(u), ..st1 };
    assert(opts_from(ws, 3, st1) == opts_from(ws, 4, st2));
    assert(opts_from(ws, 4, st2) == Ok::<CurlOpts, Seq<char>>(st2));
    assert(with_scheme(u) == u);
    assert(join(Seq::<Seq<char>>::empty(), "&"@) == Seq::<char>::empty());
    assert(first_header(Seq::<KvV>::empty(), "authorization"@, 0) is None);
}

} // verus!
