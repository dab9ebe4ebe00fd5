//! Character-level text operations: the building blocks of the parsers and
//! generators, each with its meaning stated over `Seq<char>`.
use vstd::prelude::*;

verus! {

/// Unicode `White_Space` (the property that `char::is_whitespace` tests).
pub open spec fn is_ws(c: char) -> bool {
    let u = c as u32;
    ||| 0x9 <= u && u <= 0xd
    ||| u == 0x20
    ||| u == 0x85
    ||| u == 0xa0
    ||| u == 0x1680
    ||| 0x2000 <= u && u <= 0x200a
    ||| u == 0x2028
    ||| u == 0x2029
    ||| u == 0x202f
    ||| u == 0x205f
    ||| u == 0x3000
}

pub fn is_whitespace(c: char) -> (b: bool)
    ensures
        b == is_ws(c),
{
    let u = c as u32;
    (0x9 <= u && u <= 0xd) || u == 0x20 || u == 0x85 || u == 0xa0 || u == 0x1680 || (0x2000 <= u
        && u <= 0x200a) || u == 0x2028 || u == 0x2029 || u == 0x202f || u == 0x205f || u == 0x3000
}

/// `s` without leading whitespace.
pub open spec fn trim_start(s: Seq<char>) -> Seq<char>
    decreases s.len(),
{
    if s.len() > 0 && is_ws(s[0]) {
        trim_start(s.drop_first())
    } else {
        s
    }
}

/// `s` without trailing whitespace.
pub open spec fn trim_end(s: Seq<char>) -> Seq<char>
    decreases s.len(),
{
    if s.len() > 0 && is_ws(s.last()) {
        trim_end(s.drop_last())
    } else {
        s
    }
}

/// `s` without leading and trailing whitespace (`str::trim`).
pub open spec fn trim(s: Seq<char>) -> Seq<char> {
    trim_end(trim_start(s))
}

pub open spec fn starts_with(s: Seq<char>, p: Seq<char>) -> bool {
    p.len() <= s.len() && s.take(p.len() as int) == p
}

pub open spec fn ends_with(s: Seq<char>, p: Seq<char>) -> bool {
    p.len() <= s.len() && s.skip(s.len() - p.len()) == p
}

/// `p` occurs in `s` at position `i`.
pub open spec fn occurs_at(s: Seq<char>, p: Seq<char>, i: int) -> bool {
    0 <= i && i + p.len() <= s.len() && s.subrange(i, i + p.len()) == p
}

pub open spec fn contains(s: Seq<char>, p: Seq<char>) -> bool {
    exists|i: int| occurs_at(s, p, i)
}

/// The first position at or after `k` that holds `c`.
pub open spec fn find_char_from(s: Seq<char>, k: int, c: char) -> Option<int>
    decreases s.len() - k,
{
    if k < 0 || k >= s.len() {
        None
    } else if s[k] == c {
        Some(k)
    } else {
        find_char_from(s, k + 1, c)
    }
}

/// The first position at or after `k` where the pair `a b` starts.
pub open spec fn find_pair_from(s: Seq<char>, k: int, a: char, b: char) -> Option<int>
    decreases s.len() - k,
{
    if k < 0 || k + 1 >= s.len() {
        None
    } else if s[k] == a && s[k + 1] == b {
        Some(k)
    } else {
        find_pair_from(s, k + 1, a, b)
    }
}

/// `str::split_once` on a character.
pub open spec fn split_once(s: Seq<char>, c: char) -> Option<(Seq<char>, Seq<char>)> {
    match find_char_from(s, 0, c) {
        Some(i) => Some((s.take(i), s.skip(i + 1))),
        None => None,
    }
}

/// The pieces of `s[k..]` between the separators `c`, empty pieces left out
/// (`s.split(c).filter(|p| !p.is_empty())`).
pub open spec fn nonempty_parts_from(s: Seq<char>, k: int, c: char) -> Seq<Seq<char>>
    decreases s.len() - k,
{
    if k < 0 || k > s.len() {
        seq![]
    } else {
        proof {
            lemma_find_char_bounds(s, k, c);
        }
        match find_char_from(s, k, c) {
            None => if k < s.len() {
                seq![s.subrange(k, s.len() as int)]
            } else {
                seq![]
            },
            Some(j) => {
                let rest = nonempty_parts_from(s, j + 1, c);
                if j > k {
                    seq![s.subrange(k, j)] + rest
                } else {
                    rest
                }
            },
        }
    }
}

pub open spec fn nonempty_parts(s: Seq<char>, c: char) -> Seq<Seq<char>> {
    nonempty_parts_from(s, 0, c)
}

/// The parts joined with `sep` between them (`[..].join(sep)`).
pub open spec fn join(parts: Seq<Seq<char>>, sep: Seq<char>) -> Seq<char>
    decreases parts.len(),
{
    if parts.len() == 0 {
        seq![]
    } else if parts.len() == 1 {
        parts[0]
    } else {
        join(parts.drop_last(), sep) + sep + parts.last()
    }
}

pub open spec fn lower_char(c: char) -> char {
    if 'A' <= c && c <= 'Z' {
        ((c as u32) + 32) as char
    } else {
        c
    }
}

pub open spec fn upper_char(c: char) -> char {
    if 'a' <= c && c <= 'z' {
        ((c as u32) - 32) as char
    } else {
        c
    }
}

pub open spec fn lower(s: Seq<char>) -> Seq<char> {
    s.map_values(|c: char| lower_char(c))
}

pub open spec fn upper(s: Seq<char>) -> Seq<char> {
    s.map_values(|c: char| upper_char(c))
}

/// `str::eq_ignore_ascii_case`.
pub open spec fn eq_ignore_case(a: Seq<char>, b: Seq<char>) -> bool {
    lower(a) == lower(b)
}

/// Every occurrence of `c` in `s` replaced by `r`.
pub open spec fn replace_char(s: Seq<char>, c: char, r: Seq<char>) -> Seq<char>
    decreases s.len(),
{
    if s.len() == 0 {
        seq![]
    } else {
        replace_char(s.drop_last(), c, r) + if s.last() == c {
            r
        } else {
            seq![s.last()]
        }
    }
}

/// Replacing in a concatenation replaces in each part.
pub proof fn lemma_replace_char_append(a: Seq<char>, b: Seq<char>, c: char, r: Seq<char>)
    ensures
        replace_char(a + b, c, r) == replace_char(a, c, r) + replace_char(b, c, r),
    decreases b.len(),
{
    if b.len() == 0 {
        assert(a + b =~= a);
        assert(replace_char(a, c, r) + replace_char(b, c, r) =~= replace_char(a, c, r));
    } else {
        lemma_replace_char_append(a, b.drop_last(), c, r);
        assert((a + b).drop_last() =~= a + b.drop_last());
        let tail = if b.last() == c {
            r
        } else {
            seq![b.last()]
        };
        assert(replace_char(a, c, r) + replace_char(b.drop_last(), c, r) + tail =~= replace_char(
            a,
            c,
            r,
        ) + (replace_char(b.drop_last(), c, r) + tail));
    }
}

/// The character `c` alone becomes `r`.
pub proof fn lemma_replace_char_one(c: char, r: Seq<char>)
    ensures
        replace_char(seq![c], c, r) == r,
{
    let one = seq![c];
    assert(one.len() == 1 && one.last() == c);
    assert(one.drop_last() =~= Seq::<char>::empty());
    assert(replace_char(one.drop_last(), c, r) == Seq::<char>::empty());
    assert(Seq::<char>::empty() + r =~= r);
}

/// A text without `c` is left as it is.
pub proof fn lemma_replace_char_absent(s: Seq<char>, c: char, r: Seq<char>)
    requires
        forall|j: int| 0 <= j < s.len() ==> s[j] != c,
    ensures
        replace_char(s, c, r) == s,
    decreases s.len(),
{
    if s.len() > 0 {
        lemma_replace_char_absent(s.drop_last(), c, r);
        assert(s.drop_last() + seq![s.last()] =~= s);
    }
}

pub proof fn lemma_find_char_bounds(s: Seq<char>, k: int, c: char)
    requires
        0 <= k,
    ensures
        find_char_from(s, k, c) matches Some(i) ==> k <= i < s.len() && s[i] == c,
        forall|j: int|
            k <= j < s.len() && (find_char_from(s, k, c) matches Some(i) ==> j < i) ==> s[j]
                != c,
    decreases s.len() - k,
{
    if k >= 0 && k < s.len() && s[k] != c {
        lemma_find_char_bounds(s, k + 1, c);
    }
}

pub proof fn lemma_find_pair_bounds(s: Seq<char>, k: int, a: char, b: char)
    requires
        0 <= k,
    ensures
        find_pair_from(s, k, a, b) matches Some(i) ==> k <= i && i + 1 < s.len() && s[i] == a
            && s[i + 1] == b,
        forall|j: int|
            #![trigger s[j]]
            k <= j && j + 1 < s.len() && (find_pair_from(s, k, a, b) matches Some(i) ==> j < i)
                ==> !(s[j] == a && s[j + 1] == b),
    decreases s.len() - k,
{
    if k >= 0 && k + 1 < s.len() && !(s[k] == a && s[k + 1] == b) {
        lemma_find_pair_bounds(s, k + 1, a, b);
    }
}

pub proof fn lemma_find_pair_none(s: Seq<char>, k: int, a: char, b: char)
    requires
        0 <= k,
        forall|j: int| k <= j && j + 1 < s.len() ==> !(#[trigger] s[j] == a && s[j + 1] == b),
    ensures
        find_pair_from(s, k, a, b) is None,
    decreases s.len() - k,
{
    if k + 1 < s.len() {
        lemma_find_pair_none(s, k + 1, a, b);
    }
}

/// The characters of `s`, in order.
pub fn chars_of(s: &str) -> (v: Vec<char>)
    ensures
        v@ == s@,
{
    let mut v: Vec<char> = Vec::new();
    for c in it: s.chars()
        invariant
            it.seq() == s@,
            v@ == it.seq().take(it.index()),
    {
        v.push(c);
    }
    v
}

/// Appends one character to a `String` (`String::push`).
#[verifier::external_body]
pub(crate) fn push_char(s: &mut String, c: char)
    ensures
        final(s)@ == old(s)@.push(c),
{
    s.push(c);
}

/// Appends `v[from..to]` to `out`.
pub fn push_range(out: &mut String, v: &[char], from: usize, to: usize)
    requires
        from <= to <= v@.len(),
    ensures
        final(out)@ == old(out)@ + v@.subrange(from as int, to as int),
{
    let mut i = from;
    while i < to
        invariant
            from <= i <= to <= v@.len(),
            out@ == old(out)@ + v@.subrange(from as int, i as int),
        decreases to - i,
    {
        push_char(out, v[i]);
        assert(v@.subrange(from as int, i + 1) == v@.subrange(from as int, i as int).push(
            v@[i as int],
        ));
        i += 1;
    }
}

/// Appends the characters of `s` to `out`.
pub fn push_str(out: &mut String, s: &str)
    ensures
        final(out)@ == old(out)@ + s@,
{
    let v = chars_of(s);
    push_range(out, v.as_slice(), 0, v.len());
    assert(v@.subrange(0, v@.len() as int) == v@);
}

/// A copy of `s` as a `String`.
pub fn owned(s: &str) -> (r: String)
    ensures
        r@ == s@,
{
    let mut r = String::new();
    push_str(&mut r, s);
    r
}

/// `a` followed by `b`.
pub fn cat(a: &str, b: &str) -> (r: String)
    ensures
        r@ == a@ + b@,
{
    let mut r = String::new();
    push_str(&mut r, a);
    push_str(&mut r, b);
    r
}

/// Equality of two character sequences.
pub fn chars_eq(a: &[char], b: &[char]) -> (r: bool)
    ensures
        r == (a@ == b@),
{
    if a.len() != b.len() {
        return false;
    }
    let mut i: usize = 0;
    while i < a.len()
        invariant
            a@.len() == b@.len(),
            i <= a@.len(),
            forall|j: int| 0 <= j < i ==> a@[j] == b@[j],
        decreases a.len() - i,
    {
        if a[i] != b[i] {
            return false;
        }
        i += 1;
    }
    assert(a@ =~= b@);
    true
}

pub fn str_eq(a: &str, b: &str) -> (r: bool)
    ensures
        r == (a@ == b@),
{
    let va = chars_of(a);
    let vb = chars_of(b);
    chars_eq(va.as_slice(), vb.as_slice())
}

/// Whether `p` occurs in `s` at position `i`.
pub fn occurs_at_exec(s: &[char], p: &[char], i: usize) -> (r: bool)
    ensures
        r == occurs_at(s@, p@, i as int),
{
    if i > s.len() || p.len() > s.len() - i {
        return false;
    }
    let mut j: usize = 0;
    while j < p.len()
        invariant
            i + p@.len() <= s@.len(),
            s@.len() == s.len(),
            j <= p@.len(),
            forall|t: int| 0 <= t < j ==> s@[i + t] == p@[t],
        decreases p.len() - j,
    {
        if s[i + j] != p[j] {
            assert(s@.subrange(i as int, i + p@.len())[j as int] != p@[j as int]);
            return false;
        }
        j += 1;
    }
    assert(s@.subrange(i as int, i + p@.len()) =~= p@);
    true
}

pub fn starts_with_exec(s: &str, p: &str) -> (r: bool)
    ensures
        r == starts_with(s@, p@),
{
    let vs = chars_of(s);
    let vp = chars_of(p);
    let r = occurs_at_exec(vs.as_slice(), vp.as_slice(), 0);
    assert(vs@.subrange(0, vp@.len() as int) == vs@.take(vp@.len() as int));
    r
}

pub fn ends_with_exec(s: &str, p: &str) -> (r: bool)
    ensures
        r == ends_with(s@, p@),
{
    let vs = chars_of(s);
    let vp = chars_of(p);
    if vp.len() > vs.len() {
        return false;
    }
    let r = occurs_at_exec(vs.as_slice(), vp.as_slice(), vs.len() - vp.len());
    assert(vs@.subrange(vs@.len() - vp@.len(), vs@.len() as int) == vs@.skip(
        vs@.len() - vp@.len(),
    ));
    r
}

pub fn contains_exec(s: &str, p: &str) -> (r: bool)
    ensures
        r == contains(s@, p@),
{
    let vs = chars_of(s);
    let vp = chars_of(p);
    let mut i: usize = 0;
    loop
        invariant
            vs@ == s@,
            vp@ == p@,
            i <= vs@.len(),
            forall|j: int| 0 <= j < i ==> !occurs_at(s@, p@, j),
        decreases vs.len() - i,
    {
        if occurs_at_exec(vs.as_slice(), vp.as_slice(), i) {
            return true;
        }
        if i == vs.len() {
            assert forall|j: int| !occurs_at(s@, p@, j) by {
                if 0 <= j < i {
                }
            }
            return false;
        }
        i += 1;
    }
}

/// The first position at or after `k` that holds `c`.
pub fn find_char(v: &[char], k: usize, c: char) -> (r: Option<usize>)
    ensures
        match r {
            Some(i) => k <= i < v@.len() && find_char_from(v@, k as int, c) == Some(i as int),
            None => find_char_from(v@, k as int, c) is None,
        },
{
    let mut i = k;
    while i < v.len()
        invariant
            k <= i,
            find_char_from(v@, k as int, c) == find_char_from(v@, i as int, c),
        decreases v.len() - i,
    {
        if v[i] == c {
            return Some(i);
        }
        i += 1;
    }
    None
}

/// The first position at or after `k` where the pair `a b` starts.
pub fn find_pair(v: &[char], k: usize, a: char, b: char) -> (r: Option<usize>)
    ensures
        match r {
            Some(i) => k <= i && i + 1 < v@.len() && find_pair_from(v@, k as int, a, b) == Some(
                i as int,
            ),
            None => find_pair_from(v@, k as int, a, b) is None,
        },
{
    let mut i = k;
    while v.len() > 0 && i < v.len() - 1
        invariant
            k <= i,
            find_pair_from(v@, k as int, a, b) == find_pair_from(v@, i as int, a, b),
        decreases v.len() - i,
    {
        if v[i] == a && v[i + 1] == b {
            return Some(i);
        }
        i += 1;
    }
    None
}

proof fn lemma_trim_start_step(s: Seq<char>, lo: int, hi: int)
    requires
        0 <= lo < hi <= s.len(),
        is_ws(s[lo]),
    ensures
        trim_start(s.subrange(lo, hi)) == trim_start(s.subrange(lo + 1, hi)),
{
    assert(s.subrange(lo, hi).drop_first() =~= s.subrange(lo + 1, hi));
}

proof fn lemma_trim_end_step(s: Seq<char>, lo: int, hi: int)
    requires
        0 <= lo < hi <= s.len(),
        is_ws(s[hi - 1]),
    ensures
        trim_end(s.subrange(lo, hi)) == trim_end(s.subrange(lo, hi - 1)),
{
    assert(s.subrange(lo, hi).drop_last() =~= s.subrange(lo, hi - 1));
}

/// The bounds of `v[from..to]` with surrounding whitespace removed.
pub fn trim_bounds(v: &[char], from: usize, to: usize) -> (r: (usize, usize))
    requires
        from <= to <= v@.len(),
    ensures
        from <= r.0 <= r.1 <= to,
        v@.subrange(r.0 as int, r.1 as int) == trim(v@.subrange(from as int, to as int)),
{
    let mut lo = from;
    while lo < to && is_whitespace(v[lo])
        invariant
            from <= lo <= to <= v@.len(),
            trim_start(v@.subrange(from as int, to as int)) == trim_start(
                v@.subrange(lo as int, to as int),
            ),
        decreases to - lo,
    {
        proof {
            lemma_trim_start_step(v@, lo as int, to as int);
        }
        lo += 1;
    }
    let mut hi = to;
    proof {
        let t = v@.subrange(lo as int, to as int);
        if lo < to {
            assert(t[0] == v@[lo as int]);
        }
        assert(trim_start(t) == t);
    }
    while hi > lo && is_whitespace(v[hi - 1])
        invariant
            from <= lo <= hi <= to <= v@.len(),
            trim(v@.subrange(from as int, to as int)) == trim_end(
                v@.subrange(lo as int, hi as int),
            ),
        decreases hi - lo,
    {
        proof {
            lemma_trim_end_step(v@, lo as int, hi as int);
        }
        hi -= 1;
    }
    proof {
        let t = v@.subrange(lo as int, hi as int);
        if lo < hi {
            assert(t.last() == v@[hi - 1]);
        }
        assert(trim_end(t) == t);
    }
    (lo, hi)
}

/// `str::trim`, as an owned string.
pub fn trim_exec(s: &str) -> (r: String)
    ensures
        r@ == trim(s@),
{
    let v = chars_of(s);
    let (lo, hi) = trim_bounds(v.as_slice(), 0, v.len());
    assert(v@.subrange(0, v@.len() as int) == v@);
    let mut r = String::new();
    push_range(&mut r, v.as_slice(), lo, hi);
    r
}

/// `str::split_once` on a character.
pub fn split_once_exec(s: &str, c: char) -> (r: Option<(String, String)>)
    ensures
        match r {
            Some((a, b)) => split_once(s@, c) == Some((a@, b@)),
            None => split_once(s@, c) is None,
        },
{
    let v = chars_of(s);
    match find_char(v.as_slice(), 0, c) {
        Some(i) => {
            proof {
                lemma_find_char_bounds(v@, 0, c);
            }
            assert(i < v.len());
            let mut a = String::new();
            push_range(&mut a, v.as_slice(), 0, i);
            let mut b = String::new();
            push_range(&mut b, v.as_slice(), i + 1, v.len());
            assert(v@.subrange(0, i as int) == v@.take(i as int));
            assert(v@.subrange(i + 1, v@.len() as int) == v@.skip(i + 1));
            Some((a, b))
        },
        None => None,
    }
}

pub fn lower_char_exec(c: char) -> (r: char)
    ensures
        r == lower_char(c),
{
    if 'A' <= c && c <= 'Z' {
        let u = (c as u32) + 32;
        assert(u == (c as u32) + 32);
        char_from_ascii(u)
    } else {
        c
    }
}

pub fn upper_char_exec(c: char) -> (r: char)
    ensures
        r == upper_char(c),
{
    if 'a' <= c && c <= 'z' {
        let u = (c as u32) - 32;
        char_from_ascii(u)
    } else {
        c
    }
}

/// The character with ASCII code `u`.
fn char_from_ascii(u: u32) -> (c: char)
    requires
        u < 128,
    ensures
        c == u as char,
        c as u32 == u,
{
    let b = u as u8;
    b as char
}

/// `str::to_ascii_lowercase`.
pub fn lower_exec(s: &str) -> (r: String)
    ensures
        r@ == lower(s@),
{
    let v = chars_of(s);
    let mut r = String::new();
    let mut i: usize = 0;
    while i < v.len()
        invariant
            v@ == s@,
            i <= v@.len(),
            r@ == lower(v@.take(i as int)),
        decreases v.len() - i,
    {
        let c = lower_char_exec(v[i]);
        push_char(&mut r, c);
        assert(lower(v@.take(i + 1)) =~= lower(v@.take(i as int)).push(c));
        i += 1;
    }
    assert(v@.take(v@.len() as int) == v@);
    r
}

/// `str::to_ascii_uppercase`.
pub fn upper_exec(s: &str) -> (r: String)
    ensures
        r@ == upper(s@),
{
    let v = chars_of(s);
    let mut r = String::new();
    let mut i: usize = 0;
    while i < v.len()
        invariant
            v@ == s@,
            i <= v@.len(),
            r@ == upper(v@.take(i as int)),
        decreases v.len() - i,
    {
        let c = upper_char_exec(v[i]);
        push_char(&mut r, c);
        assert(upper(v@.take(i + 1)) =~= upper(v@.take(i as int)).push(c));
        i += 1;
    }
    assert(v@.take(v@.len() as int) == v@);
    r
}

/// `str::eq_ignore_ascii_case`.
pub fn eq_ignore_case_exec(a: &str, b: &str) -> (r: bool)
    ensures
        r == eq_ignore_case(a@, b@),
{
    let la = lower_exec(a);
    let lb = lower_exec(b);
    la == lb
}

/// Every occurrence of `c` in `s` replaced by `rep`.
pub fn replace_char_exec(s: &str, c: char, rep: &str) -> (r: String)
    ensures
        r@ == replace_char(s@, c, rep@),
{
    let v = chars_of(s);
    let mut r = String::new();
    let mut i: usize = 0;
    while i < v.len()
        invariant
            v@ == s@,
            i <= v@.len(),
            r@ == replace_char(v@.take(i as int), c, rep@),
        decreases v.len() - i,
    {
        assert(v@.take(i + 1).drop_last() == v@.take(i as int));
        if v[i] == c {
            push_str(&mut r, rep);
        } else {
            push_char(&mut r, v[i]);
        }
        i += 1;
    }
    assert(v@.take(v@.len() as int) == v@);
    r
}

/// `parts` joined with `sep` between them.
pub fn join_exec(parts: &Vec<String>, sep: &str) -> (r: String)
    ensures
        r@ == join(parts.deep_view(), sep@),
{
    let mut r = String::new();
    let mut i: usize = 0;
    while i < parts.len()
        invariant
            i <= parts@.len(),
            r@ == join(parts.deep_view().take(i as int), sep@),
        decreases parts.len() - i,
    {
        let ghost dv = parts.deep_view();
        assert(dv.take(i + 1).drop_last() == dv.take(i as int));
        assert(dv.take(i + 1).last() == parts@[i as int]@);
        if i > 0 {
            push_str(&mut r, sep);
        } else {
            assert(dv.take(0) =~= Seq::<Seq<char>>::empty());
        }
        push_str(&mut r, parts[i].as_str());
        i += 1;
    }
    assert(parts.deep_view().take(parts@.len() as int) == parts.deep_view());
    r
}

/// The non-empty pieces of `s` between the separators `c`.
pub fn nonempty_parts_exec(s: &str, c: char) -> (r: Vec<String>)
    ensures
        r.deep_view() == nonempty_parts(s@, c),
{
    let v = chars_of(s);
    let n = v.len();
    let mut r: Vec<String> = Vec::new();
    let mut k: usize = 0;
    loop
        invariant
            v@ == s@,
            n == v@.len(),
            k <= v@.len(),
            nonempty_parts(s@, c) == r.deep_view() + nonempty_parts_from(v@, k as int, c),
        decreases v@.len() - k,
    {
        let ghost old_r = r.deep_view();
        proof {
            lemma_find_char_bounds(v@, k as int, c);
        }
        match find_char(v.as_slice(), k, c) {
            None => {
                if k < v.len() {
                    let mut p = String::new();
                    push_range(&mut p, v.as_slice(), k, v.len());
                    r.push(p);
                    assert(r.deep_view() =~= old_r + nonempty_parts_from(v@, k as int, c));
                } else {
                    assert(r.deep_view() =~= old_r + nonempty_parts_from(v@, k as int, c));
                }
                return r;
            },
            Some(j) => {
                if j > k {
                    let mut p = String::new();
                    push_range(&mut p, v.as_slice(), k, j);
                    r.push(p);
                    assert(r.deep_view() =~= old_r + seq![v@.subrange(k as int, j as int)]);
                }
                assert(j < v@.len());
                k = j + 1;
            },
        }
    }
}

} // verus!
