//! JSON documents held as plain values, the reads that the importers make of
//! them, their compact text, and the two calls into `serde_json` that work on
//! JSON text.
use vstd::prelude::*;

use crate::text::{push_char, push_str};

verus! {

/// A JSON value.  Numbers keep their text as `serde_json` writes it;
/// an object keeps its members in order.
#[derive(Debug)]
pub enum Json {
    Null,
    Bool(bool),
    Number(String),
    Str(String),
    Array(Vec<Json>),
    Object(Vec<(String, Json)>),
}

/// The compact text of the JSON document `text`, or none when `text` is not
/// JSON (what `serde_json` parses and writes back).
pub uninterp spec fn json_compact(text: Seq<char>) -> Option<Seq<char>>;

/// A lower-case hexadecimal digit.
pub open spec fn hex_digit(d: int) -> char {
    if d < 10 {
        (48 + d) as char
    } else {
        (87 + d) as char
    }
}

/// How `serde_json` writes a character inside a string literal: `"` and
/// `\` after a backslash, backspace, form feed, newline, carriage return
/// and tab as `\b \f \n \r \t`, any other control character below
/// U+0020 as `\u00` and two lower-case hex digits, anything else as it is.
pub open spec fn json_escaped_char(c: char) -> Seq<char> {
    let u = c as u32;
    if c == '"' {
        seq!['\\', '"']
    } else if c == '\\' {
        seq!['\\', '\\']
    } else if u == 8 {
        seq!['\\', 'b']
    } else if u == 12 {
        seq!['\\', 'f']
    } else if c == '\n' {
        seq!['\\', 'n']
    } else if c == '\r' {
        seq!['\\', 'r']
    } else if c == '\t' {
        seq!['\\', 't']
    } else if u < 0x20 {
        seq!['\\', 'u', '0', '0', hex_digit((u / 16) as int), hex_digit((u % 16) as int)]
    } else {
        seq![c]
    }
}

/// The characters of `s`, each escaped.
pub open spec fn json_escaped(s: Seq<char>) -> Seq<char>
    decreases s.len(),
{
    if s.len() == 0 {
        seq![]
    } else {
        json_escaped(s.drop_last()) + json_escaped_char(s.last())
    }
}

/// The JSON string literal of `s`, as `serde_json` writes it.
pub open spec fn json_quoted(s: Seq<char>) -> Seq<char> {
    seq!['"'] + json_escaped(s) + seq!['"']
}

#[verifier::external_type_specification]
#[verifier::external_body]
pub struct ExJsonValue(serde_json::Value);

/// The JSON document that `bytes` hold, object members in the order of the
/// text; or, for bytes that are not JSON, the parser's error message (what
/// `serde_json::from_slice` gives).
pub uninterp spec fn json_document(bytes: Seq<u8>) -> Result<Json, Seq<char>>;

/// A `serde_json::Value` as the library holds it, member for member
/// (numbers as `serde_json` writes them).
#[verifier::external_body]
fn json_of_value(v: &serde_json::Value) -> Json {
    match v {
        serde_json::Value::Null => Json::Null,
        serde_json::Value::Bool(b) => Json::Bool(*b),
        serde_json::Value::Number(n) => Json::Number(n.to_string()),
        serde_json::Value::String(s) => Json::Str(s.clone()),
        serde_json::Value::Array(a) => Json::Array(a.iter().map(json_of_value).collect()),
        serde_json::Value::Object(m) => {
            Json::Object(m.iter().map(|(k, x)| (k.clone(), json_of_value(x))).collect())
        },
    }
}

/// Parses `bytes` as JSON (`serde_json::from_slice::<Value>`), the value
/// converted to the library's `Json`; on failure the error's `Display`
/// text.  The contract names the result.
#[verifier::external_body]
pub(crate) fn parse_json_bytes(bytes: &[u8]) -> (r: Result<Json, String>)
    ensures
        match r {
            Ok(j) => json_document(bytes@) == Ok::<Json, Seq<char>>(j),
            Err(e) => json_document(bytes@) == Err::<Json, Seq<char>>(e@),
        },
{
    match serde_json::from_slice::<serde_json::Value>(bytes) {
        Ok(v) => Ok(json_of_value(&v)),
        Err(e) => Err(e.to_string()),
    }
}

/// Parses `text` as JSON (`serde_json::from_str::<Value>`) and, if it
/// parses, writes it back compactly (`Value::to_string`).  The contract
/// names the result and claims nothing more.
#[verifier::external_body]
pub(crate) fn json_minify(text: &str) -> (r: Option<String>)
    ensures
        match r {
            Some(m) => json_compact(text@) == Some(m@),
            None => json_compact(text@) is None,
        },
{
    serde_json::from_str::<serde_json::Value>(text).ok().map(|v| v.to_string())
}

/// The JSON string literal of `s` (`Value::String(s).to_string()`), as
/// `json_quoted` states it.
#[verifier::external_body]
pub(crate) fn json_quote(s: &str) -> (r: String)
    ensures
        r@ == json_quoted(s@),
{
    serde_json::Value::String(s.to_string()).to_string()
}

pub open spec fn obj_get(es: Seq<(String, Json)>, k: Seq<char>, i: int) -> Option<Json>
    decreases es.len() - i,
{
    if i < 0 || i >= es.len() {
        None
    } else if es[i].0@ == k {
        Some(es[i].1)
    } else {
        obj_get(es, k, i + 1)
    }
}

/// The member `k` of an object (the first of that name); none for a
/// missing member or a value that is not an object.
pub open spec fn json_get(j: Json, k: Seq<char>) -> Option<Json> {
    match j {
        Json::Object(es) => obj_get(es@, k, 0),
        _ => None,
    }
}

/// The member `k` of an optional value.
pub open spec fn field(j: Option<Json>, k: Seq<char>) -> Option<Json> {
    match j {
        Some(v) => json_get(v, k),
        None => None,
    }
}

pub open spec fn str_of(j: Option<Json>) -> Option<Seq<char>> {
    match j {
        Some(Json::Str(s)) => Some(s@),
        _ => None,
    }
}

pub open spec fn bool_of(j: Option<Json>) -> Option<bool> {
    match j {
        Some(Json::Bool(b)) => Some(b),
        _ => None,
    }
}

pub open spec fn array_of(j: Option<Json>) -> Option<Seq<Json>> {
    match j {
        Some(Json::Array(items)) => Some(items@),
        _ => None,
    }
}

pub open spec fn deref_json(r: Option<&Json>) -> Option<Json> {
    match r {
        Some(v) => Some(*v),
        None => None,
    }
}

pub open spec fn items_text(items: Seq<Json>, n: int) -> Seq<char>
    decreases items, n,
{
    if n <= 0 || n > items.len() {
        seq![]
    } else if n == 1 {
        json_text(items[0])
    } else {
        items_text(items, n - 1) + seq![','] + json_text(items[n - 1])
    }
}

pub open spec fn member_text(e: (String, Json)) -> Seq<char>
    decreases e,
{
    json_quoted(e.0@) + seq![':'] + json_text(e.1)
}

pub open spec fn members_text(es: Seq<(String, Json)>, n: int) -> Seq<char>
    decreases es, n,
{
    if n <= 0 || n > es.len() {
        seq![]
    } else if n == 1 {
        member_text(es[0])
    } else {
        members_text(es, n - 1) + seq![','] + member_text(es[n - 1])
    }
}

/// The compact JSON text of a value.
pub open spec fn json_text(j: Json) -> Seq<char>
    decreases j,
{
    match j {
        Json::Null => "null"@,
        Json::Bool(b) => if b {
            "true"@
        } else {
            "false"@
        },
        Json::Number(n) => n@,
        Json::Str(s) => json_quoted(s@),
        Json::Array(items) => seq!['['] + items_text(items@, items@.len() as int) + seq![']'],
        Json::Object(es) => seq!['{'] + members_text(es@, es@.len() as int) + seq!['}'],
    }
}

/// A value read as text: a string as itself, null or a missing value as
/// empty, anything else as its compact JSON text.
pub open spec fn text_value(j: Option<Json>) -> Seq<char> {
    match j {
        Some(Json::Str(s)) => s@,
        Some(Json::Null) => seq![],
        None => seq![],
        Some(v) => json_text(v),
    }
}

pub proof fn lemma_obj_get_smaller(j: Json, k: Seq<char>, i: int)
    requires
        j is Object,
        0 <= i,
    ensures
        obj_get(j->Object_0@, k, i) matches Some(v) ==> decreases_to!(j => v),
    decreases j->Object_0@.len() - i,
{
    let es = j->Object_0;
    if i < es@.len() {
        if es@[i].0@ == k {
            assert(decreases_to!(j => es));
            assert(decreases_to!(es => es@));
            assert(decreases_to!(es@ => es@[i]));
            assert(decreases_to!(es@[i] => es@[i].1));
            assert(decreases_to!(j => es@[i].1));
        } else {
            lemma_obj_get_smaller(j, k, i + 1);
        }
    }
}

/// A member of a value is smaller than the value.
pub proof fn lemma_get_smaller(j: Json, k: Seq<char>)
    ensures
        json_get(j, k) matches Some(v) ==> decreases_to!(j => v),
{
    if j is Object {
        lemma_obj_get_smaller(j, k, 0);
    }
}

/// A member of an object is smaller than the object.
pub proof fn lemma_member_smaller(j: Json, i: int)
    requires
        j is Object,
        0 <= i < j->Object_0@.len(),
    ensures
        decreases_to!(j => j->Object_0@[i].1),
{
    let es = j->Object_0;
    assert(decreases_to!(j => es));
    assert(decreases_to!(es => es@));
    assert(decreases_to!(es@ => es@[i]));
    assert(decreases_to!(es@[i] => es@[i].1));
}

/// An item of an array is smaller than the array.
pub proof fn lemma_item_smaller(j: Json, i: int)
    requires
        j is Array,
        0 <= i < j->Array_0@.len(),
    ensures
        decreases_to!(j => j->Array_0@[i]),
{
    let items = j->Array_0;
    assert(decreases_to!(j => items));
    assert(decreases_to!(items => items@));
    assert(decreases_to!(items@ => items@[i]));
}

impl Json {
    /// The member `key` of an object.
    pub fn get(&self, key: &str) -> (r: Option<&Json>)
        ensures
            deref_json(r) == json_get(*self, key@),
    {
        match self {
            Json::Object(es) => {
                let k = crate::text::owned(key);
                let mut i: usize = 0;
                while i < es.len()
                    invariant
                        i <= es@.len(),
                        k@ == key@,
                        *self == Json::Object(*es),
                        obj_get(es@, key@, 0) == obj_get(es@, key@, i as int),
                    decreases es.len() - i,
                {
                    if es[i].0 == k {
                        return Some(&es[i].1);
                    }
                    i += 1;
                }
                None
            },
            _ => None,
        }
    }

    pub fn as_str(&self) -> (r: Option<&String>)
        ensures
            match r {
                Some(s) => str_of(Some(*self)) == Some(s@),
                None => str_of(Some(*self)) is None,
            },
    {
        match self {
            Json::Str(s) => Some(s),
            _ => None,
        }
    }

    pub fn as_bool(&self) -> (r: Option<bool>)
        ensures
            r == bool_of(Some(*self)),
    {
        match self {
            Json::Bool(b) => Some(*b),
            _ => None,
        }
    }

    pub fn as_array(&self) -> (r: Option<&Vec<Json>>)
        ensures
            match r {
                Some(items) => array_of(Some(*self)) == Some(items@),
                None => array_of(Some(*self)) is None,
            },
    {
        match self {
            Json::Array(items) => Some(items),
            _ => None,
        }
    }

    /// Appends the compact JSON text of the value.
    pub fn write_text(&self, out: &mut String)
        ensures
            final(out)@ == old(out)@ + json_text(*self),
        decreases self,
    {
        match self {
            Json::Null => push_str(out, "null"),
            Json::Bool(b) => if *b {
                push_str(out, "true")
            } else {
                push_str(out, "false")
            },
            Json::Number(n) => push_str(out, n.as_str()),
            Json::Str(s) => push_str(out, json_quote(s.as_str()).as_str()),
            Json::Array(items) => {
                push_char(out, '[');
                let ghost start = out@;
                let mut i: usize = 0;
                while i < items.len()
                    invariant
                        i <= items@.len(),
                        *self == Json::Array(*items),
                        out@ == start + items_text(items@, i as int),
                    decreases items.len() - i,
                {
                    if i > 0 {
                        push_char(out, ',');
                    }
                    proof {
                        lemma_item_smaller(*self, i as int);
                    }
                    items[i].write_text(out);
                    i += 1;
                }
                push_char(out, ']');
            },
            Json::Object(es) => {
                push_char(out, '{');
                let ghost start = out@;
                let mut i: usize = 0;
                while i < es.len()
                    invariant
                        i <= es@.len(),
                        *self == Json::Object(*es),
                        out@ == start + members_text(es@, i as int),
                    decreases es.len() - i,
                {
                    if i > 0 {
                        push_char(out, ',');
                    }
                    push_str(out, json_quote(es[i].0.as_str()).as_str());
                    push_char(out, ':');
                    proof {
                        lemma_member_smaller(*self, i as int);
                    }
                    es[i].1.write_text(out);
                    proof {
                        let e = es@[i as int];
                        assert(member_text(e) == json_quoted(e.0@) + seq![':'] + json_text(e.1));
                        if i > 0 {
                            assert(members_text(es@, i + 1) == members_text(es@, i as int) + seq![
                                ',',
                            ] + member_text(e));
                        } else {
                            assert(members_text(es@, 1) == member_text(e));
                        }
                    }
                    i += 1;
                }
                push_char(out, '}');
            },
        }
    }

    /// The compact JSON text of the value.
    pub fn to_text(&self) -> (r: String)
        ensures
            r@ == json_text(*self),
    {
        let mut r = String::new();
        self.write_text(&mut r);
        r
    }
}

/// The member `key` of an optional value.
pub fn field_of<'a>(j: Option<&'a Json>, key: &str) -> (r: Option<&'a Json>)
    ensures
        deref_json(r) == field(deref_json(j), key@),
{
    match j {
        Some(v) => v.get(key),
        None => None,
    }
}

/// A value read as text (a string as itself, null or missing as empty,
/// anything else as compact JSON).
pub fn text_of(j: Option<&Json>) -> (r: String)
    ensures
        r@ == text_value(deref_json(j)),
{
    match j {
        Some(Json::Str(s)) => s.clone(),
        Some(Json::Null) => String::new(),
        None => String::new(),
        Some(v) => v.to_text(),
    }
}

} // verus!
