//! What the library takes from serde_json: JSON string literals for the
//! records it writes, and a parsed document for the records it reads.

use vstd::prelude::*;

verus! {

#[verifier::external_type_specification]
#[verifier::external_body]
pub struct ExValue(serde_json::Value);

/// True when no character of `s` is a newline.
pub open spec fn no_newline_char(s: Seq<char>) -> bool {
    forall|i: int| 0 <= i < s.len() ==> s[i] != '\n'
}

/// A lower-case hexadecimal digit.
pub open spec fn hex_digit(d: nat) -> char {
    if d < 10 {
        seq!['0', '1', '2', '3', '4', '5', '6', '7', '8', '9'][d as int]
    } else if d < 16 {
        seq!['a', 'b', 'c', 'd', 'e', 'f'][d - 10]
    } else {
        '0'
    }
}

/// How serde_json writes the character `c` inside a string literal: quote
/// and backslash behind a backslash, the five named control characters by
/// their letters, the other control characters as `\u00` and two hex digits,
/// everything else as it is.
pub open spec fn json_escape(c: char) -> Seq<char> {
    if c == '"' {
        seq!['\\', '"']
    } else if c == '\\' {
        seq!['\\', '\\']
    } else if c == '\x08' {
        seq!['\\', 'b']
    } else if c == '\t' {
        seq!['\\', 't']
    } else if c == '\n' {
        seq!['\\', 'n']
    } else if c == '\x0C' {
        seq!['\\', 'f']
    } else if c == '\r' {
        seq!['\\', 'r']
    } else if (c as u32) < 0x20 {
        seq!['\\', 'u', '0', '0', hex_digit((c as u32 / 16) as nat), hex_digit((c as u32 % 16) as nat)]
    } else {
        seq![c]
    }
}

/// The characters of `s`, each written as `json_escape` says.
pub open spec fn json_escaped(s: Seq<char>) -> Seq<char>
    decreases s.len(),
{
    if s.len() == 0 {
        Seq::empty()
    } else {
        json_escaped(s.drop_last()) + json_escape(s.last())
    }
}

/// The JSON string literal that serde_json writes for `s`.
#[verifier::opaque]
pub open spec fn json_quoted(s: Seq<char>) -> Seq<char> {
    seq!['"'] + json_escaped(s) + seq!['"']
}

proof fn lemma_escaped_no_newline(s: Seq<char>)
    ensures
        no_newline_char(json_escaped(s)),
    decreases s.len(),
{
    if s.len() > 0 {
        lemma_escaped_no_newline(s.drop_last());
        let e = json_escape(s.last());
        assert(no_newline_char(e)) by {
            let c = s.last();
            if (c as u32) < 0x20 && c != '\x08' && c != '\t' && c != '\n' && c != '\x0C' && c != '\r' {
                let hi = (c as u32 / 16) as nat;
                let lo = (c as u32 % 16) as nat;
                assert(hex_digit(hi) != '\n');
                assert(hex_digit(lo) != '\n');
            }
        }
        let a = json_escaped(s.drop_last());
        assert forall|i: int| 0 <= i < (a + e).len() implies (a + e)[i] != '\n' by {
            if i >= a.len() {
                assert((a + e)[i] == e[i - a.len()]);
            }
        }
    }
}

/// A JSON string literal holds no newline: serde_json writes it as `\n`.
pub proof fn lemma_quoted_no_newline(s: Seq<char>)
    ensures
        no_newline_char(json_quoted(s)),
{
    reveal(json_quoted);
    lemma_escaped_no_newline(s);
    let q = json_quoted(s);
    let e = json_escaped(s);
    assert forall|i: int| 0 <= i < q.len() implies q[i] != '\n' by {
        if 1 <= i < q.len() - 1 {
            assert(q[i] == e[i - 1]);
        }
    }
}

/// Relies on serde_json::to_string for a `str`: the string as a JSON string
/// literal, escaped as ser.rs's escape table says. Writing into memory does
/// not fail, so the default is never used.
#[verifier::external_body]
fn to_json_string(s: &str) -> (r: String)
    ensures
        r@ == json_quoted(s@),
{
    serde_json::to_string(s).unwrap_or_default()
}

/// The JSON string literal of `s`, which holds no newline.
pub(crate) fn quote_json(s: &str) -> (r: String)
    ensures
        r@ == json_quoted(s@),
        no_newline_char(r@),
{
    let r = to_json_string(s);
    proof {
        lemma_quoted_no_newline(s@);
    }
    r
}

/// A JSON value as plain values. Integers keep their value; other numbers
/// are told apart only as such. An object lists its members, each key once.
pub enum JsonView {
    Null,
    Bool(bool),
    Int(int),
    OtherNumber,
    Str(Seq<char>),
    Array(Seq<JsonView>),
    Object(Seq<(Seq<char>, JsonView)>),
}

/// The value of the member `key` among `members`.
pub open spec fn lookup(members: Seq<(Seq<char>, JsonView)>, key: Seq<char>) -> Option<JsonView>
    decreases members.len(),
{
    if members.len() == 0 {
        None
    } else if members[0].0 == key {
        Some(members[0].1)
    } else {
        lookup(members.drop_first(), key)
    }
}

/// The member `key` of `v`, or `None` where `v` is no object or has no such
/// member.
pub open spec fn member_of(v: JsonView, key: Seq<char>) -> Option<JsonView> {
    match v {
        JsonView::Object(members) => lookup(members, key),
        _ => None,
    }
}

/// The document that serde_json reads from `text`, or `None` where the text
/// is not one JSON document.
pub uninterp spec fn json_doc(text: Seq<char>) -> Option<JsonView>;

/// What a parsed serde_json value holds.
pub uninterp spec fn value_view(v: serde_json::Value) -> JsonView;

/// Relies on serde_json::from_str into a `Value`: the document the text
/// holds, or `None` where it holds none. Which it is depends on the text
/// alone.
#[verifier::external_body]
pub(crate) fn parse_json(text: &str) -> (r: Option<serde_json::Value>)
    ensures
        r.is_some() == json_doc(text@).is_some(),
        r.is_some() ==> value_view(r.unwrap()) == json_doc(text@).unwrap(),
{
    serde_json::from_str(text).ok()
}

/// Relies on serde_json::Value::get with a string key: the member of that
/// name of an object, `None` for a missing member or a value that is no
/// object.
#[verifier::external_body]
pub(crate) fn json_member<'a>(v: &'a serde_json::Value, key: &str) -> (r: Option<
    &'a serde_json::Value,
>)
    ensures
        r.is_some() == member_of(value_view(*v), key@).is_some(),
        r.is_some() ==> value_view(*r.unwrap()) == member_of(value_view(*v), key@).unwrap(),
{
    v.get(key)
}

/// Relies on serde_json::Value::as_str: the text of a string value.
pub assume_specification<'a>[ serde_json::Value::as_str ](v: &'a serde_json::Value) -> (r: Option<
    &'a str,
>)
    ensures
        r.is_some() == (value_view(*v) is Str),
        r.is_some() ==> r.unwrap()@ == value_view(*v)->Str_0,
;

/// Relies on serde_json::Value::as_bool: the truth value of a boolean.
pub assume_specification[ serde_json::Value::as_bool ](v: &serde_json::Value) -> (r: Option<bool>)
    ensures
        r == (match value_view(*v) {
            JsonView::Bool(b) => Some(b),
            _ => None::<bool>,
        }),
;

/// Relies on serde_json::Value::as_i64: an integer that fits in `i64`.
pub assume_specification[ serde_json::Value::as_i64 ](v: &serde_json::Value) -> (r: Option<i64>)
    ensures
        r == (match value_view(*v) {
            JsonView::Int(n) => if i64::MIN <= n <= i64::MAX {
                Some(n as i64)
            } else {
                None::<i64>
            },
            _ => None::<i64>,
        }),
;

/// Relies on serde_json::Value::is_null: whether the value is null.
pub assume_specification[ serde_json::Value::is_null ](v: &serde_json::Value) -> (r: bool)
    ensures
        r == (value_view(*v) is Null),
;

/// Relies on serde_json::Value::as_array: the elements of an array.
pub assume_specification<'a>[ serde_json::Value::as_array ](v: &'a serde_json::Value) -> (r: Option<
    &'a Vec<serde_json::Value>,
>)
    ensures
        r.is_some() == (value_view(*v) is Array),
        r.is_some() ==> r.unwrap()@.len() == value_view(*v)->Array_0.len(),
        r.is_some() ==> forall|i: int|
            0 <= i < r.unwrap()@.len() ==> value_view(#[trigger] r.unwrap()@[i])
                == value_view(*v)->Array_0[i],
;

} // verus!
