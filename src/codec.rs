//! The text of the wire records: one JSON object per record, each followed
//! by a newline.

use vstd::prelude::*;
use crate::json::{json_doc, json_member, json_quoted, member_of, no_newline_char, parse_json, quote_json, value_view, JsonView};
use crate::protocol::{CommandRequest, MessageView, ResultMessage, StreamLine, OutputType, strings_view, pairs_view};

verus! {

/// The character of a decimal digit.
pub open spec fn digit_char(d: nat) -> char {
    if d == 0 { '0' }
    else if d == 1 { '1' }
    else if d == 2 { '2' }
    else if d == 3 { '3' }
    else if d == 4 { '4' }
    else if d == 5 { '5' }
    else if d == 6 { '6' }
    else if d == 7 { '7' }
    else if d == 8 { '8' }
    else { '9' }
}

/// The decimal digits of `n`, most significant first, without leading zeros.
pub open spec fn decimal(n: nat) -> Seq<char>
    decreases n,
{
    if n < 10 {
        seq![digit_char(n)]
    } else {
        decimal(n / 10) + seq![digit_char(n % 10)]
    }
}

/// The JSON text of an integer.
pub open spec fn int_text(n: int) -> Seq<char> {
    if n < 0 {
        seq!['-'] + decimal((-n) as nat)
    } else {
        decimal(n as nat)
    }
}

/// The record of a result message, without its newline.
pub open spec fn record_text(m: MessageView) -> Seq<char> {
    match m {
        MessageView::Stdout(l) => "{\"line\":"@ + json_quoted(l)
            + ",\"output_type\":\"Stdout\",\"is_final\":false,\"exit_code\":null}"@,
        MessageView::Stderr(l) => "{\"line\":"@ + json_quoted(l)
            + ",\"output_type\":\"Stderr\",\"is_final\":false,\"exit_code\":null}"@,
        MessageView::Exit(c) => "{\"line\":\"\",\"output_type\":\"Exit\",\"is_final\":true,\"exit_code\":"@
            + int_text(c as int) + "}"@,
    }
}

fn digit_str(d: u64) -> (r: &'static str)
    requires
        d < 10,
    ensures
        r@ == seq![digit_char(d as nat)],
{
    proof {
        reveal_strlit("0");
        reveal_strlit("1");
        reveal_strlit("2");
        reveal_strlit("3");
        reveal_strlit("4");
        reveal_strlit("5");
        reveal_strlit("6");
        reveal_strlit("7");
        reveal_strlit("8");
        reveal_strlit("9");
    }
    if d == 0 { "0" }
    else if d == 1 { "1" }
    else if d == 2 { "2" }
    else if d == 3 { "3" }
    else if d == 4 { "4" }
    else if d == 5 { "5" }
    else if d == 6 { "6" }
    else if d == 7 { "7" }
    else if d == 8 { "8" }
    else { "9" }
}

fn append_decimal(out: &mut String, n: u64)
    ensures
        final(out)@ == old(out)@ + decimal(n as nat),
    decreases n,
{
    if n >= 10 {
        append_decimal(out, n / 10);
    }
    out.append(digit_str(n % 10));
    proof {
        if n < 10 {
            assert(n % 10 == n);
        }
    }
}

/// Appends the decimal text of `n`, with a minus sign when it is negative.
pub fn append_int(out: &mut String, n: i32)
    ensures
        final(out)@ == old(out)@ + int_text(n as int),
{
    if n < 0 {
        proof {
            reveal_strlit("-");
        }
        out.append("-");
        let m: i64 = -(n as i64);
        append_decimal(out, m as u64);
        proof {
            assert(final(out)@ =~= old(out)@ + int_text(n as int));
        }
    } else {
        append_decimal(out, n as u64);
    }
}

/// A decimal text holds no newline.
proof fn lemma_decimal_no_newline(n: nat)
    ensures
        no_newline_char(decimal(n)),
    decreases n,
{
    if n >= 10 {
        lemma_decimal_no_newline(n / 10);
    }
}

fn append_record_body(out: &mut String, m: &ResultMessage)
    ensures
        final(out)@ == old(out)@ + record_text(m@),
        no_newline_char(old(out)@) ==> no_newline_char(final(out)@),
{
    proof {
        reveal_strlit("{\"line\":");
        reveal_strlit(",\"output_type\":\"Stdout\",\"is_final\":false,\"exit_code\":null}");
        reveal_strlit(",\"output_type\":\"Stderr\",\"is_final\":false,\"exit_code\":null}");
        reveal_strlit("{\"line\":\"\",\"output_type\":\"Exit\",\"is_final\":true,\"exit_code\":");
        reveal_strlit("}");
    }
    match m {
        ResultMessage::Stdout(l) => {
            let q = quote_json(l.as_str());
            out.append("{\"line\":");
            out.append(q.as_str());
            out.append(",\"output_type\":\"Stdout\",\"is_final\":false,\"exit_code\":null}");
        },
        ResultMessage::Stderr(l) => {
            let q = quote_json(l.as_str());
            out.append("{\"line\":");
            out.append(q.as_str());
            out.append(",\"output_type\":\"Stderr\",\"is_final\":false,\"exit_code\":null}");
        },
        ResultMessage::Exit(c) => {
            out.append("{\"line\":\"\",\"output_type\":\"Exit\",\"is_final\":true,\"exit_code\":");
            append_int(out, *c);
            out.append("}");
            proof {
                if *c < 0 {
                    lemma_decimal_no_newline((-*c) as nat);
                } else {
                    lemma_decimal_no_newline(*c as nat);
                }
            }
        },
    }
    proof {
        assert(final(out)@ =~= old(out)@ + record_text(m@));
    }
}

/// The bytes that carry `m` on the wire: its record and one newline, which
/// is the only newline in them.
pub fn encode_message(m: &ResultMessage) -> (r: String)
    ensures
        r@ == record_text(m@) + seq!['\n'],
        no_newline_char(record_text(m@)),
{
    let mut out = String::new();
    append_record_body(&mut out, m);
    proof {
        reveal_strlit("\n");
        assert(out@ =~= record_text(m@));
    }
    out.append("\n");
    out
}

proof fn lemma_no_newline_concat(a: Seq<char>, b: Seq<char>)
    requires
        no_newline_char(a),
        no_newline_char(b),
    ensures
        no_newline_char(a + b),
{
    assert forall|i: int| 0 <= i < (a + b).len() implies (a + b)[i] != '\n' by {
        if i >= a.len() {
            assert((a + b)[i] == b[i - a.len()]);
        }
    }
}

proof fn lemma_punctuation_no_newline()
    ensures
        no_newline_char(","@),
        no_newline_char("["@),
        no_newline_char("]"@),
{
    reveal_strlit(",");
    reveal_strlit("[");
    reveal_strlit("]");
    assert(","@.len() == 1 && ","@[0] == ',');
    assert("["@.len() == 1 && "["@[0] == '[');
    assert("]"@.len() == 1 && "]"@[0] == ']');
}

/// The JSON texts of `items`, separated by commas.
pub open spec fn quoted_list(items: Seq<Seq<char>>) -> Seq<char>
    decreases items.len(),
{
    if items.len() == 0 {
        Seq::empty()
    } else if items.len() == 1 {
        json_quoted(items[0])
    } else {
        quoted_list(items.drop_last()) + ","@ + json_quoted(items.last())
    }
}

/// The JSON array of a key and a value.
pub open spec fn pair_text(p: (Seq<char>, Seq<char>)) -> Seq<char> {
    "["@ + json_quoted(p.0) + ","@ + json_quoted(p.1) + "]"@
}

/// The JSON arrays of `items`, separated by commas.
pub open spec fn pair_list(items: Seq<(Seq<char>, Seq<char>)>) -> Seq<char>
    decreases items.len(),
{
    if items.len() == 0 {
        Seq::empty()
    } else if items.len() == 1 {
        pair_text(items[0])
    } else {
        pair_list(items.drop_last()) + ","@ + pair_text(items.last())
    }
}

pub open spec fn args_text(a: Option<Seq<Seq<char>>>) -> Seq<char> {
    match a {
        Some(s) => "["@ + quoted_list(s) + "]"@,
        None => "null"@,
    }
}

pub open spec fn env_text(e: Option<Seq<(Seq<char>, Seq<char>)>>) -> Seq<char> {
    match e {
        Some(s) => "["@ + pair_list(s) + "]"@,
        None => "null"@,
    }
}

/// The record of a request, without its newline.
pub open spec fn request_text(
    program: Seq<char>,
    args: Option<Seq<Seq<char>>>,
    env: Option<Seq<(Seq<char>, Seq<char>)>>,
) -> Seq<char> {
    "{\"program\":"@ + json_quoted(program) + ",\"args\":"@ + args_text(args) + ",\"env\":"@
        + env_text(env) + "}"@
}

fn append_quoted_list(out: &mut String, items: &Vec<String>)
    ensures
        final(out)@ == old(out)@ + quoted_list(strings_view(items@)),
        no_newline_char(old(out)@) ==> no_newline_char(final(out)@),
{
    proof {
        reveal_strlit(",");
    }
    let ghost start = out@;
    let mut i: usize = 0;
    while i < items.len()
        invariant
            0 <= i <= items.len(),
            out@ == start + quoted_list(strings_view(items@).subrange(0, i as int)),
            no_newline_char(start) ==> no_newline_char(out@),
        decreases items.len() - i,
    {
        let ghost prev = out@;
        let ghost sub = strings_view(items@).subrange(0, i + 1);
        assert(sub.drop_last() =~= strings_view(items@).subrange(0, i as int));
        if i > 0 {
            out.append(",");
        }
        let ghost mid = out@;
        let q = quote_json(items[i].as_str());
        out.append(q.as_str());
        proof {
            assert(out@ =~= start + quoted_list(sub));
            if no_newline_char(start) {
                lemma_punctuation_no_newline();
                if i > 0 {
                    lemma_no_newline_concat(prev, ","@);
                }
                lemma_no_newline_concat(mid, q@);
            }
        }
        i = i + 1;
    }
    proof {
        assert(strings_view(items@).subrange(0, items.len() as int) =~= strings_view(items@));
    }
}

fn append_pair_list(out: &mut String, items: &Vec<(String, String)>)
    ensures
        final(out)@ == old(out)@ + pair_list(pairs_view(items@)),
        no_newline_char(old(out)@) ==> no_newline_char(final(out)@),
{
    proof {
        reveal_strlit(",");
        reveal_strlit("[");
        reveal_strlit("]");
    }
    let ghost start = out@;
    let mut i: usize = 0;
    while i < items.len()
        invariant
            0 <= i <= items.len(),
            out@ == start + pair_list(pairs_view(items@).subrange(0, i as int)),
            no_newline_char(start) ==> no_newline_char(out@),
        decreases items.len() - i,
    {
        let ghost sub = pairs_view(items@).subrange(0, i + 1);
        assert(sub.drop_last() =~= pairs_view(items@).subrange(0, i as int));
        let ghost prev = out@;
        if i > 0 {
            out.append(",");
        }
        let ghost mid = out@;
        let k = quote_json(items[i].0.as_str());
        let v = quote_json(items[i].1.as_str());
        out.append("[");
        out.append(k.as_str());
        out.append(",");
        out.append(v.as_str());
        out.append("]");
        proof {
            assert(out@ =~= start + pair_list(sub));
            if no_newline_char(start) {
                lemma_punctuation_no_newline();
                if i > 0 {
                    lemma_no_newline_concat(prev, ","@);
                }
                lemma_no_newline_concat(mid, "["@);
                lemma_no_newline_concat(mid + "["@, k@);
                lemma_no_newline_concat(mid + "["@ + k@, ","@);
                lemma_no_newline_concat(mid + "["@ + k@ + ","@, v@);
                lemma_no_newline_concat(mid + "["@ + k@ + ","@ + v@, "]"@);
                assert(out@ =~= mid + "["@ + k@ + ","@ + v@ + "]"@);
            }
        }
        i = i + 1;
    }
    proof {
        assert(pairs_view(items@).subrange(0, items.len() as int) =~= pairs_view(items@));
    }
}

/// The bytes that carry a request on the wire: its record and one newline,
/// which is the only newline in them.
pub fn encode_request(req: &CommandRequest) -> (r: String)
    ensures
        r@ == request_text(req.program@, req.args_view(), req.env_view()) + seq!['\n'],
        no_newline_char(request_text(req.program@, req.args_view(), req.env_view())),
{
    proof {
        reveal_strlit("{\"program\":");
        reveal_strlit(",\"args\":");
        reveal_strlit(",\"env\":");
        reveal_strlit("null");
        reveal_strlit("[");
        reveal_strlit("]");
        reveal_strlit("}");
        reveal_strlit("\n");
    }
    let mut out = String::new();
    out.append("{\"program\":");
    let p = quote_json(req.program.as_str());
    out.append(p.as_str());
    out.append(",\"args\":");
    match &req.args {
        Some(a) => {
            out.append("[");
            append_quoted_list(&mut out, a);
            out.append("]");
        },
        None => {
            out.append("null");
        },
    }
    out.append(",\"env\":");
    match &req.env {
        Some(e) => {
            out.append("[");
            append_pair_list(&mut out, e);
            out.append("]");
        },
        None => {
            out.append("null");
        },
    }
    out.append("}");
    let ghost body = out@;
    proof {
        assert(body =~= request_text(req.program@, req.args_view(), req.env_view()));
    }
    out.append("\n");
    out
}

/// Why a request record was refused. The server runs nothing for such a
/// record: it cannot guess a program.
#[derive(Clone, Copy, Debug, PartialEq, Eq, Structural)]
pub enum DecodeError {
    /// The record is not a JSON document.
    NotJson,
    /// `program` is missing or not a string.
    MissingProgram,
    /// `program` is the empty string.
    EmptyProgram,
    /// `args` is neither null nor an array of strings.
    BadArgs,
    /// `env` is neither null nor an array of two-string arrays.
    BadEnv,
}

/// The tag whose wire name is `name`.
pub open spec fn spec_output_type_named(name: Seq<char>) -> Option<OutputType> {
    if name == "Stdout"@ {
        Some(OutputType::Stdout)
    } else if name == "Stderr"@ {
        Some(OutputType::Stderr)
    } else if name == "Exit"@ {
        Some(OutputType::Exit)
    } else {
        None
    }
}

/// The tag whose wire name is `name`, or `None` for an unknown name.
pub fn output_type_named(name: &str) -> (r: Option<OutputType>)
    ensures
        r == spec_output_type_named(name@),
{
    let n = String::from_str(name);
    if n == String::from_str("Stdout") {
        Some(OutputType::Stdout)
    } else if n == String::from_str("Stderr") {
        Some(OutputType::Stderr)
    } else if n == String::from_str("Exit") {
        Some(OutputType::Exit)
    } else {
        None
    }
}

/// The exit status that the wire integer `n` stands for, where it fits in
/// `i32`.
pub fn exit_code_from_wire(n: i64) -> (r: Option<i32>)
    ensures
        r.is_some() == (i32::MIN <= n <= i32::MAX),
        r.is_some() ==> r.unwrap() as i64 == n,
{
    if i32::MIN as i64 <= n && n <= i32::MAX as i64 {
        Some(n as i32)
    } else {
        None
    }
}

/// The texts of an array of strings, or `None` for any other value.
pub open spec fn spec_string_array(v: JsonView) -> Option<Seq<Seq<char>>> {
    match v {
        JsonView::Array(items) => if forall|i: int| 0 <= i < items.len() ==> (#[trigger] items[i]) is Str {
            Some(items.map_values(|j: JsonView| j->Str_0))
        } else {
            None
        },
        _ => None,
    }
}

/// Whether `j` is an array of two strings.
pub open spec fn is_pair(j: JsonView) -> bool {
    spec_string_array(j) is Some && spec_string_array(j).unwrap().len() == 2
}

/// The two strings of an array of two strings.
pub open spec fn pair_of(j: JsonView) -> (Seq<char>, Seq<char>) {
    (spec_string_array(j).unwrap()[0], spec_string_array(j).unwrap()[1])
}

/// The pairs of an array of two-string arrays, or `None` for any other
/// value.
pub open spec fn spec_pair_array(v: JsonView) -> Option<Seq<(Seq<char>, Seq<char>)>> {
    match v {
        JsonView::Array(items) => if forall|i: int| 0 <= i < items.len() ==> is_pair(#[trigger] items[i]) {
            Some(items.map_values(|j: JsonView| pair_of(j)))
        } else {
            None
        },
        _ => None,
    }
}

/// The member `key` of `v`, or `None` where it is missing or null.
pub open spec fn optional_member_of(v: JsonView, key: Seq<char>) -> Option<JsonView> {
    match member_of(v, key) {
        Some(JsonView::Null) => None,
        other => other,
    }
}

fn string_of(v: &serde_json::Value) -> (r: Option<String>)
    ensures
        r.is_some() == (value_view(*v) is Str),
        r.is_some() ==> r.unwrap()@ == value_view(*v)->Str_0,
{
    match v.as_str() {
        Some(s) => Some(String::from_str(s)),
        None => None,
    }
}

/// The member `key` of `v`, or `None` where it is missing or null.
fn optional_member<'a>(v: &'a serde_json::Value, key: &str) -> (r: Option<&'a serde_json::Value>)
    ensures
        r.is_some() == optional_member_of(value_view(*v), key@).is_some(),
        r.is_some() ==> value_view(*r.unwrap()) == optional_member_of(value_view(*v), key@).unwrap(),
{
    match json_member(v, key) {
        Some(m) => if m.is_null() {
            None
        } else {
            Some(m)
        },
        None => None,
    }
}

fn string_array(v: &serde_json::Value) -> (r: Option<Vec<String>>)
    ensures
        match r {
            Some(l) => spec_string_array(value_view(*v)) == Some(strings_view(l@)),
            None => spec_string_array(value_view(*v)) is None,
        },
{
    match v.as_array() {
        None => None,
        Some(items) => {
            let ghost iv = value_view(*v)->Array_0;
            let mut out: Vec<String> = Vec::new();
            let mut i: usize = 0;
            while i < items.len()
                invariant
                    0 <= i <= items.len(),
                    value_view(*v) == JsonView::Array(iv),
                    items@.len() == iv.len(),
                    forall|k: int| 0 <= k < items@.len() ==> value_view(#[trigger] items@[k]) == iv[k],
                    forall|k: int| 0 <= k < i ==> (#[trigger] iv[k]) is Str,
                    strings_view(out@) == iv.subrange(0, i as int).map_values(|j: JsonView| j->Str_0),
                decreases items.len() - i,
            {
                assert(value_view(items@[i as int]) == iv[i as int]);
                match string_of(&items[i]) {
                    Some(t) => {
                        let ghost prev = out@;
                        out.push(t);
                        proof {
                            assert(strings_view(out@) =~= strings_view(prev).push(t@));
                            assert(iv.subrange(0, i + 1).map_values(|j: JsonView| j->Str_0)
                                =~= iv.subrange(0, i as int).map_values(|j: JsonView| j->Str_0).push(iv[i as int]->Str_0));
                        }
                    },
                    None => {
                        assert(!(iv[i as int] is Str));
                        assert(value_view(*v) == JsonView::Array(iv));
                        assert(!(forall|k: int| 0 <= k < iv.len() ==> (#[trigger] iv[k]) is Str));
                        return None;
                    },
                }
                i = i + 1;
            }
            proof {
                assert(iv.subrange(0, iv.len() as int) =~= iv);
            }
            Some(out)
        },
    }
}

fn pair_array(v: &serde_json::Value) -> (r: Option<Vec<(String, String)>>)
    ensures
        match r {
            Some(l) => spec_pair_array(value_view(*v)) == Some(pairs_view(l@)),
            None => spec_pair_array(value_view(*v)) is None,
        },
{
    match v.as_array() {
        None => None,
        Some(items) => {
            let ghost iv = value_view(*v)->Array_0;
            let mut out: Vec<(String, String)> = Vec::new();
            let mut i: usize = 0;
            while i < items.len()
                invariant
                    0 <= i <= items.len(),
                    value_view(*v) == JsonView::Array(iv),
                    items@.len() == iv.len(),
                    forall|k: int| 0 <= k < items@.len() ==> value_view(#[trigger] items@[k]) == iv[k],
                    forall|k: int| 0 <= k < i ==> is_pair(#[trigger] iv[k]),
                    pairs_view(out@) == iv.subrange(0, i as int).map_values(|j: JsonView| pair_of(j)),
                decreases items.len() - i,
            {
                assert(value_view(items@[i as int]) == iv[i as int]);
                match string_array(&items[i]) {
                    Some(kv) => {
                        if kv.len() != 2 {
                            assert(!is_pair(iv[i as int]));
                            assert(value_view(*v) == JsonView::Array(iv));
                            assert(!(forall|k: int| 0 <= k < iv.len() ==> is_pair(#[trigger] iv[k])));
                            return None;
                        }
                        let key = kv[0].clone();
                        let value = kv[1].clone();
                        let ghost prev = out@;
                        out.push((key, value));
                        proof {
                            assert(strings_view(kv@)[0] == key@);
                            assert(strings_view(kv@)[1] == value@);
                            assert(pairs_view(out@) =~= pairs_view(prev).push((key@, value@)));
                            assert(iv.subrange(0, i + 1).map_values(|j: JsonView| pair_of(j))
                                =~= iv.subrange(0, i as int).map_values(|j: JsonView| pair_of(j)).push(pair_of(iv[i as int])));
                        }
                    },
                    None => {
                        assert(!is_pair(iv[i as int]));
                        assert(value_view(*v) == JsonView::Array(iv));
                        assert(!(forall|k: int| 0 <= k < iv.len() ==> is_pair(#[trigger] iv[k])));
                        return None;
                    },
                }
                i = i + 1;
            }
            proof {
                assert(iv.subrange(0, iv.len() as int) =~= iv);
            }
            Some(out)
        },
    }
}

/// A member as read, with its strings as text.
pub open spec fn string_member_view(m: Member<String>) -> Member<Seq<char>> {
    match m {
        Member::Absent => Member::Absent,
        Member::Present(s) => Member::Present(s@),
        Member::WrongType => Member::WrongType,
    }
}

pub open spec fn strings_member_view(m: Member<Vec<String>>) -> Member<Seq<Seq<char>>> {
    match m {
        Member::Absent => Member::Absent,
        Member::Present(v) => Member::Present(strings_view(v@)),
        Member::WrongType => Member::WrongType,
    }
}

pub open spec fn pairs_member_view(m: Member<Vec<(String, String)>>) -> Member<
    Seq<(Seq<char>, Seq<char>)>,
> {
    match m {
        Member::Absent => Member::Absent,
        Member::Present(v) => Member::Present(pairs_view(v@)),
        Member::WrongType => Member::WrongType,
    }
}

/// The value of a member that is present.
pub open spec fn member_option<T>(m: Member<T>) -> Option<T> {
    match m {
        Member::Present(x) => Some(x),
        _ => None,
    }
}

/// The member `key` of `doc` read as a string.
pub open spec fn spec_string_member(doc: JsonView, key: Seq<char>) -> Member<Seq<char>> {
    match optional_member_of(doc, key) {
        None => Member::Absent,
        Some(JsonView::Str(s)) => Member::Present(s),
        Some(_) => Member::WrongType,
    }
}

/// The member `key` of `doc` read as a boolean.
pub open spec fn spec_bool_member(doc: JsonView, key: Seq<char>) -> Member<bool> {
    match optional_member_of(doc, key) {
        None => Member::Absent,
        Some(JsonView::Bool(b)) => Member::Present(b),
        Some(_) => Member::WrongType,
    }
}

/// The member `key` of `doc` read as an `i64`.
pub open spec fn spec_int_member(doc: JsonView, key: Seq<char>) -> Member<i64> {
    match optional_member_of(doc, key) {
        None => Member::Absent,
        Some(JsonView::Int(n)) => if i64::MIN <= n <= i64::MAX {
            Member::Present(n as i64)
        } else {
            Member::WrongType
        },
        Some(_) => Member::WrongType,
    }
}

/// The member `key` of `doc` read as an array of strings.
pub open spec fn spec_strings_member(doc: JsonView, key: Seq<char>) -> Member<Seq<Seq<char>>> {
    match optional_member_of(doc, key) {
        None => Member::Absent,
        Some(a) => match spec_string_array(a) {
            Some(l) => Member::Present(l),
            None => Member::WrongType,
        },
    }
}

/// The member `key` of `doc` read as an array of two-string arrays.
pub open spec fn spec_pairs_member(doc: JsonView, key: Seq<char>) -> Member<
    Seq<(Seq<char>, Seq<char>)>,
> {
    match optional_member_of(doc, key) {
        None => Member::Absent,
        Some(a) => match spec_pair_array(a) {
            Some(l) => Member::Present(l),
            None => Member::WrongType,
        },
    }
}

/// A request as text: program, arguments, variables.
pub open spec fn request_view(r: Result<CommandRequest, DecodeError>) -> Result<
    (Seq<char>, Option<Seq<Seq<char>>>, Option<Seq<(Seq<char>, Seq<char>)>>),
    DecodeError,
> {
    match r {
        Ok(q) => Ok((q.program@, q.args_view(), q.env_view())),
        Err(e) => Err(e),
    }
}

/// The request made of the members of a request record, or why there is
/// none.
pub open spec fn spec_request_from_members(
    program: Member<Seq<char>>,
    args: Member<Seq<Seq<char>>>,
    env: Member<Seq<(Seq<char>, Seq<char>)>>,
) -> Result<(Seq<char>, Option<Seq<Seq<char>>>, Option<Seq<(Seq<char>, Seq<char>)>>), DecodeError> {
    match program {
        Member::Present(p) => if p.len() == 0 {
            Err(DecodeError::EmptyProgram)
        } else if args is WrongType {
            Err(DecodeError::BadArgs)
        } else if env is WrongType {
            Err(DecodeError::BadEnv)
        } else {
            Ok((p, member_option(args), member_option(env)))
        },
        _ => Err(DecodeError::MissingProgram),
    }
}

/// The request that the document `doc` holds, or why there is none.
pub open spec fn spec_request_of(doc: Option<JsonView>) -> Result<
    (Seq<char>, Option<Seq<Seq<char>>>, Option<Seq<(Seq<char>, Seq<char>)>>),
    DecodeError,
> {
    match doc {
        None => Err(DecodeError::NotJson),
        Some(d) => spec_request_from_members(
            spec_string_member(d, "program"@),
            spec_strings_member(d, "args"@),
            spec_pairs_member(d, "env"@),
        ),
    }
}

/// A result record as plain values: line, tag, final mark, exit code.
pub open spec fn stream_line_view(sl: StreamLine) -> (Seq<char>, OutputType, bool, Option<i32>) {
    (sl.line@, sl.output_type, sl.is_final, sl.exit_code)
}

/// The record made of the members of a result record, or `None` where they
/// make none.
pub open spec fn spec_stream_line_from_members(
    line: Member<Seq<char>>,
    output_type: Member<Seq<char>>,
    is_final: Member<bool>,
    exit_code: Member<i64>,
) -> Option<(Seq<char>, OutputType, bool, Option<i32>)> {
    if line is Present && output_type is Present
        && spec_output_type_named(output_type->Present_0) is Some && !(is_final is WrongType)
        && !(exit_code is WrongType) && (exit_code is Present ==> i32::MIN
        <= exit_code->Present_0 <= i32::MAX) {
        Some(
            (
                line->Present_0,
                spec_output_type_named(output_type->Present_0).unwrap(),
                is_final == Member::Present(true),
                match exit_code {
                    Member::Present(n) => Some(n as i32),
                    _ => None::<i32>,
                },
            ),
        )
    } else {
        None
    }
}

/// The result record that the document `doc` holds, if any.
pub open spec fn spec_stream_line_of(doc: Option<JsonView>) -> Option<
    (Seq<char>, OutputType, bool, Option<i32>),
> {
    match doc {
        None => None,
        Some(d) => spec_stream_line_from_members(
            spec_string_member(d, "line"@),
            spec_string_member(d, "output_type"@),
            spec_bool_member(d, "is_final"@),
            spec_int_member(d, "exit_code"@),
        ),
    }
}

/// The message that a record stands for: the tag and the exit code must
/// agree.
pub open spec fn message_of(v: (Seq<char>, OutputType, bool, Option<i32>)) -> Option<MessageView> {
    match v.1 {
        OutputType::Stdout => if v.3 is None {
            Some(MessageView::Stdout(v.0))
        } else {
            None
        },
        OutputType::Stderr => if v.3 is None {
            Some(MessageView::Stderr(v.0))
        } else {
            None
        },
        OutputType::Exit => match v.3 {
            Some(c) => Some(MessageView::Exit(c)),
            None => None,
        },
    }
}

/// The request made of the members read from a request record.
pub fn request_from_members(
    program: Member<String>,
    args: Member<Vec<String>>,
    env: Member<Vec<(String, String)>>,
) -> (r: Result<CommandRequest, DecodeError>)
    ensures
        !(program is Present) ==> r == Err::<CommandRequest, DecodeError>(DecodeError::MissingProgram),
        program is Present && program->Present_0@.len() == 0 ==> r == Err::<
            CommandRequest,
            DecodeError,
        >(DecodeError::EmptyProgram),
        program is Present && program->Present_0@.len() > 0 && args is WrongType ==> r == Err::<
            CommandRequest,
            DecodeError,
        >(DecodeError::BadArgs),
        program is Present && program->Present_0@.len() > 0 && !(args is WrongType)
            && env is WrongType ==> r == Err::<CommandRequest, DecodeError>(DecodeError::BadEnv),
        r is Ok <==> (program is Present && program->Present_0@.len() > 0 && !(args is WrongType)
            && !(env is WrongType)),
        request_view(r) == spec_request_from_members(
            string_member_view(program),
            strings_member_view(args),
            pairs_member_view(env),
        ),
        r is Ok ==> {
            let req = r->Ok_0;
            &&& req.program@ == program->Present_0@
            &&& req.args == match args {
                Member::Present(a) => Some(a),
                _ => None::<Vec<String>>,
            }
            &&& req.env == match env {
                Member::Present(e) => Some(e),
                _ => None::<Vec<(String, String)>>,
            }
        },
{
    let program = match program {
        Member::Present(p) => p,
        _ => {
            return Err(DecodeError::MissingProgram);
        },
    };
    if program.as_str().unicode_len() == 0 {
        return Err(DecodeError::EmptyProgram);
    }
    let args = match args {
        Member::Absent => None,
        Member::Present(a) => Some(a),
        Member::WrongType => {
            return Err(DecodeError::BadArgs);
        },
    };
    let env = match env {
        Member::Absent => None,
        Member::Present(e) => Some(e),
        Member::WrongType => {
            return Err(DecodeError::BadEnv);
        },
    };
    Ok(CommandRequest { program, args, env })
}

/// Reads a request record. The request is refused, and nothing is run, when
/// the program is missing or empty or a field has the wrong shape.
pub fn decode_request(text: &str) -> (r: Result<CommandRequest, DecodeError>)
    ensures
        request_view(r) == spec_request_of(json_doc(text@)),
        (r == Err::<CommandRequest, DecodeError>(DecodeError::NotJson)) == json_doc(text@) is None,
        r is Ok ==> r->Ok_0.program@.len() > 0,
{
    let doc = match parse_json(text) {
        Some(d) => d,
        None => {
            return Err(DecodeError::NotJson);
        },
    };
    let program = string_member(&doc, "program");
    let args = strings_member(&doc, "args");
    let env = pairs_member(&doc, "env");
    request_from_members(program, args, env)
}

fn strings_member(doc: &serde_json::Value, key: &str) -> (r: Member<Vec<String>>)
    ensures
        strings_member_view(r) == spec_strings_member(value_view(*doc), key@),
{
    match optional_member(doc, key) {
        None => Member::Absent,
        Some(a) => match string_array(a) {
            Some(list) => Member::Present(list),
            None => Member::WrongType,
        },
    }
}

fn pairs_member(doc: &serde_json::Value, key: &str) -> (r: Member<Vec<(String, String)>>)
    ensures
        pairs_member_view(r) == spec_pairs_member(value_view(*doc), key@),
{
    match optional_member(doc, key) {
        None => Member::Absent,
        Some(e) => match pair_array(e) {
            Some(list) => Member::Present(list),
            None => Member::WrongType,
        },
    }
}

/// A member of a record as read: missing or null, present with the
/// expected type, or present with another.
#[derive(Debug)]
pub enum Member<T> {
    Absent,
    Present(T),
    WrongType,
}

/// Whether the members read from a result record make a record: a string
/// `line`, a known `output_type`, an `is_final` that is absent or boolean,
/// and an `exit_code` that is absent or an integer that fits in `i32`.
pub open spec fn members_valid(
    line: Member<String>,
    output_type: Member<String>,
    is_final: Member<bool>,
    exit_code: Member<i64>,
) -> bool {
    &&& line is Present
    &&& output_type is Present
    &&& spec_output_type_named(output_type->Present_0@) is Some
    &&& !(is_final is WrongType)
    &&& exit_code is Present ==> i32::MIN <= exit_code->Present_0 <= i32::MAX
    &&& !(exit_code is WrongType)
}

/// The record made of the members read from a result record, or `None`
/// where they make none. An absent `is_final` reads as false.
pub fn stream_line_from_members(
    line: Member<String>,
    output_type: Member<String>,
    is_final: Member<bool>,
    exit_code: Member<i64>,
) -> (r: Option<StreamLine>)
    ensures
        r.is_some() == members_valid(line, output_type, is_final, exit_code),
        r.is_some() ==> {
            let sl = r.unwrap();
            &&& sl.line@ == line->Present_0@
            &&& Some(sl.output_type) == spec_output_type_named(output_type->Present_0@)
            &&& sl.is_final == (is_final == Member::Present(true))
            &&& sl.exit_code == match exit_code {
                Member::Present(n) => Some(n as i32),
                _ => None::<i32>,
            }
        },
        match r {
            Some(sl) => spec_stream_line_from_members(
                string_member_view(line),
                string_member_view(output_type),
                is_final,
                exit_code,
            ) == Some(stream_line_view(sl)),
            None => spec_stream_line_from_members(
                string_member_view(line),
                string_member_view(output_type),
                is_final,
                exit_code,
            ) is None,
        },
{
    let line = match line {
        Member::Present(l) => l,
        _ => {
            return None;
        },
    };
    let output_type = match output_type {
        Member::Present(name) => match output_type_named(name.as_str()) {
            Some(t) => t,
            None => {
                return None;
            },
        },
        _ => {
            return None;
        },
    };
    let is_final = match is_final {
        Member::Absent => false,
        Member::Present(b) => b,
        Member::WrongType => {
            return None;
        },
    };
    let exit_code = match exit_code {
        Member::Absent => None,
        Member::Present(n) => match exit_code_from_wire(n) {
            Some(c) => Some(c),
            None => {
                return None;
            },
        },
        Member::WrongType => {
            return None;
        },
    };
    Some(StreamLine { line, output_type, is_final, exit_code })
}

fn string_member(doc: &serde_json::Value, key: &str) -> (r: Member<String>)
    ensures
        string_member_view(r) == spec_string_member(value_view(*doc), key@),
{
    match optional_member(doc, key) {
        None => Member::Absent,
        Some(v) => match v.as_str() {
            Some(s) => Member::Present(String::from_str(s)),
            None => Member::WrongType,
        },
    }
}

fn bool_member(doc: &serde_json::Value, key: &str) -> (r: Member<bool>)
    ensures
        r == spec_bool_member(value_view(*doc), key@),
{
    match optional_member(doc, key) {
        None => Member::Absent,
        Some(v) => match v.as_bool() {
            Some(b) => Member::Present(b),
            None => Member::WrongType,
        },
    }
}

fn int_member(doc: &serde_json::Value, key: &str) -> (r: Member<i64>)
    ensures
        r == spec_int_member(value_view(*doc), key@),
{
    match optional_member(doc, key) {
        None => Member::Absent,
        Some(v) => match v.as_i64() {
            Some(n) => Member::Present(n),
            None => Member::WrongType,
        },
    }
}

/// Reads a result record into its wire shape, or `None` where it is no JSON
/// object whose members make a record.
pub fn decode_stream_line(text: &str) -> (r: Option<StreamLine>)
    ensures
        match r {
            Some(sl) => spec_stream_line_of(json_doc(text@)) == Some(stream_line_view(sl)),
            None => spec_stream_line_of(json_doc(text@)) is None,
        },
{
    let doc = match parse_json(text) {
        Some(d) => d,
        None => {
            return None;
        },
    };
    stream_line_from_members(
        string_member(&doc, "line"),
        string_member(&doc, "output_type"),
        bool_member(&doc, "is_final"),
        int_member(&doc, "exit_code"),
    )
}

/// Reads a result record into the message it stands for, or `None` for a
/// record that is malformed or whose tag and exit code disagree.
pub fn decode_message(text: &str) -> (r: Option<ResultMessage>)
    ensures
        match spec_stream_line_of(json_doc(text@)) {
            None => r is None,
            Some(v) => r.is_some() == message_of(v).is_some() && (r.is_some() ==> r.unwrap()@
                == message_of(v).unwrap()),
        },
{
    match decode_stream_line(text) {
        Some(sl) => sl.to_message(),
        None => None,
    }
}

} // verus!
