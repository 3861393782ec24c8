//! A JSON document as the library reads it, and the parse of bytes into one.

use vstd::prelude::*;

verus! {

/// A JSON value. Numbers keep their text; objects keep their members in the
/// order the parser hands them out.
#[derive(Debug)]
pub enum JsonValue {
    Null,
    Bool(bool),
    Number(String),
    Str(String),
    Array(Vec<JsonValue>),
    Object(Vec<JsonMember>),
}

/// One member of a JSON object.
#[derive(Debug)]
pub struct JsonMember {
    pub key: String,
    pub value: JsonValue,
}

/// What a JSON value holds.
pub enum JsonView {
    Null,
    Bool(bool),
    Number(Seq<char>),
    Str(Seq<char>),
    Array(Seq<JsonView>),
    Object(Seq<(Seq<char>, JsonView)>),
}

impl JsonValue {
    /// What this value holds.
    pub open spec fn json_view(&self) -> JsonView
        decreases self,
    {
        match self {
            JsonValue::Null => JsonView::Null,
            JsonValue::Bool(b) => JsonView::Bool(*b),
            JsonValue::Number(n) => JsonView::Number(n@),
            JsonValue::Str(s) => JsonView::Str(s@),
            JsonValue::Array(items) => JsonView::Array(
                Seq::new(
                    items@.len(),
                    |i: int|
                        if 0 <= i < items@.len() {
                            proof {
                                assert(decreases_to!(items => items@));
                                assert(decreases_to!(items@ => items@[i]));
                            }
                            items@[i].json_view()
                        } else {
                            JsonView::Null
                        },
                ),
            ),
            JsonValue::Object(members) => JsonView::Object(
                Seq::new(
                    members@.len(),
                    |i: int|
                        if 0 <= i < members@.len() {
                            proof {
                                assert(decreases_to!(members => members@));
                                assert(decreases_to!(members@ => members@[i]));
                                assert(decreases_to!(members@[i] => members@[i].value));
                            }
                            (members@[i].key@, members@[i].value.json_view())
                        } else {
                            (Seq::empty(), JsonView::Null)
                        },
                ),
            ),
        }
    }
}

impl View for JsonValue {
    type V = JsonView;

    open spec fn view(&self) -> JsonView {
        self.json_view()
    }
}

/// The member value under `key` among `members`: the first member with that
/// key, if any.
pub open spec fn members_get(members: Seq<(Seq<char>, JsonView)>, key: Seq<char>) -> Option<JsonView>
    decreases members.len(),
{
    if members.len() == 0 {
        None
    } else if members[0].0 == key {
        Some(members[0].1)
    } else {
        members_get(members.drop_first(), key)
    }
}

/// The value under `key` when `v` is an object; nothing otherwise.
pub open spec fn view_get(v: JsonView, key: Seq<char>) -> Option<JsonView> {
    match v {
        JsonView::Object(members) => members_get(members, key),
        _ => None,
    }
}

/// The string `v` holds, when it is a string.
pub open spec fn view_str(v: JsonView) -> Option<Seq<char>> {
    match v {
        JsonView::Str(s) => Some(s),
        _ => None,
    }
}

/// The items `v` holds, when it is an array.
pub open spec fn view_array(v: JsonView) -> Option<Seq<JsonView>> {
    match v {
        JsonView::Array(items) => Some(items),
        _ => None,
    }
}

/// The views of a sequence of values.
pub open spec fn json_views(items: Seq<JsonValue>) -> Seq<JsonView> {
    items.map_values(|x: JsonValue| x@)
}

/// The views of a sequence of members.
pub open spec fn member_views(members: Seq<JsonMember>) -> Seq<(Seq<char>, JsonView)> {
    members.map_values(|m: JsonMember| (m.key@, m.value@))
}

pub proof fn lemma_array_view(v: &JsonValue)
    ensures
        v matches JsonValue::Array(items) ==> v@ == JsonView::Array(json_views(items@)),
        v matches JsonValue::Object(members) ==> v@ == JsonView::Object(member_views(members@)),
{
    match v {
        JsonValue::Array(items) => {
            assert(JsonView::Array(json_views(items@)) == v@) by {
                if let JsonView::Array(s) = v@ {
                    assert(s =~= json_views(items@));
                }
            }
        },
        JsonValue::Object(members) => {
            assert(JsonView::Object(member_views(members@)) == v@) by {
                if let JsonView::Object(s) = v@ {
                    assert(s =~= member_views(members@));
                }
            }
        },
        _ => {},
    }
}

/// The value under `key` when `v` is an object.
pub fn json_get<'a>(v: &'a JsonValue, key: &str) -> (r: Option<&'a JsonValue>)
    ensures
        r is None <==> view_get(v@, key@) is None,
        r matches Some(x) ==> view_get(v@, key@) == Some(x@),
{
    proof {
        lemma_array_view(v);
    }
    match v {
        JsonValue::Object(members) => {
            let ghost ms = member_views(members@);
            assert(ms.subrange(0, ms.len() as int) =~= ms);
            let mut i: usize = 0;
            while i < members.len()
                invariant
                    i <= members@.len(),
                    ms == member_views(members@),
                    v@ == JsonView::Object(ms),
                    members_get(ms, key@) == members_get(ms.subrange(i as int, ms.len() as int), key@),
                decreases members.len() - i,
            {
                let ghost rest = ms.subrange(i as int, ms.len() as int);
                assert(rest.drop_first() =~= ms.subrange(i + 1, ms.len() as int));
                assert(rest[0] == ms[i as int]);
                if crate::text::str_eq(members[i].key.as_str(), key) {
                    return Some(&members[i].value);
                }
                i = i + 1;
            }
            None
        },
        _ => None,
    }
}

/// The string `v` holds, when it is one.
pub fn json_as_str(v: &JsonValue) -> (r: Option<&String>)
    ensures
        r is None <==> view_str(v@) is None,
        r matches Some(s) ==> view_str(v@) == Some(s@),
{
    match v {
        JsonValue::Str(s) => Some(s),
        _ => None,
    }
}

/// The items `v` holds, when it is an array.
pub fn json_as_array(v: &JsonValue) -> (r: Option<&Vec<JsonValue>>)
    ensures
        r is None <==> view_array(v@) is None,
        r matches Some(items) ==> view_array(v@) == Some(json_views(items@)),
{
    proof {
        lemma_array_view(v);
    }
    match v {
        JsonValue::Array(items) => {
            Some(items)
        },
        _ => None,
    }
}

/// The outcome of `serde_json::from_slice::<serde_json::Value>` on `input`:
/// the document it reads, or the text of its error.
pub uninterp spec fn json_parse_result(input: Seq<u8>) -> Result<JsonView, Seq<char>>;

#[verifier::external_type_specification]
#[verifier::external_body]
pub struct ExSerdeJsonValue(serde_json::Value);

/// Parses `input` as one JSON document with `serde_json::from_slice`, and
/// moves the value into a `JsonValue`. The contract claims that the outcome
/// depends on the bytes alone (it is `json_parse_result` of them): the value
/// read, or the text of serde_json's error. What that value is for given
/// bytes is serde_json's grammar and is not stated here.
#[verifier::external_body]
pub(crate) fn parse_json(input: &[u8]) -> (r: Result<JsonValue, String>)
    ensures
        match r {
            Ok(v) => json_parse_result(input@) == Ok::<JsonView, Seq<char>>(v@),
            Err(m) => json_parse_result(input@) == Err::<JsonView, Seq<char>>(m@),
        },
{
    match serde_json::from_slice::<serde_json::Value>(input) {
        Ok(v) => Ok(json_from_serde(v)),
        Err(e) => Err(e.to_string()),
    }
}

/// Moves a `serde_json::Value` into a `JsonValue`, variant by variant; a
/// number keeps its text as serde_json writes it. Used by `parse_json` alone.
#[verifier::external_body]
fn json_from_serde(v: serde_json::Value) -> JsonValue {
    match v {
        serde_json::Value::Null => JsonValue::Null,
        serde_json::Value::Bool(b) => JsonValue::Bool(b),
        serde_json::Value::Number(n) => JsonValue::Number(n.to_string()),
        serde_json::Value::String(s) => JsonValue::Str(s),
        serde_json::Value::Array(a) => JsonValue::Array(a.into_iter().map(json_from_serde).collect()),
        serde_json::Value::Object(m) => JsonValue::Object(
            m.into_iter().map(|(key, value)| JsonMember { key, value: json_from_serde(value) }).collect(),
        ),
    }
}

/// A hexadecimal digit in lower case.
pub open spec fn hex_lower(d: int) -> char {
    if d < 10 {
        (48 + d) as char
    } else {
        (87 + d) as char
    }
}

/// How one character is written inside a JSON string literal: `"` and `\`
/// behind a backslash; backspace, tab, line feed, form feed and carriage
/// return as `\b \t \n \f \r`; any other character below U+0020 as
/// `\u00XX` (lower-case hex); every other character as itself.
pub open spec fn json_escape_char(c: char) -> Seq<char> {
    let v = c as u32 as int;
    if c == '"' {
        seq!['\\', '"']
    } else if c == '\\' {
        seq!['\\', '\\']
    } else if v == 8 {
        seq!['\\', 'b']
    } else if v == 9 {
        seq!['\\', 't']
    } else if v == 10 {
        seq!['\\', 'n']
    } else if v == 12 {
        seq!['\\', 'f']
    } else if v == 13 {
        seq!['\\', 'r']
    } else if v < 32 {
        seq!['\\', 'u', '0', '0', hex_lower(v / 16), hex_lower(v % 16)]
    } else {
        seq![c]
    }
}

/// The characters of `s`, each written as inside a JSON string literal.
pub open spec fn json_escape(s: Seq<char>) -> Seq<char>
    decreases s.len(),
{
    if s.len() == 0 {
        Seq::empty()
    } else {
        json_escape_char(s[0]) + json_escape(s.drop_first())
    }
}

/// The value of a hexadecimal digit (either case).
pub open spec fn hex_value(c: char) -> int {
    if '0' <= c && c <= '9' {
        c as int - 48
    } else if 'a' <= c && c <= 'f' {
        c as int - 87
    } else if 'A' <= c && c <= 'F' {
        c as int - 55
    } else {
        0
    }
}

/// The character a one-letter escape `\x` stands for.
pub open spec fn unescaped(c: char) -> char {
    if c == 'b' {
        '\u{8}'
    } else if c == 't' {
        '\t'
    } else if c == 'n' {
        '\n'
    } else if c == 'f' {
        '\u{c}'
    } else if c == 'r' {
        '\r'
    } else {
        c
    }
}

/// The characters the inside of a JSON string literal stands for: `\uXXXX`
/// gives the character of that hex code, `\` followed by one letter the
/// character it escapes, any other character itself.
pub open spec fn json_unescape(t: Seq<char>) -> Seq<char>
    decreases t.len(),
{
    if t.len() == 0 {
        Seq::empty()
    } else if t[0] == '\\' && t.len() >= 2 {
        if t[1] == 'u' && t.len() >= 6 {
            seq![((4096 * hex_value(t[2]) + 256 * hex_value(t[3]) + 16 * hex_value(t[4]) + hex_value(t[5])) as u32) as char]
                + json_unescape(t.skip(6))
        } else {
            seq![unescaped(t[1])] + json_unescape(t.skip(2))
        }
    } else {
        seq![t[0]] + json_unescape(t.skip(1))
    }
}

proof fn lemma_hex_digit(d: int)
    requires
        0 <= d < 16,
    ensures
        hex_value(hex_lower(d)) == d,
{
}

/// Reading back what `json_escape` writes gives the text again: the inside of
/// the JSON string literal of `s` stands for `s`.
pub proof fn law_json_string_reads_back(s: Seq<char>)
    ensures
        json_unescape(json_escape(s)) == s,
        json_string_literal(s) == seq!['"'] + json_escape(s) + seq!['"'],
    decreases s.len(),
{
    if s.len() > 0 {
        let c = s[0];
        let e = json_escape_char(c);
        let rest = json_escape(s.drop_first());
        law_json_string_reads_back(s.drop_first());
        let t = e + rest;
        assert(t == json_escape(s));
        assert(t.skip(e.len() as int) =~= rest);
        let u = c as u32;
        let v = u as int;
        if c != '"' && c != '\\' && v != 8 && v != 9 && v != 10 && v != 12 && v != 13 && v < 32 {
            assert(0 <= v / 16 < 2 && 0 <= v % 16 < 16 && 16 * (v / 16) + v % 16 == v) by (nonlinear_arith)
                requires
                    0 <= v < 32,
            ;
            lemma_hex_digit(v / 16);
            lemma_hex_digit(v % 16);
            assert(t[0] == '\\' && t[1] == 'u' && t.len() >= 6);
            assert(t[2] == '0' && t[3] == '0');
            assert(hex_value(t[4]) == v / 16);
            assert(hex_value(t[5]) == v % 16);
            assert(4096 * hex_value(t[2]) + 256 * hex_value(t[3]) + 16 * hex_value(t[4]) + hex_value(t[5]) == v);
            assert(((4096 * hex_value(t[2]) + 256 * hex_value(t[3]) + 16 * hex_value(t[4]) + hex_value(t[5])) as u32) == u);
            vstd::utf8::char_u32_cast(c, u);
            assert((u as char) == c);
            assert(json_unescape(t) == seq![c] + json_unescape(t.skip(6)));
        } else if e.len() == 2 {
            assert(t[0] == '\\' && t[1] == e[1] && t[1] != 'u');
            if v == 8 || v == 9 || v == 10 || v == 12 || v == 13 {
                vstd::utf8::char_u32_cast(c, u);
                let l = unescaped(e[1]);
                vstd::utf8::char_u32_cast(l, l as u32);
                assert(l as u32 == u);
            }
            assert(unescaped(e[1]) == c);
            assert(json_unescape(t) == seq![c] + json_unescape(t.skip(2)));
        } else {
            assert(e == seq![c]);
            assert(t[0] == c);
            assert(json_unescape(t) == seq![c] + json_unescape(t.skip(1)));
        }
        assert(s =~= seq![c] + s.drop_first());
    }
}

/// The JSON string literal that `serde_json::to_string` writes for `s`: the
/// escaped characters between double quotes.
pub open spec fn json_string_literal(s: Seq<char>) -> Seq<char> {
    seq!['"'] + json_escape(s) + seq!['"']
}

/// Writes `s` as a JSON string literal with `serde_json::to_string`. The
/// contract claims the escaping that serde_json's compact formatter applies
/// to a `&str` (its escape table and `\u00XX` form); writing a `&str` to a
/// byte buffer cannot fail.
#[verifier::external_body]
pub(crate) fn to_json_string(s: &str) -> (r: String)
    ensures
        r@ == json_string_literal(s@),
{
    serde_json::to_string(s).unwrap_or_else(|_| "\"\"".to_string())
}

} // verus!
