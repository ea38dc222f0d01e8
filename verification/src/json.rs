//! JSON documents as the library reads them: a tree of plain values, with
//! the lookups that the readers of kubectl output make on it. Parsing the
//! text is left to `serde_json`.

use vstd::prelude::*;
use crate::text::dec_chars;

verus! {

#[verifier::external_type_specification]
#[verifier::external_body]
pub struct ExSerdeJsonValue(serde_json::Value);

/// A JSON number: the value when it is a non-negative integer that fits in
/// `u64`, and the text `serde_json` writes for it.
#[derive(Debug, Clone, PartialEq, Eq)]
pub struct JsonNumber {
    pub as_u64: Option<u64>,
    pub text: String,
}

/// One member of a JSON object.
#[derive(Debug)]
pub struct JsonMember {
    pub key: String,
    pub value: JsonValue,
}

/// A JSON value. The members of an object have distinct keys, in the order
/// in which `serde_json` keeps them (sorted by key).
#[derive(Debug)]
pub enum JsonValue {
    Null,
    Bool(bool),
    Number(JsonNumber),
    Str(String),
    Array(Vec<JsonValue>),
    Object(Vec<JsonMember>),
}

/// What `serde_json::from_str` gives for a text: the document, or the text
/// of its error.
pub uninterp spec fn json_parsed(text: Seq<char>) -> Result<JsonValue, Seq<char>>;

/// `serde_json::from_str::<serde_json::Value>`. The contract names the
/// outcome as a function of the text; the document is handed out as a
/// `JsonValue`, and an error as the text `Display` writes for it.
#[verifier::external_body]
pub(crate) fn parse_json_text(text: &str) -> (r: Result<JsonValue, String>)
    ensures
        match r {
            Ok(v) => json_parsed(text@) == Ok::<JsonValue, Seq<char>>(v),
            Err(e) => json_parsed(text@) == Err::<JsonValue, Seq<char>>(e@),
        },
{
    match serde_json::from_str::<serde_json::Value>(text) {
        Ok(value) => Ok(json_value_of(value)),
        Err(err) => Err(err.to_string()),
    }
}

/// A `serde_json::Value` as a `JsonValue`, one variant for one variant.
#[verifier::external_body]
fn json_value_of(value: serde_json::Value) -> JsonValue {
    match value {
        serde_json::Value::Null => JsonValue::Null,
        serde_json::Value::Bool(b) => JsonValue::Bool(b),
        serde_json::Value::Number(n) => JsonValue::Number(
            JsonNumber { as_u64: n.as_u64(), text: n.to_string() },
        ),
        serde_json::Value::String(s) => JsonValue::Str(s),
        serde_json::Value::Array(items) => JsonValue::Array(items.into_iter().map(json_value_of).collect()),
        serde_json::Value::Object(map) => JsonValue::Object(
            map.into_iter().map(|(key, v)| JsonMember { key, value: json_value_of(v) }).collect(),
        ),
    }
}

// ---------------------------------------------------------------------------
// Lookups
// ---------------------------------------------------------------------------

/// The value of the first member named `key`.
pub open spec fn member_value(ms: Seq<JsonMember>, key: Seq<char>) -> Option<JsonValue>
    decreases ms.len(),
{
    if ms.len() == 0 {
        None
    } else if ms[0].key@ == key {
        Some(ms[0].value)
    } else {
        member_value(ms.drop_first(), key)
    }
}

/// `value.get(key)` on an object; nothing on anything else.
pub open spec fn at(v: Option<JsonValue>, key: Seq<char>) -> Option<JsonValue> {
    match v {
        Some(JsonValue::Object(ms)) => member_value(ms@, key),
        _ => None,
    }
}

pub open spec fn as_str(v: Option<JsonValue>) -> Option<Seq<char>> {
    match v {
        Some(JsonValue::Str(s)) => Some(s@),
        _ => None,
    }
}

pub open spec fn as_u64(v: Option<JsonValue>) -> Option<u64> {
    match v {
        Some(JsonValue::Number(n)) => n.as_u64,
        _ => None,
    }
}

pub open spec fn as_bool(v: Option<JsonValue>) -> Option<bool> {
    match v {
        Some(JsonValue::Bool(b)) => Some(b),
        _ => None,
    }
}

/// The items of an array; none for anything else.
pub open spec fn items(v: Option<JsonValue>) -> Seq<JsonValue> {
    match v {
        Some(JsonValue::Array(xs)) => xs@,
        _ => Seq::empty(),
    }
}

/// The members of an object; none for anything else.
pub open spec fn members(v: Option<JsonValue>) -> Seq<JsonMember> {
    match v {
        Some(JsonValue::Object(ms)) => ms@,
        _ => Seq::empty(),
    }
}

pub open spec fn deref_opt(v: Option<&JsonValue>) -> Option<JsonValue> {
    match v {
        Some(x) => Some(*x),
        None => None,
    }
}

/// `value.get(key)`.
pub fn json_at<'a>(v: Option<&'a JsonValue>, key: &str) -> (r: Option<&'a JsonValue>)
    ensures
        deref_opt(r) == at(deref_opt(v), key@),
{
    match v {
        Some(JsonValue::Object(ms)) => {
            let mut i: usize = 0;
            assert(ms@.skip(0) =~= ms@);
            while i < ms.len()
                invariant
                    i <= ms@.len(),
                    at(deref_opt(v), key@) == member_value(ms@, key@),
                    member_value(ms@, key@) == member_value(ms@.skip(i as int), key@),
                decreases ms.len() - i,
            {
                assert(ms@.skip(i as int)[0] == ms@[i as int]);
                assert(ms@.skip(i as int).drop_first() =~= ms@.skip(i + 1));
                if crate::text::str_eq(ms[i].key.as_str(), key) {
                    return Some(&ms[i].value);
                }
                i = i + 1;
            }
            None
        },
        _ => None,
    }
}

/// `value.as_str()`, as an owned string.
pub fn json_str(v: Option<&JsonValue>) -> (r: Option<String>)
    ensures
        match r {
            Some(s) => as_str(deref_opt(v)) == Some(s@),
            None => as_str(deref_opt(v)) is None,
        },
{
    match v {
        Some(JsonValue::Str(s)) => Some(s.clone()),
        _ => None,
    }
}

/// Whether `value.as_str()` is `Some(text)`.
pub fn json_str_is(v: Option<&JsonValue>, text: &str) -> (r: bool)
    ensures
        r == (as_str(deref_opt(v)) == Some(text@)),
{
    match v {
        Some(JsonValue::Str(s)) => crate::text::str_eq(s.as_str(), text),
        _ => false,
    }
}

/// `value.as_u64()`.
pub fn json_u64(v: Option<&JsonValue>) -> (r: Option<u64>)
    ensures
        r == as_u64(deref_opt(v)),
{
    match v {
        Some(JsonValue::Number(n)) => n.as_u64,
        _ => None,
    }
}

/// `value.as_bool()`.
pub fn json_bool(v: Option<&JsonValue>) -> (r: Option<bool>)
    ensures
        r == as_bool(deref_opt(v)),
{
    match v {
        Some(JsonValue::Bool(b)) => Some(*b),
        _ => None,
    }
}

/// The items of an array, or none.
pub fn json_items<'a>(v: Option<&'a JsonValue>) -> (r: &'a [JsonValue])
    ensures
        r@ == items(deref_opt(v)),
{
    match v {
        Some(JsonValue::Array(xs)) => xs.as_slice(),
        _ => &[],
    }
}

/// The members of an object, or none.
pub fn json_members<'a>(v: Option<&'a JsonValue>) -> (r: &'a [JsonMember])
    ensures
        r@ == members(deref_opt(v)),
{
    match v {
        Some(JsonValue::Object(ms)) => ms.as_slice(),
        _ => &[],
    }
}

// ---------------------------------------------------------------------------
// Describing JSON values
// ---------------------------------------------------------------------------

pub open spec fn str_is(v: JsonValue, s: Seq<char>) -> bool {
    match v {
        JsonValue::Str(x) => x@ == s,
        _ => false,
    }
}

pub open spec fn u64_is(v: JsonValue, n: u64) -> bool {
    match v {
        JsonValue::Number(x) => x.as_u64 == Some(n) && x.text@ == dec_chars(n as nat),
        _ => false,
    }
}

pub open spec fn bool_is(v: JsonValue, b: bool) -> bool {
    v == JsonValue::Bool(b)
}

/// A string, or `null` for none.
pub open spec fn opt_str_is(v: JsonValue, o: Option<Seq<char>>) -> bool {
    match o {
        Some(s) => str_is(v, s),
        None => v is Null,
    }
}

/// An object whose members have these keys, in this order.
pub open spec fn members_are(v: JsonValue, keys: Seq<Seq<char>>) -> bool {
    match v {
        JsonValue::Object(ms) => ms@.len() == keys.len() && forall|i: int|
            0 <= i < keys.len() ==> (#[trigger] ms@[i]).key@ == keys[i],
        _ => false,
    }
}

/// The value of an object's `i`-th member.
pub open spec fn member(v: JsonValue, i: int) -> JsonValue {
    match v {
        JsonValue::Object(ms) => ms@[i].value,
        _ => JsonValue::Null,
    }
}

// ---------------------------------------------------------------------------
// Writing
// ---------------------------------------------------------------------------

/// What `serde_json::to_string_pretty` writes for a value.
pub uninterp spec fn json_pretty_text(v: JsonValue) -> Seq<char>;

/// `serde_json::to_string_pretty` on the `serde_json::Value` of a
/// `JsonValue`. The contract names the text as a function of the value;
/// writing a `Value` does not fail.
#[verifier::external_body]
pub(crate) fn json_to_pretty_string(v: &JsonValue) -> (r: String)
    ensures
        r@ == json_pretty_text(*v),
{
    serde_json::to_string_pretty(&serde_value_of(v)).unwrap_or_default()
}

/// What `serde_json::to_string` writes for a value.
pub uninterp spec fn json_compact_text(v: JsonValue) -> Seq<char>;

/// `serde_json::to_string` on the `serde_json::Value` of a `JsonValue`. The
/// contract names the text as a function of the value; writing a `Value`
/// does not fail.
#[verifier::external_body]
pub(crate) fn json_to_compact_string(v: &JsonValue) -> (r: String)
    ensures
        r@ == json_compact_text(*v),
{
    serde_json::to_string(&serde_value_of(v)).unwrap_or_default()
}

/// A `JsonValue` as a `serde_json::Value`, one variant for one variant.
#[verifier::external_body]
fn serde_value_of(v: &JsonValue) -> serde_json::Value {
    match v {
        JsonValue::Null => serde_json::Value::Null,
        JsonValue::Bool(b) => serde_json::Value::Bool(*b),
        JsonValue::Number(n) => match n.as_u64 {
            Some(x) => serde_json::Value::from(x),
            None => serde_json::from_str::<serde_json::Value>(&n.text).unwrap_or(serde_json::Value::Null),
        },
        JsonValue::Str(s) => serde_json::Value::String(s.clone()),
        JsonValue::Array(xs) => serde_json::Value::Array(xs.iter().map(serde_value_of).collect()),
        JsonValue::Object(ms) => serde_json::Value::Object(
            ms.iter().map(|m| (m.key.clone(), serde_value_of(&m.value))).collect(),
        ),
    }
}

} // verus!
