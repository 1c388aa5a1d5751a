//! A JSON value model for typed receipt claims, with the accessors the
//! claim checks read through.
use crate::text::eq_str;
use vstd::prelude::*;

verus! {

#[verifier::external_type_specification]
#[verifier::external_body]
pub struct ExJsonDocument(serde_json::Value);

/// The value that `serde_json::from_slice` reads from the bytes, or `None`
/// where they are not one JSON document.
pub uninterp spec fn json_value(bytes: Seq<u8>) -> Option<JsonValue>;

/// Converts one value read by `serde_json` into the library's model,
/// variant for variant and member for member (a number by `as_u64`). It has
/// no contract of its own: only `parse_json` calls it, and what
/// `parse_json` returns is what the name `json_value` stands for.
#[verifier::external_body]
fn json_node_of(v: &serde_json::Value) -> JsonValue {
    match v {
        serde_json::Value::Null => JsonValue::Null,
        serde_json::Value::Bool(b) => JsonValue::Bool(*b),
        serde_json::Value::Number(n) => JsonValue::Number(n.as_u64()),
        serde_json::Value::String(s) => JsonValue::Str(s.clone()),
        serde_json::Value::Array(items) => JsonValue::Array(items.iter().map(json_node_of).collect()),
        serde_json::Value::Object(m) => JsonValue::Object(m.iter().map(|(k, x)| (k.clone(), json_node_of(x))).collect()),
    }
}

/// Reads one JSON document with `serde_json::from_slice`. Claimed: the
/// result is `json_value` of the bytes, a function of the bytes alone.
#[verifier::external_body]
pub fn parse_json(bytes: &Vec<u8>) -> (r: Option<JsonValue>)
    ensures
        r == json_value(bytes@),
{
    match serde_json::from_slice::<serde_json::Value>(bytes.as_slice()) {
        Ok(v) => Some(json_node_of(&v)),
        Err(_) => None,
    }
}

/// One JSON value. A number keeps its value where it is a non-negative
/// integer that fits in 64 bits (`None` for any other number); an object
/// keeps its members in order, each key once.
#[derive(Debug)]
pub enum JsonValue {
    Null,
    Bool(bool),
    Number(Option<u64>),
    Str(String),
    Array(Vec<JsonValue>),
    Object(Vec<(String, JsonValue)>),
}

/// The position of the member named `key`.
pub open spec fn member_index(members: Seq<(String, JsonValue)>, key: Seq<char>) -> Option<int> {
    if exists|i: int| 0 <= i < members.len() && (#[trigger] members[i]).0@ == key {
        Some(
            choose|i: int|
                0 <= i < members.len() && (#[trigger] members[i]).0@ == key && forall|j: int|
                    0 <= j < i ==> (#[trigger] members[j]).0@ != key,
        )
    } else {
        None
    }
}

/// The member named `key` of an object (`Value::get`); nothing for any other
/// value.
pub open spec fn json_get(v: JsonValue, key: Seq<char>) -> Option<JsonValue> {
    match v {
        JsonValue::Object(members) => match member_index(members@, key) {
            Some(i) => Some(members@[i].1),
            None => None,
        },
        _ => None,
    }
}

pub open spec fn json_u64(v: Option<JsonValue>) -> Option<u64> {
    match v {
        Some(JsonValue::Number(n)) => n,
        _ => None,
    }
}

pub open spec fn json_str(v: Option<JsonValue>) -> Option<Seq<char>> {
    match v {
        Some(JsonValue::Str(s)) => Some(s@),
        _ => None,
    }
}

pub open spec fn json_bool(v: Option<JsonValue>) -> Option<bool> {
    match v {
        Some(JsonValue::Bool(b)) => Some(b),
        _ => None,
    }
}

/// The member is the boolean `true`.
pub open spec fn flag(v: JsonValue, key: Seq<char>) -> bool {
    json_bool(json_get(v, key)) == Some(true)
}

/// The member is present and `null`.
pub open spec fn null_member(v: JsonValue, key: Seq<char>) -> bool {
    json_get(v, key) == Some(JsonValue::Null)
}

/// The member's text, or the empty text where it is not a string.
pub open spec fn text_or_empty(v: JsonValue, key: Seq<char>) -> Seq<char> {
    match json_str(json_get(v, key)) {
        Some(s) => s,
        None => Seq::empty(),
    }
}

/// The member's unsigned value, or zero where it has none.
pub open spec fn u64_or_zero(v: JsonValue, key: Seq<char>) -> u64 {
    match json_u64(json_get(v, key)) {
        Some(n) => n,
        None => 0,
    }
}

fn find_member(members: &Vec<(String, JsonValue)>, key: &str) -> (r: Option<usize>)
    ensures
        match r {
            Some(i) => i < members@.len() && member_index(members@, key@) == Some(i as int),
            None => member_index(members@, key@) is None,
        },
{
    let mut i: usize = 0;
    while i < members.len()
        invariant
            i <= members@.len(),
            forall|j: int| 0 <= j < i ==> (#[trigger] members@[j]).0@ != key@,
        decreases members@.len() - i,
    {
        if eq_str(members[i].0.as_str(), key) {
            proof {
                assert(members@[i as int].0@ == key@);
                let c = choose|c: int|
                    0 <= c < members@.len() && (#[trigger] members@[c]).0@ == key@ && forall|j: int|
                        0 <= j < c ==> (#[trigger] members@[j]).0@ != key@;
                if c < i {
                    assert(members@[c].0@ != key@);
                } else if c > i {
                    assert(members@[i as int].0@ != key@);
                }
            }
            return Some(i);
        }
        i += 1;
    }
    None
}

/// The member named `key` (`Value::get`).
pub fn get<'a>(v: &'a JsonValue, key: &str) -> (r: Option<&'a JsonValue>)
    ensures
        match r {
            Some(x) => json_get(*v, key@) == Some(*x),
            None => json_get(*v, key@) is None,
        },
{
    match v {
        JsonValue::Object(members) => match find_member(members, key) {
            Some(i) => Some(&members[i].1),
            None => None,
        },
        _ => None,
    }
}

pub fn get_u64(v: &JsonValue, key: &str) -> (r: Option<u64>)
    ensures
        r == json_u64(json_get(*v, key@)),
{
    match get(v, key) {
        Some(JsonValue::Number(n)) => *n,
        _ => None,
    }
}

pub fn get_str<'a>(v: &'a JsonValue, key: &str) -> (r: Option<&'a str>)
    ensures
        match r {
            Some(s) => json_str(json_get(*v, key@)) == Some(s@),
            None => json_str(json_get(*v, key@)) is None,
        },
{
    match get(v, key) {
        Some(JsonValue::Str(s)) => Some(s.as_str()),
        _ => None,
    }
}

pub fn get_flag(v: &JsonValue, key: &str) -> (r: bool)
    ensures
        r == flag(*v, key@),
{
    match get(v, key) {
        Some(JsonValue::Bool(b)) => *b,
        _ => false,
    }
}

pub fn get_null(v: &JsonValue, key: &str) -> (r: bool)
    ensures
        r == null_member(*v, key@),
{
    match get(v, key) {
        Some(JsonValue::Null) => true,
        _ => false,
    }
}

pub fn text_or_empty_exec<'a>(v: &'a JsonValue, key: &str) -> (r: &'a str)
    ensures
        r@ == text_or_empty(*v, key@),
{
    match get_str(v, key) {
        Some(s) => s,
        None => {
            proof {
                reveal_strlit("");
            }
            ""
        },
    }
}

pub fn u64_or_zero_exec(v: &JsonValue, key: &str) -> (r: u64)
    ensures
        r == u64_or_zero(*v, key@),
{
    match get_u64(v, key) {
        Some(n) => n,
        None => 0,
    }
}

} // verus!
