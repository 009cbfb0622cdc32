//! A plain model of parsed JSON documents, with the lookups that the usage
//! report performs on them (`get`, `as_u64`, `as_i64`, `as_str`,
//! `as_object`), specified exactly.
//!
//! Numbers keep what integer lookups can see: non-negative integers,
//! negative integers, and any other number (a fraction or an exponent form).
//! An object keeps its members in document order; a key is looked up at its
//! first occurrence. Text becomes a `Json` through serde_json's parser.

use vstd::prelude::*;

verus! {

/// A parsed JSON value.
pub enum Json {
    Null,
    Bool(bool),
    /// A non-negative integer that fits in 64 bits.
    PosInt(u64),
    /// A negative integer that fits in 64 bits.
    NegInt(i64),
    /// Any other number.
    OtherNumber,
    Str(String),
    Array(Vec<Json>),
    Object(Vec<(String, Json)>),
}

/// The value of the first member of `members` named `key`.
pub open spec fn member(members: Seq<(String, Json)>, key: Seq<char>) -> Option<Json>
    decreases members.len(),
{
    if members.len() == 0 {
        None
    } else if members[0].0@ == key {
        Some(members[0].1)
    } else {
        member(members.drop_first(), key)
    }
}

/// `value.get(key)`: the member `key` of an object, `None` for anything else.
pub open spec fn get(value: Json, key: Seq<char>) -> Option<Json> {
    match value {
        Json::Object(members) => member(members@, key),
        _ => None,
    }
}

/// `get` applied to an optional value.
pub open spec fn get_opt(value: Option<Json>, key: Seq<char>) -> Option<Json> {
    match value {
        Some(v) => get(v, key),
        None => None,
    }
}

/// `value.as_u64()`.
pub open spec fn as_u64(value: Json) -> Option<u64> {
    match value {
        Json::PosInt(n) => Some(n),
        _ => None,
    }
}

/// `value.as_i64()`.
pub open spec fn as_i64(value: Json) -> Option<i64> {
    match value {
        Json::PosInt(n) => if n <= i64::MAX as u64 {
            Some(n as i64)
        } else {
            None
        },
        Json::NegInt(n) => Some(n),
        _ => None,
    }
}

/// `value.as_str()`.
pub open spec fn as_str(value: Json) -> Option<Seq<char>> {
    match value {
        Json::Str(s) => Some(s@),
        _ => None,
    }
}

/// `value.as_object()`: the members of an object.
pub open spec fn as_object(value: Json) -> Option<Seq<(String, Json)>> {
    match value {
        Json::Object(members) => Some(members@),
        _ => None,
    }
}

/// `get(value, key).and_then(as_u64).unwrap_or(0)`.
pub open spec fn get_u64_or_zero(value: Json, key: Seq<char>) -> u64 {
    match get(value, key) {
        Some(v) => match as_u64(v) {
            Some(n) => n,
            None => 0,
        },
        None => 0,
    }
}

/// Whether the text of `s` equals that of `t`.
pub fn str_eq(s: &str, t: &str) -> (r: bool)
    ensures
        r == (s@ == t@),
{
    let n = s.unicode_len();
    if n != t.unicode_len() {
        return false;
    }
    let mut i: usize = 0;
    while i < n
        invariant
            n == s@.len() == t@.len(),
            i <= n,
            forall|j: int| 0 <= j < i ==> s@[j] == t@[j],
        decreases n - i,
    {
        if s.get_char(i) != t.get_char(i) {
            return false;
        }
        i = i + 1;
    }
    proof {
        assert(s@ =~= t@);
    }
    true
}

/// The first member of `members` named `key`.
pub fn member_of<'a>(members: &'a Vec<(String, Json)>, key: &str) -> (r: Option<&'a Json>)
    ensures
        r matches Some(v) ==> member(members@, key@) == Some(*v),
        r is None ==> member(members@, key@) is None,
{
    let mut i: usize = 0;
    proof {
        assert(members@.skip(0) =~= members@);
    }
    while i < members.len()
        invariant
            i <= members@.len(),
            member(members@, key@) == member(members@.skip(i as int), key@),
        decreases members@.len() - i,
    {
        proof {
            assert(members@.skip(i as int).drop_first() =~= members@.skip(i + 1));
        }
        if str_eq(members[i].0.as_str(), key) {
            return Some(&members[i].1);
        }
        i = i + 1;
    }
    None
}

/// `value.get(key)`.
pub fn json_get<'a>(value: &'a Json, key: &str) -> (r: Option<&'a Json>)
    ensures
        r matches Some(v) ==> get(*value, key@) == Some(*v),
        r is None ==> get(*value, key@) is None,
{
    match value {
        Json::Object(members) => member_of(members, key),
        _ => None,
    }
}

/// `value.as_u64()`.
pub fn json_as_u64(value: &Json) -> (r: Option<u64>)
    ensures
        r == as_u64(*value),
{
    match value {
        Json::PosInt(n) => Some(*n),
        _ => None,
    }
}

/// `value.as_i64()`.
pub fn json_as_i64(value: &Json) -> (r: Option<i64>)
    ensures
        r == as_i64(*value),
{
    match value {
        Json::PosInt(n) => if *n <= i64::MAX as u64 {
            Some(*n as i64)
        } else {
            None
        },
        Json::NegInt(n) => Some(*n),
        _ => None,
    }
}

/// `value.as_str()`.
pub fn json_as_str(value: &Json) -> (r: Option<&str>)
    ensures
        r matches Some(s) ==> as_str(*value) == Some(s@),
        r is None ==> as_str(*value) is None,
{
    match value {
        Json::Str(s) => Some(s.as_str()),
        _ => None,
    }
}

/// `value.as_object()`.
pub fn json_as_object(value: &Json) -> (r: Option<&Vec<(String, Json)>>)
    ensures
        r matches Some(m) ==> as_object(*value) == Some(m@),
        r is None ==> as_object(*value) is None,
{
    match value {
        Json::Object(members) => Some(members),
        _ => None,
    }
}

/// `value.get(key).and_then(as_u64).unwrap_or(0)`.
pub fn json_get_u64(value: &Json, key: &str) -> (r: u64)
    ensures
        r == get_u64_or_zero(*value, key@),
{
    match json_get(value, key) {
        Some(v) => match json_as_u64(v) {
            Some(n) => n,
            None => 0,
        },
        None => 0,
    }
}


#[verifier::external_type_specification]
#[verifier::external_body]
pub struct ExJsonValue(serde_json::Value);

/// What `serde_json::from_str::<serde_json::Value>` makes of `text`, as a
/// `Json`: `None` when the text is not one JSON document.
pub uninterp spec fn json_of_text(text: Seq<char>) -> Option<Json>;

/// A `serde_json::Value` as a `Json`, variant by variant: a number that
/// `as_u64` reads is a `PosInt`, else one that `as_i64` reads is a `NegInt`,
/// else it is `OtherNumber`. Nothing is claimed of the result on its own;
/// `parse_json` states what the parse and this conversion give together.
#[verifier::external_body]
fn json_of_value(v: &serde_json::Value) -> Json {
    match v {
        serde_json::Value::Null => Json::Null,
        serde_json::Value::Bool(b) => Json::Bool(*b),
        serde_json::Value::Number(n) => match (n.as_u64(), n.as_i64()) {
            (Some(u), _) => Json::PosInt(u),
            (None, Some(i)) => Json::NegInt(i),
            (None, None) => Json::OtherNumber,
        },
        serde_json::Value::String(t) => Json::Str(t.clone()),
        serde_json::Value::Array(a) => Json::Array(a.iter().map(json_of_value).collect()),
        serde_json::Value::Object(m) => Json::Object(m.iter().map(|(k, x)| (k.clone(), json_of_value(x))).collect()),
    }
}

/// `serde_json::from_str::<serde_json::Value>(text)`, as a `Json`. The parse
/// depends on the text alone, so the claim is that the result is the value
/// named above; `None` stands for a parse error.
#[verifier::external_body]
pub(crate) fn parse_json(text: &str) -> (r: Option<Json>)
    ensures
        r == json_of_text(text@),
{
    serde_json::from_str::<serde_json::Value>(text).ok().map(|v| json_of_value(&v))
}

} // verus!
