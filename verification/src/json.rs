//! JSON values held as plain data, and the bridge to the JSON parser and
//! writer that reads and writes them.

use vstd::prelude::*;

verus! {

/// A JSON number as the parser holds it: a non-negative integer, a negative
/// one, or any other number by its text.
#[derive(Clone, Debug, PartialEq, Eq)]
pub enum JsonNumber {
    PosInt(u64),
    NegInt(i64),
    Float(String),
}

/// A parsed JSON value; an object keeps its members in order, each key once.
#[derive(Debug, PartialEq, Eq)]
pub enum Json {
    Null,
    Bool(bool),
    Number(JsonNumber),
    String(String),
    Array(Vec<Json>),
    Object(Vec<(String, Json)>),
}

/// The first member of `entries` named `key`.
pub open spec fn lookup(entries: Seq<(String, Json)>, key: Seq<char>) -> Option<Json>
    decreases entries.len(),
{
    if entries.len() == 0 {
        None
    } else if entries[0].0@ == key {
        Some(entries[0].1)
    } else {
        lookup(entries.drop_first(), key)
    }
}

/// Looking a key up in one more member: the earlier ones still win.
pub proof fn lemma_lookup_extend(entries: Seq<(String, Json)>, i: int, key: Seq<char>)
    requires
        0 <= i < entries.len(),
    ensures
        lookup(entries.take(i + 1), key) == match lookup(entries.take(i), key) {
            Some(v) => Some(v),
            None => if entries[i].0@ == key { Some(entries[i].1) } else { None },
        },
    decreases i,
{
    let a = entries.take(i + 1);
    assert(a[0] == entries[0]);
    if i > 0 {
        let b = entries.take(i);
        assert(b[0] == entries[0]);
        assert(entries.drop_first()[i - 1] == entries[i]);
        lemma_lookup_extend(entries.drop_first(), i - 1, key);
        assert(a.drop_first() =~= entries.drop_first().take(i));
        assert(b.drop_first() =~= entries.drop_first().take(i - 1));
        if entries[0].0@ == key {
            assert(lookup(a, key) == Some(entries[0].1));
            assert(lookup(b, key) == Some(entries[0].1));
        } else {
            assert(lookup(a, key) == lookup(a.drop_first(), key));
            assert(lookup(b, key) == lookup(b.drop_first(), key));
        }
    } else {
        assert(a.drop_first() =~= Seq::<(String, Json)>::empty());
        assert(entries.take(0) =~= Seq::<(String, Json)>::empty());
    }
}

#[verifier::external_type_specification]
#[verifier::external_body]
pub struct ExValue(serde_json::Value);

#[verifier::external_type_specification]
#[verifier::external_body]
pub struct ExNumber(serde_json::Number);

/// A parsed number as the library holds it: an integer where it is one,
/// its text otherwise.
#[verifier::external_body]
fn from_number(n: serde_json::Number) -> JsonNumber {
    match (n.as_u64(), n.as_i64()) {
        (Some(u), _) => JsonNumber::PosInt(u),
        (None, Some(i)) => JsonNumber::NegInt(i),
        (None, None) => JsonNumber::Float(n.to_string()),
    }
}

/// The value a number is written as: its text read back as a number,
/// `null` where that text is no number.
#[verifier::external_body]
fn to_number(n: &JsonNumber) -> serde_json::Value {
    match n {
        JsonNumber::PosInt(u) => serde_json::Value::from(*u),
        JsonNumber::NegInt(i) => serde_json::Value::from(*i),
        JsonNumber::Float(t) => match t.parse::<serde_json::Number>() {
            Ok(n) => serde_json::Value::Number(n),
            Err(_) => serde_json::Value::Null,
        },
    }
}

/// The library's copy of a parsed `serde_json::Value`: each variant moved
/// into its counterpart, a number kept as an integer where it is one and by
/// its text otherwise, an object's members in the parser's order.
#[verifier::external_body]
fn from_value(v: serde_json::Value) -> Json {
    match v {
        serde_json::Value::Null => Json::Null,
        serde_json::Value::Bool(b) => Json::Bool(b),
        serde_json::Value::Number(n) => Json::Number(from_number(n)),
        serde_json::Value::String(s) => Json::String(s),
        serde_json::Value::Array(a) => Json::Array(a.into_iter().map(from_value).collect()),
        serde_json::Value::Object(o) => Json::Object(o.into_iter().map(|(k, v)| (k, from_value(v))).collect()),
    }
}

/// The `serde_json::Value` a library value is written through: the same
/// variant for each, a number's text read back as a number (`null` where
/// that text is no number), an object's members inserted in order.
#[verifier::external_body]
fn to_value(v: &Json) -> serde_json::Value {
    match v {
        Json::Null => serde_json::Value::Null,
        Json::Bool(b) => serde_json::Value::Bool(*b),
        Json::Number(n) => to_number(n),
        Json::String(s) => serde_json::Value::String(s.clone()),
        Json::Array(a) => serde_json::Value::Array(a.iter().map(to_value).collect()),
        Json::Object(o) => serde_json::Value::Object(o.iter().map(|(k, v)| (k.clone(), to_value(v))).collect()),
    }
}

/// What `serde_json::from_slice` reads from the bytes `b` as a value, if
/// they are one JSON text.
pub uninterp spec fn json_of(b: Seq<u8>) -> Option<Json>;

/// What `serde_json::from_str` reads from the text `t` as a value, if it is
/// one JSON text.
pub uninterp spec fn json_of_text(t: Seq<char>) -> Option<Json>;

/// The bytes `serde_json::to_vec` writes for the value `v`.
pub uninterp spec fn json_bytes(v: Json) -> Seq<u8>;

/// `serde_json::from_slice` into a value: the result depends on the bytes
/// alone and is named `json_of`; nothing more of it is claimed.
#[verifier::external_body]
pub(crate) fn parse_json(body: &[u8]) -> (v: Option<Json>)
    ensures
        v == json_of(body@),
{
    match serde_json::from_slice::<serde_json::Value>(body) {
        Ok(v) => Some(from_value(v)),
        Err(_) => None,
    }
}

/// `serde_json::from_str` into a value: the result depends on the text
/// alone and is named `json_of_text`; nothing more of it is claimed.
#[verifier::external_body]
pub(crate) fn parse_json_text(text: &str) -> (v: Option<Json>)
    ensures
        v == json_of_text(text@),
{
    match serde_json::from_str::<serde_json::Value>(text) {
        Ok(v) => Some(from_value(v)),
        Err(_) => None,
    }
}

/// `serde_json::to_vec` of a value: the bytes depend on the value alone and
/// are named `json_bytes`. Writing a value cannot fail (its keys are all
/// strings); the empty answer to an error is never given.
#[verifier::external_body]
pub(crate) fn encode_json(v: &Json) -> (b: Vec<u8>)
    ensures
        b@ == json_bytes(*v),
{
    match serde_json::to_vec(&to_value(v)) {
        Ok(b) => b,
        Err(_) => Vec::new(),
    }
}

} // verus!
