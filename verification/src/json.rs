//! JSON documents as the `serde_json` crate parses them, and what the library
//! reads in them.

use serde_json::Value;
use vstd::prelude::*;

verus! {

/// A parsed JSON document of the `serde_json` crate, opaque to the verifier.
#[verifier::external_type_specification]
#[verifier::external_body]
pub struct ExValue(serde_json::Value);

/// The error of the `serde_json` crate.
#[verifier::external_type_specification]
#[verifier::external_body]
pub struct ExJsonError(serde_json::Error);

/// What a JSON document holds.
pub enum Json {
    Null,
    Bool(bool),
    /// A number; `unsigned` holds it where it is a whole number that was
    /// written without a sign and fits 64 bits.
    Number { unsigned: Option<u64> },
    Text(Seq<char>),
    Array(Seq<Json>),
    Object(Map<Seq<char>, Json>),
}

/// What a parsed document holds.
pub uninterp spec fn json_of(v: Value) -> Json;

/// The document that a sequence of bytes is the JSON text of; `None` where
/// the bytes are no JSON text.
pub uninterp spec fn json_parse(bytes: Seq<u8>) -> Option<Json>;

/// What each document of a list holds.
pub open spec fn jsons_of(items: Seq<Value>) -> Seq<Json> {
    Seq::new(items.len(), |i: int| json_of(items[i]))
}

/// The member of an object under `key`; `None` where `doc` is no object or
/// has no such member.
pub open spec fn member_of(doc: Json, key: Seq<char>) -> Option<Json> {
    match doc {
        Json::Object(members) => if members.contains_key(key) {
            Some(members[key])
        } else {
            None
        },
        _ => None,
    }
}

/// The characters of a document that is a string.
pub open spec fn text_of(doc: Option<Json>) -> Option<Seq<char>> {
    match doc {
        Some(Json::Text(s)) => Some(s),
        _ => None,
    }
}

/// The value of a document that is an unsigned whole number.
pub open spec fn unsigned_of(doc: Option<Json>) -> Option<u64> {
    match doc {
        Some(Json::Number { unsigned }) => unsigned,
        _ => None,
    }
}

/// The items of a document that is an array.
pub open spec fn items_of(doc: Option<Json>) -> Option<Seq<Json>> {
    match doc {
        Some(Json::Array(items)) => Some(items),
        _ => None,
    }
}

/// `serde_json::from_slice` parses bytes as JSON text: it gives the document
/// that the bytes are the text of, or an error where they are none. The
/// outcome depends on the bytes alone.
#[verifier::external_body]
pub(crate) fn parse(bytes: &[u8]) -> (r: Result<Value, serde_json::Error>)
    ensures
        match r {
            Ok(v) => json_parse(bytes@) == Some(json_of(v)),
            Err(_) => json_parse(bytes@) is None,
        },
{
    serde_json::from_slice(bytes)
}

/// The `Display` form of a `serde_json::Error`: the parser's message.
/// Nothing is claimed of the text.
#[verifier::external_body]
pub(crate) fn error_message(e: &serde_json::Error) -> String {
    e.to_string()
}

/// `Value::get` with a string index looks a member of an object up by its
/// key; it gives `None` for a value that is no object and for a key that the
/// object lacks.
#[verifier::external_body]
pub(crate) fn member<'a>(v: &'a Value, key: &str) -> (r: Option<&'a Value>)
    ensures
        match r {
            Some(m) => member_of(json_of(*v), key@) == Some(json_of(*m)),
            None => member_of(json_of(*v), key@) is None,
        },
{
    v.get(key)
}

/// `Value::as_str` gives the string of a value that is one, else `None`.
pub assume_specification[ Value::as_str ](v: &Value) -> (r: Option<&str>)
    ensures
        match r {
            Some(s) => json_of(*v) == Json::Text(s@),
            None => !(json_of(*v) is Text),
        },
;

/// `Value::as_u64` gives the number of a value that is a whole number
/// written without a sign and fitting 64 bits, else `None`.
pub assume_specification[ Value::as_u64 ](v: &Value) -> (r: Option<u64>)
    ensures
        r == unsigned_of(Some(json_of(*v))),
;

/// `Value::as_array` gives the items of a value that is an array, else `None`.
pub assume_specification[ Value::as_array ](v: &Value) -> (r: Option<&Vec<Value>>)
    ensures
        match r {
            Some(items) => json_of(*v) == Json::Array(jsons_of(items@)),
            None => !(json_of(*v) is Array),
        },
;

/// The string under `key` in an object.
pub fn text_member<'a>(v: &'a Value, key: &str) -> (r: Option<&'a str>)
    ensures
        crate::text::slice_view(r) == text_of(member_of(json_of(*v), key@)),
{
    match member(v, key) {
        Some(m) => m.as_str(),
        None => None,
    }
}

/// The unsigned number under `key` in an object.
pub fn unsigned_member(v: &Value, key: &str) -> (r: Option<u64>)
    ensures
        r == unsigned_of(member_of(json_of(*v), key@)),
{
    match member(v, key) {
        Some(m) => m.as_u64(),
        None => None,
    }
}

} // verus!
