//! JSON documents, read and built through `serde_json`.
use serde_json::{Error as JsonError, Value as Document};
use vstd::prelude::*;

use crate::fp;

verus! {

/// A JSON document of `serde_json`.
#[verifier::external_type_specification]
#[verifier::external_body]
pub struct ExDocument(Document);

/// Why `serde_json` refuses a text.
#[verifier::external_type_specification]
#[verifier::external_body]
pub struct ExJsonError(JsonError);

/// What a JSON document says. Numbers are natural ones, negative ones, or those of double precision
/// by their bits.
pub enum Json {
    Null,
    Bool(bool),
    Nat(u64),
    Neg(i64),
    Float(u64),
    Str(Seq<char>),
    Arr(Seq<Json>),
    Obj(Map<Seq<char>, Json>),
}

/// What a document of `serde_json` holds.
pub uninterp spec fn json(v: Document) -> Json;

/// What `serde_json::from_slice` makes of a text; none where it refuses it.
pub uninterp spec fn parsed(text: Seq<u8>) -> Option<Json>;

/// How `serde_json` writes a document, without white space.
pub uninterp spec fn rendered(j: Json) -> Seq<char>;

/// The member of a document under a key: null where it has none.
pub open spec fn member_of(j: Json, key: Seq<char>) -> Json {
    match j {
        Json::Obj(m) => if m.contains_key(key) {
            m[key]
        } else {
            Json::Null
        },
        _ => Json::Null,
    }
}

/// Calls `serde_json::from_slice` for a `serde_json::Value`: the document that the text writes, or
/// why it writes none. Which texts are accepted is left to that function.
#[verifier::external_body]
pub(crate) fn parse(text: &[u8]) -> (r: Result<Document, JsonError>)
    ensures
        match r {
            Ok(v) => parsed(text@) == Some(json(v)),
            Err(_) => parsed(text@) is None,
        },
{
    serde_json::from_slice(text)
}

/// Indexes a `serde_json::Value` by a key: its member under the key, or null where it is no object
/// or has no such member.
#[verifier::external_body]
pub(crate) fn member<'a>(v: &'a Document, key: &str) -> (r: &'a Document)
    ensures
        json(*r) == member_of(json(*v), key@),
{
    &v[key]
}

/// Calls `serde_json::Value::as_str`: the text of a string, none of anything else.
#[verifier::external_body]
pub(crate) fn as_str<'a>(v: &'a Document) -> (r: Option<&'a str>)
    ensures
        match json(*v) {
            Json::Str(s) => r is Some && r->0@ == s,
            _ => r is None,
        },
{
    v.as_str()
}

/// Calls `serde_json::Value::as_u64`: the value of a natural number, none of anything else.
#[verifier::external_body]
pub(crate) fn as_u64(v: &Document) -> (r: Option<u64>)
    ensures
        r == (match json(*v) {
            Json::Nat(n) => Some(n),
            _ => None,
        }),
{
    v.as_u64()
}

/// A number as the bits of double precision; none of anything else.
pub open spec fn double_in(j: Json) -> Option<u64> {
    match j {
        Json::Nat(n) => Some(fp::double_of(n as nat) as u64),
        Json::Neg(i) => Some((0x8000_0000_0000_0000 + fp::double_of((-i) as nat)) as u64),
        Json::Float(b) => Some(b),
        _ => None,
    }
}

/// Calls `serde_json::Value::as_f64`: a number in double precision, by its bits, whole numbers
/// rounded to the nearest with halves to even; none of anything else.
#[verifier::external_body]
pub(crate) fn as_double(v: &Document) -> (r: Option<u64>)
    ensures
        r == double_in(json(*v)),
{
    match v.as_f64() {
        Some(x) => Some(x.to_bits()),
        None => None,
    }
}

/// Calls `serde_json::Value::as_bool`: the value of a truth value, none of anything else.
#[verifier::external_body]
pub(crate) fn as_bool(v: &Document) -> (r: Option<bool>)
    ensures
        r == (match json(*v) {
            Json::Bool(b) => Some(b),
            _ => None,
        }),
{
    v.as_bool()
}

/// What the elements of a list of documents hold.
pub open spec fn jsons(s: Seq<Document>) -> Seq<Json> {
    s.map_values(|v: Document| json(v))
}

/// Calls `serde_json::Value::as_array`: the elements of an array, none of anything else.
#[verifier::external_body]
pub(crate) fn as_array<'a>(v: &'a Document) -> (r: Option<&'a Vec<Document>>)
    ensures
        match json(*v) {
            Json::Arr(a) => r is Some && jsons(r->0@) == a,
            _ => r is None,
        },
{
    v.as_array()
}

/// Builds a `serde_json::Value` that is null.
#[verifier::external_body]
pub(crate) fn null() -> (r: Document)
    ensures
        json(r) == Json::Null,
{
    Document::Null
}

/// Builds a `serde_json::Value` that is a string.
#[verifier::external_body]
pub(crate) fn string(s: &str) -> (r: Document)
    ensures
        json(r) == Json::Str(s@),
{
    Document::from(s)
}

/// Builds a `serde_json::Value` that is a natural number.
#[verifier::external_body]
pub(crate) fn natural(n: u64) -> (r: Document)
    ensures
        json(r) == Json::Nat(n),
{
    Document::from(n)
}

/// Builds a `serde_json::Value` that is an array.
#[verifier::external_body]
pub(crate) fn array(items: Vec<Document>) -> (r: Document)
    ensures
        json(r) == Json::Arr(jsons(items@)),
{
    Document::from(items)
}

/// Builds a `serde_json::Value` that is an object without members.
#[verifier::external_body]
pub(crate) fn object() -> (r: Document)
    ensures
        json(r) == Json::Obj(Map::empty()),
{
    Document::from(serde_json::Map::new())
}

/// Writes into a `serde_json::Value` that is an object, by a key: the member under the key is then
/// the given one, and no other changes. On anything but an object or null this would panic.
#[verifier::external_body]
pub(crate) fn put(v: &mut Document, key: &str, x: Document)
    requires
        json(*old(v)) is Obj,
    ensures
        json(*final(v)) == Json::Obj(json(*old(v))->Obj_0.insert(key@, json(x))),
{
    v[key] = x;
}

/// Writes a `serde_json::Value` out without white space, members in the order of their keys.
#[verifier::external_body]
pub(crate) fn render(v: &Document) -> (r: String)
    ensures
        r@ == rendered(json(*v)),
{
    v.to_string()
}

} // verus!
