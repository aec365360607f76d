//! JSON values of the `serde_json` crate, modelled as trees.
use vstd::prelude::*;

verus! {

/// A JSON value. A number is given by the text that it is written as.
pub enum Json {
    Null,
    Bool(bool),
    Number(Seq<char>),
    Text(Seq<char>),
    Array(Seq<Json>),
    Object(Map<Seq<char>, Json>),
}

#[verifier::external_type_specification]
#[verifier::external_body]
pub struct ExValue(serde_json::Value);

/// The tree that a `serde_json::Value` holds.
pub uninterp spec fn json_of(v: serde_json::Value) -> Json;

/// What `serde_json::from_str` reads from a text: a tree, or the message of
/// the error.
pub uninterp spec fn json_parsed(text: Seq<char>) -> Result<Json, Seq<char>>;

/// The compact text that `serde_json::to_string` writes for a tree.
pub uninterp spec fn json_text(j: Json) -> Seq<char>;

/// The member `key` of an object; null where there is none.
pub open spec fn member(j: Json, key: Seq<char>) -> Json {
    match j {
        Json::Object(m) if m.contains_key(key) => m[key],
        _ => Json::Null,
    }
}

/// The item `i` of an array; null where there is none.
pub open spec fn item(j: Json, i: int) -> Json {
    match j {
        Json::Array(s) if 0 <= i < s.len() => s[i],
        _ => Json::Null,
    }
}

/// The text of a JSON string.
pub open spec fn text_of(j: Json) -> Option<Seq<char>> {
    match j {
        Json::Text(s) => Some(s),
        _ => None,
    }
}

/// The object that the given members make; a later member wins.
pub open spec fn members(fields: Seq<(String, serde_json::Value)>) -> Map<Seq<char>, Json>
    decreases fields.len(),
{
    if fields.len() == 0 {
        Map::empty()
    } else {
        members(fields.drop_last()).insert(fields.last().0@, json_of(fields.last().1))
    }
}

/// A parse result by its tree or its message.
pub open spec fn parse_view(r: Result<serde_json::Value, String>) -> Result<Json, Seq<char>> {
    match r {
        Ok(v) => Ok(json_of(v)),
        Err(e) => Err(e@),
    }
}

/// An optional text by its characters.
pub open spec fn str_view(r: Option<&str>) -> Option<Seq<char>> {
    match r {
        Some(s) => Some(s@),
        None => None,
    }
}

/// Calls `serde_json::from_str` for a `Value`; the error is given by its
/// message. What comes out depends on the text alone.
#[verifier::external_body]
pub(crate) fn parse_json(text: &str) -> (r: Result<serde_json::Value, String>)
    ensures
        parse_view(r) == json_parsed(text@),
{
    serde_json::from_str(text).map_err(|e: serde_json::Error| e.to_string())
}

/// Calls `serde_json::to_string` on a `Value`, which writes its tree as
/// compact JSON; where that failed the text is empty.
#[verifier::external_body]
pub(crate) fn write_json(v: &serde_json::Value) -> (r: String)
    ensures
        r@ == json_text(json_of(*v)),
{
    serde_json::to_string(v).unwrap_or_default()
}

/// `Value`'s index by a text: the member of that name, or null.
#[verifier::external_body]
pub(crate) fn json_member<'a>(v: &'a serde_json::Value, key: &str) -> (r: &'a serde_json::Value)
    ensures
        json_of(*r) == member(json_of(*v), key@),
{
    &v[key]
}

/// `Value`'s index by a number: the array item at that place, or null.
#[verifier::external_body]
pub(crate) fn json_item(v: &serde_json::Value, i: usize) -> (r: &serde_json::Value)
    ensures
        json_of(*r) == item(json_of(*v), i as int),
{
    &v[i]
}

/// Calls `Value::as_str`: the text of a JSON string, nothing for any other
/// value.
#[verifier::external_body]
pub(crate) fn json_as_str(v: &serde_json::Value) -> (r: Option<&str>)
    ensures
        str_view(r) == text_of(json_of(*v)),
{
    v.as_str()
}

/// `Value::String`: the JSON string of a text.
#[verifier::external_body]
pub(crate) fn json_string(s: &str) -> (r: serde_json::Value)
    ensures
        json_of(r) == Json::Text(s@),
{
    serde_json::Value::String(s.to_string())
}

/// `Value::Bool`: the JSON boolean.
#[verifier::external_body]
pub(crate) fn json_bool(b: bool) -> (r: serde_json::Value)
    ensures
        json_of(r) == Json::Bool(b),
{
    serde_json::Value::Bool(b)
}

/// `Value::from` on an integer: the JSON number, written in decimal.
#[verifier::external_body]
pub(crate) fn json_integer(n: u64) -> (r: serde_json::Value)
    ensures
        json_of(r) == Json::Number(crate::text::decimal(n as nat)),
{
    serde_json::Value::from(n)
}

/// `Value::Array`: the JSON array of one value.
#[verifier::external_body]
pub(crate) fn json_array_of(v: serde_json::Value) -> (r: serde_json::Value)
    ensures
        json_of(r) == Json::Array(seq![json_of(v)]),
{
    serde_json::Value::Array(vec![v])
}

/// `Value::Object`: the JSON object with the given members; a later member of
/// the same name wins.
#[verifier::external_body]
pub(crate) fn json_object(fields: Vec<(String, serde_json::Value)>) -> (r: serde_json::Value)
    ensures
        json_of(r) == Json::Object(members(fields@)),
{
    serde_json::Value::Object(fields.into_iter().collect())
}

} // verus!
