//! Reading JSON, with the `serde_json` crate.
use serde_json::Value;
use vstd::prelude::*;

verus! {

/// A JSON value of the `serde_json` crate.
#[verifier::external_type_specification]
#[verifier::external_body]
pub struct ExValue(serde_json::Value);

/// What a JSON value is, as far as it matters here.
#[verifier::ext_equal]
pub ghost enum Json {
    /// A string.
    Text(Seq<char>),
    /// An array.
    List(Seq<Json>),
    /// An object.
    Object(Map<Seq<char>, Json>),
    /// Anything else.
    Other,
}

/// What a JSON value is.
pub uninterp spec fn json_tree(v: Value) -> Json;

/// What a text is as JSON, if it is JSON.
pub uninterp spec fn json_parsed(text: Seq<char>) -> Option<Json>;

/// What several JSON values are.
pub open spec fn json_trees(vs: Seq<Value>) -> Seq<Json> {
    vs.map_values(|v: Value| json_tree(v))
}

/// The member of an object with a name; nothing in particular if there is none.
pub open spec fn member_of(j: Json, name: Seq<char>) -> Json {
    match j {
        Json::Object(m) => if m.contains_key(name) {
            m[name]
        } else {
            Json::Other
        },
        _ => Json::Other,
    }
}

/// `serde_json::from_str` into a value, without the error. The result depends on
/// the text alone.
#[verifier::external_body]
pub(crate) fn parse_json(text: &str) -> (r: Option<Value>)
    ensures
        match r {
            Some(v) => json_parsed(text@) == Some(json_tree(v)),
            None => json_parsed(text@) is None,
        },
{
    serde_json::from_str::<Value>(text).ok()
}

/// Indexing a value with a name: the member, or a null value.
#[verifier::external_body]
pub(crate) fn member<'a>(v: &'a Value, name: &str) -> (r: &'a Value)
    ensures
        json_tree(*r) == member_of(json_tree(*v), name@),
{
    &v[name]
}

/// `Value::as_str`: the string, if the value is one.
#[verifier::external_body]
pub(crate) fn text_in(v: &Value) -> (r: Option<&str>)
    ensures
        match r {
            Some(s) => json_tree(*v) == Json::Text(s@),
            None => !(json_tree(*v) is Text),
        },
{
    v.as_str()
}

/// `Value::as_array`: the elements, if the value is an array.
#[verifier::external_body]
pub(crate) fn list_in(v: &Value) -> (r: Option<&Vec<Value>>)
    ensures
        match r {
            Some(a) => json_tree(*v) == Json::List(json_trees(a@)),
            None => !(json_tree(*v) is List),
        },
{
    v.as_array()
}

/// The text of a member, or another if it has none.
pub open spec fn text_or(j: Json, name: Seq<char>, otherwise: Seq<char>) -> Seq<char> {
    match member_of(j, name) {
        Json::Text(t) => t,
        _ => otherwise,
    }
}

/// Gives the text of a member, or another if it has none.
pub(crate) fn member_text(v: &Value, name: &str, otherwise: &str) -> (s: String)
    ensures
        s@ == text_or(json_tree(*v), name@, otherwise@),
{
    match text_in(member(v, name)) {
        Some(t) => t.to_owned(),
        None => otherwise.to_owned(),
    }
}

/// Gives the text of a member, if it has one.
pub(crate) fn member_string(v: &Value, name: &str) -> (r: Option<String>)
    ensures
        match r {
            Some(s) => member_of(json_tree(*v), name@) == Json::Text(s@),
            None => !(member_of(json_tree(*v), name@) is Text),
        },
{
    match text_in(member(v, name)) {
        Some(t) => Some(t.to_owned()),
        None => None,
    }
}

} // verus!
