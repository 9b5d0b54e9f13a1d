use serde_json::Value;
use vstd::prelude::*;

verus! {

/// `serde_json::Value`, taken as a whole: what is inside is only reached
/// through the functions below.
#[verifier::external_type_specification]
#[verifier::external_body]
pub struct ExValue(serde_json::Value);

/// `serde_json::Error`, taken as a whole.
#[verifier::external_type_specification]
#[verifier::external_body]
pub struct ExJsonError(serde_json::Error);

/// What `serde_json::from_str` reads a text as: the value, or `None` where
/// it reports an error.
pub uninterp spec fn json_parse(text: Seq<char>) -> Option<Value>;

/// What `serde_json::Value::get` finds under a key: the member of that name
/// where the value is an object that has one.
pub uninterp spec fn json_member(value: Value, key: Seq<char>) -> Option<Value>;

/// What `serde_json::Value::as_array` gives: the elements, where the value
/// is an array.
pub uninterp spec fn json_items(value: Value) -> Option<Seq<Value>>;

/// What `serde_json::Value::as_str` gives: the text, where the value is a
/// string.
pub uninterp spec fn json_text(value: Value) -> Option<Seq<char>>;

/// What `serde_json::Value`'s `to_string` writes: the value in compact JSON.
pub uninterp spec fn json_rendered(value: Value) -> Seq<char>;

/// Calls `serde_json::from_str` for a `Value`. The contract only gives the
/// outcome its name.
#[verifier::external_body]
pub(crate) fn parse(text: &str) -> (r: Result<Value, serde_json::Error>)
    ensures
        match r {
            Ok(value) => json_parse(text@) == Some(value),
            Err(_) => json_parse(text@) is None,
        },
{
    serde_json::from_str(text)
}

/// Calls `serde_json::Value::get` with a key. The contract only gives the
/// outcome its name.
#[verifier::external_body]
pub(crate) fn member<'a>(value: &'a Value, key: &str) -> (r: Option<&'a Value>)
    ensures
        match r {
            Some(found) => json_member(*value, key@) == Some(*found),
            None => json_member(*value, key@) is None,
        },
{
    value.get(key)
}

/// Calls `serde_json::Value::as_array`. The contract only gives the outcome
/// its name.
#[verifier::external_body]
pub(crate) fn items<'a>(value: &'a Value) -> (r: Option<&'a Vec<Value>>)
    ensures
        match r {
            Some(elements) => json_items(*value) == Some(elements@),
            None => json_items(*value) is None,
        },
{
    value.as_array()
}

/// Calls `serde_json::Value::as_str`. The contract only gives the outcome
/// its name.
#[verifier::external_body]
pub(crate) fn text<'a>(value: &'a Value) -> (r: Option<&'a str>)
    ensures
        match r {
            Some(content) => json_text(*value) == Some(content@),
            None => json_text(*value) is None,
        },
{
    value.as_str()
}

/// Calls `to_string` on a `serde_json::Value`. The contract only gives the
/// outcome its name.
#[verifier::external_body]
pub(crate) fn rendered(value: &Value) -> (r: String)
    ensures
        r@ == json_rendered(*value),
{
    value.to_string()
}

} // verus!
