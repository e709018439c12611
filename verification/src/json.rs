//! What is read from JSON documents, through the crate `serde_json`.
//!
//! A document is taken as text, and what the callers want of it comes back as plain values. What a
//! document holds at a place is named here and not spelled out: the grammar of JSON is that
//! crate's.

use crate::model;
use vstd::prelude::*;

verus! {

/// What `serde_json` has to say against a text that is not a JSON document.
pub uninterp spec fn json_failure(raw: Seq<char>) -> Option<Seq<char>>;

/// The string that a JSON document holds at a place given by a JSON pointer.
pub uninterp spec fn json_text(raw: Seq<char>, place: Seq<char>) -> Option<Seq<char>>;

/// Whether a JSON document holds anything at a place given by a JSON pointer.
pub uninterp spec fn json_present(raw: Seq<char>, place: Seq<char>) -> bool;

/// The members of the object that a JSON document holds at a place: each key, with its value where
/// that is a string.
pub uninterp spec fn json_members(raw: Seq<char>, place: Seq<char>) -> Option<
    Seq<(Seq<char>, Option<Seq<char>>)>,
>;

/// The elements of the array that a JSON document holds at a place, where they are strings.
pub uninterp spec fn json_elements(raw: Seq<char>, place: Seq<char>) -> Option<
    Seq<Option<Seq<char>>>,
>;

/// The strings of a JSON document that is an array of nothing else.
pub uninterp spec fn json_strings(raw: Seq<char>) -> Option<Seq<Seq<char>>>;

pub open spec fn member_texts(v: Seq<(String, Option<String>)>) -> Seq<
    (Seq<char>, Option<Seq<char>>),
> {
    v.map_values(|p: (String, Option<String>)| (p.0@, model::text_of(p.1)))
}

pub open spec fn element_texts(v: Seq<Option<String>>) -> Seq<Option<Seq<char>>> {
    v.map_values(|o: Option<String>| model::text_of(o))
}

/// Calls `serde_json::from_str` for a `serde_json::Value` and hands out the error's text, if there
/// is one.
#[verifier::external_body]
pub(crate) fn failure(raw: &str) -> (r: Option<String>)
    ensures
        model::text_of(r) == json_failure(raw@),
{
    serde_json::from_str::<serde_json::Value>(raw).err().map(|e| e.to_string())
}

/// Calls `serde_json::from_str`, then `Value::pointer` and `Value::as_str`; `None` where the text
/// is no JSON document, the place is empty or holds no string.
#[verifier::external_body]
pub(crate) fn text_at(raw: &str, place: &str) -> (r: Option<String>)
    ensures
        model::text_of(r) == json_text(raw@, place@),
{
    let value = serde_json::from_str::<serde_json::Value>(raw).ok()?;
    value.pointer(place)?.as_str().map(|s| s.to_string())
}

/// Calls `serde_json::from_str`, then `Value::pointer`; `false` where the text is no JSON document.
#[verifier::external_body]
pub(crate) fn present_at(raw: &str, place: &str) -> (r: bool)
    ensures
        r == json_present(raw@, place@),
{
    match serde_json::from_str::<serde_json::Value>(raw) {
        Ok(value) => value.pointer(place).is_some(),
        Err(_) => false,
    }
}

/// Calls `serde_json::from_str`, then `Value::pointer` and `Value::as_object`; each member's value
/// goes through `Value::as_str`.
#[verifier::external_body]
pub(crate) fn members_at(raw: &str, place: &str) -> (r: Option<Vec<(String, Option<String>)>>)
    ensures
        match r {
            Some(v) => json_members(raw@, place@) == Some(member_texts(v@)),
            None => json_members(raw@, place@) is None,
        },
{
    let value = serde_json::from_str::<serde_json::Value>(raw).ok()?;
    let object = value.pointer(place)?.as_object()?;
    Some(object.iter().map(|(k, v)| (k.clone(), v.as_str().map(|s| s.to_string()))).collect())
}

/// Calls `serde_json::from_str`, then `Value::pointer` and `Value::as_array`; each element goes
/// through `Value::as_str`.
#[verifier::external_body]
pub(crate) fn elements_at(raw: &str, place: &str) -> (r: Option<Vec<Option<String>>>)
    ensures
        match r {
            Some(v) => json_elements(raw@, place@) == Some(element_texts(v@)),
            None => json_elements(raw@, place@) is None,
        },
{
    let value = serde_json::from_str::<serde_json::Value>(raw).ok()?;
    let array = value.pointer(place)?.as_array()?;
    Some(array.iter().map(|v| v.as_str().map(|s| s.to_string())).collect())
}

/// Calls `serde_json::from_str` for a `Vec<String>`; `None` on an error.
#[verifier::external_body]
pub(crate) fn strings_of(raw: &str) -> (r: Option<Vec<String>>)
    ensures
        match r {
            Some(v) => json_strings(raw@) == Some(model::texts(v@)),
            None => json_strings(raw@) is None,
        },
{
    serde_json::from_str::<Vec<String>>(raw).ok()
}

} // verus!
