//! Decoding of JSON texts, done by `serde_json`.
//!
//! Nothing in this module is proved: each function states what the decoder
//! is trusted to do, and gives the result a name so that the rest of the
//! library can say exactly what it makes of it. Where the decoder refuses a
//! text, the function hands on what the decoder reports, as text.

use vstd::prelude::*;
use crate::text::{pairs_of, texts_of};

verus! {

/// The elements of the JSON array that `text` holds, each written out as
/// compact JSON; `None` where `text` is not one JSON array.
pub uninterp spec fn json_array_texts(text: Seq<char>) -> Option<Seq<Seq<char>>>;

/// The members of the JSON object that `text` holds, one for each key and in
/// ascending order of key, as pairs of the key and the JSON text of the
/// value; of members that share a key the last one stands. `None` where
/// `text` is not one JSON object.
pub uninterp spec fn json_object_fields(text: Seq<char>) -> Option<Seq<(Seq<char>, Seq<char>)>>;

/// The string that the JSON text `text` holds; `None` where `text` is not
/// one JSON string.
pub uninterp spec fn json_string(text: Seq<char>) -> Option<Seq<char>>;

/// The integer that the JSON text `text` holds; `None` where `text` is not
/// one JSON integer that fits in 32 bits.
pub uninterp spec fn json_integer(text: Seq<char>) -> Option<i32>;

/// The strings that the JSON text `text` holds; `None` where `text` is not
/// one JSON array of strings.
pub uninterp spec fn json_string_list(text: Seq<char>) -> Option<Seq<Seq<char>>>;

/// Calls `serde_json::from_str` for a `Vec<serde_json::Value>`, and
/// `to_string` on each element.
///
/// Trusted: the result is a function of `text` alone, named
/// [`json_array_texts`]. The decoder fails where `text` is not JSON or not
/// an array.
#[verifier::external_body]
pub(crate) fn decode_array_texts(text: &str) -> (r: Result<Vec<String>, String>)
    ensures
        json_array_texts(text@) == match r {
            Ok(items) => Some(texts_of(items@)),
            Err(_) => None,
        },
{
    let decoded = serde_json::from_str::<Vec<serde_json::Value>>(text);
    let items = decoded.map_err(|e| format!("{:?}", e))?;
    Ok(items.iter().map(|item| item.to_string()).collect())
}

/// Calls `serde_json::from_str` for a map from `String` to
/// `serde_json::value::RawValue`, and `RawValue::get` on each value.
///
/// Trusted: the result is a function of `text` alone, named
/// [`json_object_fields`]. The decoder fails where `text` is not JSON or not
/// an object; the map keeps one value for each key, the last that `text`
/// gives it.
#[verifier::external_body]
pub(crate) fn decode_object_fields(text: &str) -> (r: Result<Vec<(String, String)>, String>)
    ensures
        json_object_fields(text@) == match r {
            Ok(fields) => Some(pairs_of(fields@)),
            Err(_) => None,
        },
{
    let members: std::collections::BTreeMap<String, Box<serde_json::value::RawValue>> =
        serde_json::from_str(text).map_err(|e| format!("{:?}", e))?;
    Ok(members.into_iter().map(|(key, value)| (key, value.get().to_owned())).collect())
}

/// Calls `serde_json::from_str` for a `String`.
///
/// Trusted: the result is a function of `text` alone, named [`json_string`].
#[verifier::external_body]
pub(crate) fn decode_string(text: &str) -> (r: Result<String, String>)
    ensures
        json_string(text@) == match r {
            Ok(value) => Some(value@),
            Err(_) => None,
        },
{
    serde_json::from_str::<String>(text).map_err(|e| format!("{:?}", e))
}

/// Calls `serde_json::from_str` for an `i32`.
///
/// Trusted: the result is a function of `text` alone, named [`json_integer`].
#[verifier::external_body]
pub(crate) fn decode_integer(text: &str) -> (r: Result<i32, String>)
    ensures
        json_integer(text@) == match r {
            Ok(value) => Some(value),
            Err(_) => None,
        },
{
    serde_json::from_str::<i32>(text).map_err(|e| format!("{:?}", e))
}

/// Calls `serde_json::from_str` for a `Vec<String>`.
///
/// Trusted: the result is a function of `text` alone, named
/// [`json_string_list`].
#[verifier::external_body]
pub(crate) fn decode_string_list(text: &str) -> (r: Result<Vec<String>, String>)
    ensures
        json_string_list(text@) == match r {
            Ok(items) => Some(texts_of(items@)),
            Err(_) => None,
        },
{
    serde_json::from_str::<Vec<String>>(text).map_err(|e| format!("{:?}", e))
}

} // verus!
