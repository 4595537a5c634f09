//! What the library takes on trust from `serde_json`.

use vstd::prelude::*;
use std::collections::{BTreeMap, BTreeSet};
use crate::claimed::{entries_wf, entry_views};

verus! {

/// A parsed JSON value of `serde_json`. Verus sees nothing inside one; what
/// the library reads from one goes by the names below.
#[verifier::external_type_specification]
#[verifier::external_body]
pub struct ExJsonValue(serde_json::Value);

/// What `serde_json::from_str` reads from `text` as a `Value`: the document,
/// or `None` where the text is not one JSON document.
pub uninterp spec fn json_doc(text: Seq<char>) -> Option<serde_json::Value>;

/// What `Value::get` finds in `value` under the string key `key`: the
/// member, where the value is an object that has one of that name.
pub uninterp spec fn json_get(value: serde_json::Value, key: Seq<char>) -> Option<serde_json::Value>;

/// What `Value::as_str` gives for `value`: the string, where the value is a
/// JSON string.
pub uninterp spec fn json_str(value: serde_json::Value) -> Option<Seq<char>>;

/// What `Value::as_u64` gives for `value`: the number, where the value is an
/// integer that fits in a `u64`.
pub uninterp spec fn json_u64(value: serde_json::Value) -> Option<u64>;

/// `serde_json::from_str` for a `Value`, with its error left out. The
/// result is a function of the text alone: it is `json_doc` of it.
#[verifier::external_body]
pub(crate) fn parse_json(text: &str) -> (doc: Option<serde_json::Value>)
    ensures
        doc == json_doc(text@),
{
    serde_json::from_str::<serde_json::Value>(text).ok()
}

/// `Value::get` with a string key. The result is a function of the value
/// and the key alone: it is `json_get` of them.
#[verifier::external_body]
pub(crate) fn json_member<'a>(value: &'a serde_json::Value, key: &str) -> (member: Option<
    &'a serde_json::Value,
>)
    ensures
        match member {
            Some(m) => json_get(*value, key@) == Some(*m),
            None => json_get(*value, key@) is None,
        },
{
    value.get(key)
}

/// `Value::as_str`. The result is a function of the value alone: it is
/// `json_str` of it.
#[verifier::external_body]
pub(crate) fn json_text<'a>(value: &'a serde_json::Value) -> (text: Option<&'a str>)
    ensures
        match text {
            Some(t) => json_str(*value) == Some(t@),
            None => json_str(*value) is None,
        },
{
    value.as_str()
}

/// `Value::as_u64`. The result is a function of the value alone: it is
/// `json_u64` of it.
#[verifier::external_body]
pub(crate) fn json_number(value: &serde_json::Value) -> (number: Option<u64>)
    ensures
        number == json_u64(*value),
{
    value.as_u64()
}

/// What `serde_json::from_str` reads from `text` as a map from strings to
/// sets of strings: its entries by ascending key, each with its strings in
/// ascending order, or `None` where the text is not a JSON object of arrays
/// of strings.
pub uninterp spec fn cache_parsed(text: Seq<char>) -> Option<Seq<(Seq<char>, Seq<Seq<char>>)>>;

/// What `serde_json::to_string_pretty` writes for the map from strings to
/// sets of strings that these entries make up, or `None` where it fails.
pub uninterp spec fn cache_rendered(entries: Seq<(Seq<char>, Seq<Seq<char>>)>) -> Option<Seq<char>>;

/// `serde_json::from_str` for a `BTreeMap<String, BTreeSet<String>>`, with
/// the map handed out as a list of its entries. The result is a function of
/// the text alone: it is `cache_parsed` of it.
#[verifier::external_body]
pub(crate) fn parse_cache(text: &str) -> (entries: Option<Vec<(String, Vec<String>)>>)
    ensures
        match entries {
            Some(v) => cache_parsed(text@) == Some(entry_views(v@)),
            None => cache_parsed(text@) is None,
        },
{
    let parsed = serde_json::from_str::<BTreeMap<String, BTreeSet<String>>>(text).ok()?;
    Some(parsed.into_iter().map(|(k, v)| (k, v.into_iter().collect())).collect())
}

/// `serde_json::to_string_pretty` for the `BTreeMap<&String,
/// BTreeSet<&String>>` that the entries make up. No account has two entries
/// and no entry names a drop twice, so the map holds each of them once. The
/// result is a function of the entries alone: it is `cache_rendered` of
/// them.
#[verifier::external_body]
pub(crate) fn render_cache(entries: &Vec<(String, Vec<String>)>) -> (text: Option<String>)
    requires
        entries_wf(entry_views(entries@)),
    ensures
        match text {
            Some(t) => cache_rendered(entry_views(entries@)) == Some(t@),
            None => cache_rendered(entry_views(entries@)) is None,
        },
{
    let map: BTreeMap<&String, BTreeSet<&String>> =
        entries.iter().map(|(k, v)| (k, v.iter().collect())).collect();
    serde_json::to_string_pretty(&map).ok()
}

} // verus!
