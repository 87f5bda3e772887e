//! Trusted shims over the outside crates the logic needs: JSON field
//! access on opaque JSON text, wall-clock time, fresh job identifiers and
//! the host name.  Each shim makes one outside call; everything around the
//! calls is verified.

use vstd::prelude::*;

verus! {

use crate::wire::Label;
use crate::registry::label_pairs;
use crate::text::str_views;

/// What `serde_json` reads as the string field `key` of the JSON text
/// `text`: the field's content when `text` parses and carries a string
/// there, nothing otherwise.
pub uninterp spec fn json_str_field_of(text: Seq<char>, key: Seq<char>) -> Option<Seq<char>>;

/// Relies on serde_json::from_str and Value::get / Value::as_str: the
/// result is a function of the text and the key alone.
#[verifier::external_body]
pub fn json_str_field(text: &str, key: &str) -> (r: Option<String>)
    ensures
        match r {
            Some(v) => json_str_field_of(text@, key@) == Some(v@),
            None => json_str_field_of(text@, key@) is None,
        },
{
    let value: serde_json::Value = serde_json::from_str(text).ok()?;
    Some(value.get(key)?.as_str()?.to_string())
}

/// What `serde_json` reads as the unsigned integer field `key` of `text`.
pub uninterp spec fn json_u64_field_of(text: Seq<char>, key: Seq<char>) -> Option<u64>;

/// Relies on serde_json::from_str and Value::get / Value::as_u64: the
/// result is a function of the text and the key alone.
#[verifier::external_body]
pub fn json_u64_field(text: &str, key: &str) -> (r: Option<u64>)
    ensures
        match r {
            Some(v) => json_u64_field_of(text@, key@) == Some(v),
            None => json_u64_field_of(text@, key@) is None,
        },
{
    let value: serde_json::Value = serde_json::from_str(text).ok()?;
    value.get(key)?.as_u64()
}

/// What `serde_json` re-serialises the field `key` of `text` to: raw JSON
/// text of that field's value.
pub uninterp spec fn json_raw_field_of(text: Seq<char>, key: Seq<char>) -> Option<Seq<char>>;

/// Relies on serde_json::from_str, Value::get and serde_json::to_string.
/// With serde_json's default map (a B-tree sorted by key), parsing and
/// re-serialising is deterministic, so the compact rendering is a function
/// of the text and the key alone.
#[verifier::external_body]
pub fn json_raw_field(text: &str, key: &str) -> (r: Option<String>)
    ensures
        match r {
            Some(v) => json_raw_field_of(text@, key@) == Some(v@),
            None => json_raw_field_of(text@, key@) is None,
        },
{
    let value: serde_json::Value = serde_json::from_str(text).ok()?;
    serde_json::to_string(value.get(key)?).ok()
}

/// What `serde_json` reads as the string-array field `key` of `text`.
pub uninterp spec fn json_str_list_field_of(text: Seq<char>, key: Seq<char>) -> Option<
    Seq<Seq<char>>,
>;

/// Relies on serde_json::from_str, Value::get / Value::as_array and
/// Value::as_str: the result is a function of the text and the key alone.
/// An array holding a non-string fails.
#[verifier::external_body]
pub fn json_str_list_field(text: &str, key: &str) -> (r: Option<Vec<String>>)
    ensures
        match r {
            Some(v) => json_str_list_field_of(text@, key@) == Some(str_views(v@)),
            None => json_str_list_field_of(text@, key@) is None,
        },
{
    let value: serde_json::Value = serde_json::from_str(text).ok()?;
    let items = value.get(key)?.as_array()?;
    let mut out: Vec<String> = Vec::with_capacity(items.len());
    for item in items {
        out.push(item.as_str()?.to_string());
    }
    Some(out)
}

/// What `serde_json` reads as the string-to-string object field `key` of
/// `text`, as key/value pairs sorted by key.
pub uninterp spec fn json_str_map_field_of(text: Seq<char>, key: Seq<char>) -> Option<
    Seq<(Seq<char>, Seq<char>)>,
>;

/// Relies on serde_json::from_str, Value::get and deserialising into a
/// `BTreeMap<String, String>`, whose iteration order is sorted by key, so
/// the pair list is a function of the text and the key alone.
#[verifier::external_body]
pub fn json_str_map_field(text: &str, key: &str) -> (r: Option<Vec<Label>>)
    ensures
        match r {
            Some(v) => json_str_map_field_of(text@, key@) == Some(label_pairs(v@)),
            None => json_str_map_field_of(text@, key@) is None,
        },
{
    let value: serde_json::Value = serde_json::from_str(text).ok()?;
    let field = value.get(key)?;
    let map: std::collections::BTreeMap<String, String> = serde_json::from_value(
        field.clone(),
    ).ok()?;
    Some(map.into_iter().map(|(key, value)| Label { key, value }).collect())
}

/// What `serde_json` re-serialises each element of the array field `key`
/// of `text` to, in array order.
pub uninterp spec fn json_array_field_of(text: Seq<char>, key: Seq<char>) -> Option<
    Seq<Seq<char>>,
>;

/// Relies on serde_json::from_str, Value::get / Value::as_array and
/// serde_json::to_string.  Array order is preserved and serde_json's
/// default map is sorted by key, so each element's compact rendering is a
/// function of the text and the key alone.
#[verifier::external_body]
pub fn json_array_field(text: &str, key: &str) -> (r: Option<Vec<String>>)
    ensures
        match r {
            Some(v) => json_array_field_of(text@, key@) == Some(str_views(v@)),
            None => json_array_field_of(text@, key@) is None,
        },
{
    let value: serde_json::Value = serde_json::from_str(text).ok()?;
    let items = value.get(key)?.as_array()?;
    let mut out: Vec<String> = Vec::with_capacity(items.len());
    for item in items {
        out.push(serde_json::to_string(item).ok()?);
    }
    Some(out)
}

/// Whether `serde_json` accepts this text as one JSON value.
pub uninterp spec fn parses_as_json(text: Seq<char>) -> bool;

/// Relies on serde_json::from_str: whether a text parses is a function of
/// the text alone.
#[verifier::external_body]
pub fn is_json_text(text: &str) -> (r: bool)
    ensures
        r == parses_as_json(text@),
{
    serde_json::from_str::<serde_json::Value>(text).is_ok()
}

/// Relies on chrono::Utc::now and timestamp_millis: the wall-clock time.
/// Nothing can be promised of it; the call aborts if the system clock
/// stands before the epoch, which no argument can exclude.
#[verifier::external_body]
pub fn now_millis_raw() -> (r: i64) {
    chrono::Utc::now().timestamp_millis()
}

/// The wall-clock time in milliseconds, clamped below at zero.
pub fn now_wall_millis() -> u64 {
    let t = now_millis_raw();
    if t < 0 {
        0
    } else {
        t as u64
    }
}

/// Relies on uuid::Uuid::new_v4 and its Display form: a fresh random
/// identifier in the hyphenated format, which is 36 characters long.  The
/// call aborts if the operating system's random source fails, which no
/// argument can exclude.
#[verifier::external_body]
pub fn new_job_id() -> (r: String)
    ensures
        r@.len() == 36,
{
    uuid::Uuid::new_v4().to_string()
}

/// Relies on hostname::get: the machine's host name, if it can be read.
#[verifier::external_body]
pub fn get_hostname() -> (r: Option<String>) {
    hostname::get().ok().map(|h| h.to_string_lossy().into_owned())
}

} // verus!
