//! The text form of a snapshot: one flat JSON object that maps each key to
//! the text stored under it.

use crate::snapshot::{as_map, distinct_keys, pairs_of};
use std::collections::BTreeMap;
use vstd::prelude::*;

verus! {

/// The JSON text of the object with the given entries.
pub uninterp spec fn json_object_text(entries: Map<Seq<char>, Seq<char>>) -> Seq<char>;

/// The entries of the JSON object that `text` holds, or `None` where `text`
/// is not a JSON object whose values are all strings.
pub uninterp spec fn json_object_entries(text: Seq<char>) -> Option<Map<Seq<char>, Seq<char>>>;

/// The error of `serde_json`, carried through unread.
#[verifier::external_type_specification]
#[verifier::external_body]
pub struct ExJsonError(serde_json::Error);

/// Collects the entries into a `BTreeMap` and calls `serde_json::to_string`
/// on it. Trusted: the call succeeds, since it fails only where a value
/// refuses to be serialized, a key of a map is no string or the writer
/// fails, and here keys and values are strings and the writer is a vector;
/// the text is the JSON object of the entries, and parsing it gives the
/// same entries back.
#[verifier::external_body]
pub(crate) fn object_to_string(entries: &Vec<(String, String)>) -> (text: Result<String, serde_json::Error>)
    requires
        distinct_keys(pairs_of(entries@)),
    ensures
        text is Ok,
        text matches Ok(json) ==> json@ == json_object_text(as_map(pairs_of(entries@))),
        text matches Ok(json) ==> json_object_entries(json@) == Some(as_map(pairs_of(entries@))),
{
    let object: BTreeMap<&String, &String> = entries.iter().map(|entry| (&entry.0, &entry.1)).collect();
    serde_json::to_string(&object)
}

/// Calls `serde_json::from_str` for a `BTreeMap` from string to string and
/// lists its entries. Trusted: the call succeeds exactly where the text is
/// such an object; the entries listed are those of the object, and no key
/// is listed twice.
#[verifier::external_body]
pub(crate) fn object_from_str(text: &str) -> (entries: Result<Vec<(String, String)>, serde_json::Error>)
    ensures
        match entries {
            Ok(found) => distinct_keys(pairs_of(found@)) && json_object_entries(text@) == Some(
                as_map(pairs_of(found@)),
            ),
            Err(_) => json_object_entries(text@) is None,
        },
{
    serde_json::from_str::<BTreeMap<String, String>>(text).map(|object| object.into_iter().collect())
}

} // verus!
