//! What the library assumes of `serde_json`, which reads and writes the
//! snapshot of the table.
//!
//! Nothing in this file is proved: each item states what the named function
//! of `serde_json` does.

use crate::store::{distinct_keys, pairs_table};
use std::collections::HashMap;
use vstd::prelude::*;

verus! {

/// `serde_json::Error`: why a text is no JSON of the shape asked for.
#[verifier::external_type_specification]
#[verifier::external_body]
pub struct ExJsonError(serde_json::Error);

/// The table that `serde_json` reads out of a document, as a map from
/// `String` to `String`: `None` where it refuses the document.
pub uninterp spec fn json_table(bytes: Seq<u8>) -> Option<Map<Seq<char>, Seq<char>>>;

/// Calls `serde_json::from_slice` for a map from `String` to `String` and
/// hands the map's pairs out, in no particular order. Whether the parser
/// accepts the bytes, and which map it then reads, depends on the bytes
/// alone: [`json_table`] is the name of that map, and installing the
/// pairs one by one gives it.
#[verifier::external_body]
pub(crate) fn json_pairs(bytes: &[u8]) -> (r: Result<Vec<(String, String)>, serde_json::Error>)
    ensures
        match r {
            Ok(pairs) => json_table(bytes@) == Some(pairs_table(pairs@)),
            Err(_) => json_table(bytes@) is None,
        },
{
    let map: HashMap<String, String> = serde_json::from_slice(bytes)?;
    Ok(map.into_iter().collect())
}

/// Calls `serde_json::to_vec` on the pairs as a map from `String` to
/// `String`. No key may stand twice among the pairs, so that the map holds
/// each of them. Nothing is assumed of the bytes it returns: they depend
/// on the order in which the map is walked.
#[verifier::external_body]
pub(crate) fn json_bytes(pairs: &Vec<(String, String)>) -> (r: Result<Vec<u8>, serde_json::Error>)
    requires
        distinct_keys(pairs@),
{
    let map: HashMap<String, String> = pairs.iter().cloned().collect();
    serde_json::to_vec(&map)
}

} // verus!
