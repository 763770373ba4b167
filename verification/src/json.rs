//! JSON text of blobs and of maps from text keys to blobs.

use vstd::prelude::*;
use crate::encoding::decimal_text;
use crate::keyed::{paired, views};
use crate::model::insert_all;

verus! {

/// `serde_json::Error`: the error of `serde_json::to_string` and
/// `serde_json::from_str`, handed on as it is.
#[verifier::external_type_specification]
#[verifier::external_body]
pub struct ExJsonError(serde_json::Error);

/// The decimal notations of the bytes of `data`, with a comma between one
/// and the next.
pub open spec fn number_list(data: Seq<u8>) -> Seq<char>
    decreases data.len(),
{
    if data.len() == 0 {
        Seq::empty()
    } else if data.len() == 1 {
        decimal_text(data[0] as nat)
    } else {
        number_list(data.drop_last()) + seq![','] + decimal_text(data.last() as nat)
    }
}

/// The JSON text of a blob: an array of the numbers of its bytes, without
/// white space.
pub open spec fn blob_json(data: Seq<u8>) -> Seq<char> {
    seq!['['] + number_list(data) + seq![']']
}

/// The bytes that `serde_json::from_str::<Vec<u8>>` reads from `text`,
/// `None` where it fails.
pub uninterp spec fn json_blob(text: Seq<char>) -> Option<Seq<u8>>;

/// The text that `serde_json::to_string` returns for an ordered map from
/// text to vectors of bytes: a JSON object whose members stand in the order
/// of their keys.
pub uninterp spec fn map_json(m: Map<Seq<char>, Seq<u8>>) -> Seq<char>;

/// The entries that `serde_json::from_str::<BTreeMap<String, Vec<u8>>>`
/// reads from `text`, in the order of their keys; `None` where it fails.
pub uninterp spec fn json_map(text: Seq<char>) -> Option<Seq<(Seq<char>, Seq<u8>)>>;

/// The map that `text` holds as JSON: what its entries give when they are
/// stored in order; `None` where the text cannot be read.
pub open spec fn map_of_text(text: Seq<char>) -> Option<Map<Seq<char>, Seq<u8>>> {
    match json_map(text) {
        Some(entries) => Some(insert_all(Map::empty(), entries)),
        None => None,
    }
}

/// The keys and blobs of a list of entries.
pub open spec fn entry_views(entries: Seq<(String, Vec<u8>)>) -> Seq<(Seq<char>, Seq<u8>)> {
    Seq::new(entries.len(), |i: int| (entries[i].0@, entries[i].1@))
}

/// `serde_json::to_string` on a vector of bytes. The contract says that the
/// call succeeds, that the text is the array of the numbers of the bytes in
/// decimal notation, separated by commas and without white space, and that
/// reading the text as a vector of bytes gives the data back. The call
/// fails only where a value refuses to be serialised, where a map has a key
/// that is no text, or where its writer fails; a vector of bytes does
/// neither, and the writer is a vector in memory.
#[verifier::external_body]
pub(crate) fn encode_blob(data: &Vec<u8>) -> (r: Result<String, serde_json::Error>)
    ensures
        match r {
            Ok(s) => s@ == blob_json(data@) && json_blob(s@) == Some(data@),
            Err(_) => false,
        },
{
    serde_json::to_string(data)
}

/// `serde_json::from_str` for a vector of bytes. The contract names the
/// bytes and says that the call fails exactly where there are none.
#[verifier::external_body]
pub(crate) fn decode_blob(text: &str) -> (r: Result<Vec<u8>, serde_json::Error>)
    ensures
        match r {
            Ok(data) => json_blob(text@) == Some(data@),
            Err(_) => json_blob(text@) is None,
        },
{
    serde_json::from_str::<Vec<u8>>(text)
}

/// `serde_json::to_string` on the ordered map that sends `keys[i]` to
/// `blobs[i]`. The contract says that the call succeeds, names the text, and
/// says that reading the text as an ordered map gives the map back. The
/// call fails only where a value refuses to be serialised, where a map has
/// a key that is no text, or where its writer fails; the keys here are
/// text, the values vectors of bytes, and the writer is a vector in memory.
#[verifier::external_body]
pub(crate) fn encode_map(keys: &Vec<String>, blobs: &Vec<Vec<u8>>) -> (r: Result<
    String,
    serde_json::Error,
>)
    requires
        keys@.len() == blobs@.len(),
        views(keys@).no_duplicates(),
    ensures
        match r {
            Ok(s) => s@ == map_json(paired(views(keys@), views(blobs@))) && map_of_text(s@)
                == Some(paired(views(keys@), views(blobs@))),
            Err(_) => false,
        },
{
    let map: std::collections::BTreeMap<&String, &Vec<u8>> = keys.iter().zip(blobs.iter()).collect();
    serde_json::to_string(&map)
}

/// `serde_json::from_str` for an ordered map from text to vectors of bytes,
/// handed out as its entries in the order of their keys. The contract names
/// the entries and says that the call fails exactly where there are none.
#[verifier::external_body]
pub(crate) fn decode_map(text: &str) -> (r: Result<Vec<(String, Vec<u8>)>, serde_json::Error>)
    ensures
        match r {
            Ok(entries) => json_map(text@) == Some(entry_views(entries@)),
            Err(_) => json_map(text@) is None,
        },
{
    match serde_json::from_str::<std::collections::BTreeMap<String, Vec<u8>>>(text) {
        Ok(map) => Ok(map.into_iter().collect()),
        Err(e) => Err(e),
    }
}

} // verus!
