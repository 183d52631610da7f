//! The calls that leave this crate. Each function here is believed, not
//! proved: its body is outside code, and its contract says what that code's
//! source and documentation promise.

use crypto::digest::Digest;
use rand::Rng;
use vstd::prelude::*;
use vstd::utf8::valid_utf8;

verus! {

/// Whether `bytes` is UTF-8. Calls `core::str::from_utf8`, which succeeds
/// on a byte string if and only if it is valid UTF-8; the contract says so.
#[verifier::external_body]
pub(crate) fn is_utf8(bytes: &[u8]) -> (ok: bool)
    ensures
        ok == valid_utf8(bytes@),
{
    core::str::from_utf8(bytes).is_ok()
}

/// One element of a JSON array, as far as the dispatch reads it.
#[derive(Debug, Clone)]
pub struct JsonItem {
    /// The content of the element, where it is a JSON string.
    pub text: Option<Vec<u8>>,
    /// The element, written as JSON text.
    pub json: Vec<u8>,
}

/// What a list of elements holds: for each its string content, if it is a
/// string, and its JSON text.
pub open spec fn items_view(items: Option<Vec<JsonItem>>) -> Option<
    Seq<(Option<Seq<u8>>, Seq<u8>)>,
> {
    match items {
        None => None,
        Some(v) => Some(v@.map_values(|i: JsonItem| item_view(i))),
    }
}

/// What one element holds.
pub open spec fn item_view(i: JsonItem) -> (Option<Seq<u8>>, Seq<u8>) {
    (
        match i.text {
            Some(t) => Some(t@),
            None => None,
        },
        i.json@,
    )
}

/// The elements of the JSON array that `data` writes, each with its string
/// content (for a string) and its JSON text as `serde_json` prints it; `None`
/// where `data` is no JSON text or no array.
pub uninterp spec fn json_array(data: Seq<u8>) -> Option<Seq<(Option<Seq<u8>>, Seq<u8>)>>;

/// Parses `data` with `serde_json::from_slice` into a `serde_json::Value`.
/// For an array, hands out each element's `Value::as_str` and its
/// `to_string`; for anything else, and for text that does not parse, `None`.
/// The contract only gives the result its name.
#[verifier::external_body]
pub(crate) fn parse_json_array(data: &[u8]) -> (r: Option<Vec<JsonItem>>)
    ensures
        items_view(r) == json_array(data@),
{
    match serde_json::from_slice::<serde_json::Value>(data) {
        Ok(serde_json::Value::Array(items)) => Some(
            items.iter().map(
                |v| JsonItem {
                    text: v.as_str().map(|s| s.as_bytes().to_vec()),
                    json: v.to_string().into_bytes(),
                },
            ).collect(),
        ),
        _ => None,
    }
}

/// Draws a number with `rand::Rng::gen_range` on the thread's generator,
/// which samples from the half-open range `0..limit` and panics on an empty
/// range. The contract says that the number lies in the range.
#[verifier::external_body]
pub(crate) fn random_below(limit: i32) -> (r: i32)
    requires
        limit > 0,
    ensures
        0 <= r < limit,
{
    rand::thread_rng().gen_range(0..limit)
}

/// Thirty-two random bytes from `rand::Rng::gen` on the thread's generator.
/// The contract says how many they are.
#[verifier::external_body]
pub(crate) fn random_seed() -> (seed: Vec<u8>)
    ensures
        seed@.len() == 32,
{
    rand::thread_rng().gen::<[u8; 32]>().to_vec()
}

/// The SHA-1 digest of `data` in lower-case hexadecimal.
pub uninterp spec fn sha1_hex(data: Seq<u8>) -> Seq<u8>;

/// Hashes `data` with `crypto::sha1::Sha1` and takes
/// `Digest::result_str`: the 160 bits of the digest, two hexadecimal
/// characters for each byte. The contract names the result and gives its
/// length.
#[verifier::external_body]
pub(crate) fn sha1_hex_digest(data: &[u8]) -> (hex: Vec<u8>)
    ensures
        hex@ == sha1_hex(data@),
        hex@.len() == 40,
{
    let mut hasher = crypto::sha1::Sha1::new();
    hasher.input(data);
    hasher.result_str().into_bytes()
}

/// Whether `address` is UTF-8 text that `url::Url::parse` accepts as an
/// absolute URL.
pub uninterp spec fn url_parses(address: Seq<u8>) -> bool;

/// Parses `address` with `reqwest::Url::parse`, after `core::str::from_utf8`.
/// The contract only gives the answer its name.
#[verifier::external_body]
pub(crate) fn url_is_valid(address: &[u8]) -> (ok: bool)
    ensures
        ok == url_parses(address@),
{
    match core::str::from_utf8(address) {
        Ok(s) => reqwest::Url::parse(s).is_ok(),
        Err(_) => false,
    }
}

} // verus!
