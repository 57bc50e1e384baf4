//! Values inside JSON text.
use crate::text::opt_text;
use vstd::prelude::*;

verus! {

/// Whether `serde_json::from_str` reads a text as a JSON value.
pub uninterp spec fn json_valid(text: Seq<char>) -> bool;

/// The string that `serde_json::Value::pointer` and `as_str` find in the JSON
/// value that a text writes.
pub uninterp spec fn json_string_at(text: Seq<char>, pointer: Seq<char>) -> Option<Seq<char>>;

/// The number that `serde_json::Value::pointer` and `as_u64` find in the JSON
/// value that a text writes.
pub uninterp spec fn json_u64_at(text: Seq<char>, pointer: Seq<char>) -> Option<int>;

/// `serde_json::from_str` into a `serde_json::Value`: whether the text is JSON.
#[verifier::external_body]
pub(crate) fn is_json(text: &str) -> (r: bool)
    ensures
        r == json_valid(text@),
{
    serde_json::from_str::<serde_json::Value>(text).is_ok()
}

/// `serde_json::Value::pointer` and `as_str` on the value that the text writes:
/// the string there, or nothing where the text is not JSON or no string is there.
#[verifier::external_body]
pub(crate) fn read_json_string(text: &str, pointer: &str) -> (r: Option<String>)
    ensures
        opt_text(r) == json_string_at(text@, pointer@),
        r is Some ==> json_valid(text@),
{
    let value: serde_json::Value = serde_json::from_str(text).ok()?;
    value.pointer(pointer)?.as_str().map(|s| s.to_owned())
}

/// `serde_json::Value::pointer` and `as_u64` on the value that the text writes:
/// the number there, or nothing where the text is not JSON or no such number is
/// there.
#[verifier::external_body]
pub(crate) fn read_json_u64(text: &str, pointer: &str) -> (r: Option<u64>)
    ensures
        match r {
            Some(n) => json_u64_at(text@, pointer@) == Some(n as int) && json_valid(text@),
            None => json_u64_at(text@, pointer@) is None,
        },
{
    let value: serde_json::Value = serde_json::from_str(text).ok()?;
    value.pointer(pointer)?.as_u64()
}

/// Whether `serde_json::from_slice` reads bytes as a JSON value.
pub uninterp spec fn json_bytes_valid(bytes: Seq<u8>) -> bool;

/// `serde_json::from_slice` into a `serde_json::Value`: whether the bytes are JSON.
#[verifier::external_body]
pub(crate) fn are_json(bytes: &[u8]) -> (r: bool)
    ensures
        r == json_bytes_valid(bytes@),
{
    serde_json::from_slice::<serde_json::Value>(bytes).is_ok()
}

} // verus!
