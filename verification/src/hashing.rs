//! Content hashes as lower-case hexadecimal text.
use sha2::Digest;
use vstd::prelude::*;
use vstd::utf8::encode_utf8;

verus! {

/// The SHA-256 digest of a byte string.
pub uninterp spec fn sha256(bytes: Seq<u8>) -> Seq<u8>;

/// The lower-case hexadecimal digit of a number below sixteen.
pub open spec fn hex_digit(n: int) -> char {
    if n < 10 {
        ((48 + n) as u8) as char
    } else {
        ((87 + n) as u8) as char
    }
}

/// Each byte as two lower-case hexadecimal digits, the high one first.
pub open spec fn hex_text(bytes: Seq<u8>) -> Seq<char> {
    Seq::new(
        2 * bytes.len(),
        |i: int|
            if i % 2 == 0 {
                hex_digit(bytes[i / 2] as int / 16)
            } else {
                hex_digit(bytes[i / 2] as int % 16)
            },
    )
}

/// The hash of a byte string as hexadecimal text.
pub open spec fn hash_of_bytes(bytes: Seq<u8>) -> Seq<char> {
    hex_text(sha256(bytes))
}

/// The hash of a text's UTF-8 bytes as hexadecimal text.
pub open spec fn hash_of(text: Seq<char>) -> Seq<char> {
    hash_of_bytes(encode_utf8(text))
}

/// The first `n` digits of a text's hash.
pub open spec fn hash_prefix(text: Seq<char>, n: int) -> Seq<char> {
    hash_of(text).take(n)
}

/// `sha2::Sha256::digest`: the 32 bytes of the SHA-256 digest of `bytes`.
#[verifier::external_body]
fn digest(bytes: &[u8]) -> (r: Vec<u8>)
    ensures
        r@ == sha256(bytes@),
        r@.len() == 32,
{
    sha2::Sha256::digest(bytes).to_vec()
}

/// `hex::encode`: two lower-case hexadecimal digits for each byte.
#[verifier::external_body]
fn encode_hex(bytes: &[u8]) -> (r: String)
    ensures
        r@ == hex_text(bytes@),
{
    hex::encode(bytes)
}

/// The hash of a byte string; it has 64 digits.
pub fn hash_bytes(bytes: &[u8]) -> (r: String)
    ensures
        r@ == hash_of_bytes(bytes@),
        r@.len() == 64,
{
    let d = digest(bytes);
    encode_hex(&d)
}

/// The hash of a text; it has 64 digits.
pub fn hash_text(value: &str) -> (r: String)
    ensures
        r@ == hash_of(value@),
        r@.len() == 64,
{
    hash_bytes(value.as_bytes())
}

/// The first `n` digits of a text's hash.
pub fn short_hash(value: &str, n: usize) -> (r: String)
    requires
        n <= 64,
    ensures
        r@ == hash_prefix(value@, n as int),
        r@.len() == n,
{
    let h = hash_text(value);
    let cs = crate::text::chars_of(h.as_str());
    proof {
        assert(h@.subrange(0, n as int) =~= h@.take(n as int));
    }
    crate::text::slice_string(&cs, 0, n)
}

} // verus!
