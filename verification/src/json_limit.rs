//! Bounded decoding of JSON bodies.
use crate::json::{are_json, json_bytes_valid};
use crate::text::{
    ascii_lowercase, concat2, concat3, decimal, decimal_text, lowered, opt_str, same_text, trim,
    trim_back, trim_front, trimmed,
};
use std::io::Read;
use vstd::prelude::*;

verus! {

/// Health responses.
pub const JSON_RESPONSE_LIMIT_HEALTH: usize = 65_536;

/// Authentication and device-session responses.
pub const JSON_RESPONSE_LIMIT_AUTH: usize = 1_048_576;

/// Sync acknowledgements and other JSON payloads.
pub const JSON_RESPONSE_LIMIT_DEFAULT: usize = 10_485_760;

/// Why a size-limited JSON payload was not read.
#[derive(Debug, Clone, PartialEq, Eq)]
pub enum JsonLimitError {
    /// The decompressed payload is larger than the limit.
    TooLarge { limit: usize },
    /// The payload could not be decompressed.
    Read,
    /// The payload is not JSON.
    Parse,
    /// The encoding is neither identity nor gzip.
    UnsupportedEncoding { encoding: String },
}

impl JsonLimitError {
    pub open spec fn text_spec(self) -> Seq<char> {
        match self {
            JsonLimitError::TooLarge { limit } => "JSON response exceeds the "@ + decimal(
                limit as nat,
            ) + " byte limit"@,
            JsonLimitError::Read => "read JSON response"@,
            JsonLimitError::Parse => "parse JSON response"@,
            JsonLimitError::UnsupportedEncoding { encoding } =>
                "unsupported JSON content encoding "@ + encoding@,
        }
    }

    /// The error in words.
    pub fn text(&self) -> (r: String)
        ensures
            r@ == self.text_spec(),
    {
        match self {
            JsonLimitError::TooLarge { limit } => {
                let n = decimal_text(*limit as u64);
                concat3("JSON response exceeds the ", n.as_str(), " byte limit")
            },
            JsonLimitError::Read => "read JSON response".to_owned(),
            JsonLimitError::Parse => "parse JSON response".to_owned(),
            JsonLimitError::UnsupportedEncoding { encoding } => concat2(
                "unsupported JSON content encoding ",
                encoding.as_str(),
            ),
        }
    }
}

/// The first `max` bytes, or all where there are fewer, that
/// `flate2::read::GzDecoder` gives for gzip data; nothing where the data is found
/// broken before that.
pub uninterp spec fn gunzipped(bytes: Seq<u8>, max: int) -> Option<Seq<u8>>;

/// `flate2::read::GzDecoder` read to its end, or up to `max` bytes: what the data
/// decompresses to, at most `max` bytes of it, or nothing where the decoder fails.
#[verifier::external_body]
fn gunzip(bytes: &[u8], max: u64) -> (r: Option<Vec<u8>>)
    ensures
        match r {
            Some(v) => gunzipped(bytes@, max as int) == Some(v@) && v@.len() <= max,
            None => gunzipped(bytes@, max as int) is None,
        },
{
    let mut out: Vec<u8> = Vec::new();
    flate2::read::GzDecoder::new(bytes).take(max).read_to_end(&mut out).ok()?;
    Some(out)
}

/// How a payload is encoded.
pub enum Encoding {
    Identity,
    Gzip,
    Other(Seq<char>),
}

pub open spec fn encoding_of(header: Option<Seq<char>>) -> Encoding {
    let value = trimmed(
        match header {
            Some(h) => h,
            None => "identity"@,
        },
    );
    let name = lowered(value);
    if name.len() == 0 || name == "identity"@ {
        Encoding::Identity
    } else if name == "gzip"@ || name == "x-gzip"@ {
        Encoding::Gzip
    } else {
        Encoding::Other(value)
    }
}

/// A number one greater, where there is one.
pub open spec fn one_more(limit: usize) -> int {
    if limit == usize::MAX {
        limit as int
    } else {
        limit + 1
    }
}

/// What a payload decodes to, as far as one byte beyond the limit.
pub open spec fn decoded(body: Seq<u8>, encoding: Encoding, limit: usize) -> Option<Seq<u8>> {
    match encoding {
        Encoding::Identity => if body.len() > one_more(limit) {
            Some(body.take(one_more(limit)))
        } else {
            Some(body)
        },
        Encoding::Gzip => gunzipped(body, one_more(limit)),
        Encoding::Other(_) => None,
    }
}

/// A payload that was decoded as far as one byte beyond the limit; it is missing
/// where it could not be decoded. Fails there, and where there is more than the
/// limit.
pub fn within_limit(bytes: Option<Vec<u8>>, limit: usize) -> (r: Result<Vec<u8>, JsonLimitError>)
    ensures
        match bytes {
            None => r == Err::<Vec<u8>, JsonLimitError>(JsonLimitError::Read),
            Some(v) => if v@.len() > limit {
                r == Err::<Vec<u8>, JsonLimitError>(JsonLimitError::TooLarge { limit })
            } else {
                r == Ok::<Vec<u8>, JsonLimitError>(v)
            },
        },
{
    match bytes {
        None => Err(JsonLimitError::Read),
        Some(v) => if v.len() > limit {
            Err(JsonLimitError::TooLarge { limit })
        } else {
            Ok(v)
        },
    }
}

/// Decodes a payload of at most `limit` bytes; the limit holds after
/// decompression. Fails on another encoding than gzip, on broken data, and where
/// there is more.
pub fn read_limited_bytes(body: Vec<u8>, content_encoding: Option<&str>, limit: usize) -> (r: Result<
    Vec<u8>,
    JsonLimitError,
>)
    ensures
        ({
            let encoding = encoding_of(opt_str(content_encoding));
            match r {
                Ok(v) => decoded(body@, encoding, limit) == Some(v@) && v@.len() <= limit,
                Err(JsonLimitError::UnsupportedEncoding { encoding: e }) => encoding
                    == Encoding::Other(e@),
                Err(JsonLimitError::Read) => !(encoding is Other) && decoded(
                    body@,
                    encoding,
                    limit,
                ) is None,
                Err(JsonLimitError::TooLarge { limit: l }) => l == limit && (decoded(
                    body@,
                    encoding,
                    limit,
                ) matches Some(v) && v.len() > limit),
                Err(JsonLimitError::Parse) => false,
            }
        }),
{
    let header = match content_encoding {
        Some(h) => h,
        None => "identity",
    };
    let value = trim(header);
    let name = ascii_lowercase(value.as_str());
    let max: u64 = if limit == usize::MAX { limit as u64 } else { limit as u64 + 1 };
    let bytes = if name.as_str().is_empty() || same_text(name.as_str(), "identity") {
        let mut body = body;
        if body.len() as u64 > max {
            body.truncate(max as usize);
        }
        Some(body)
    } else if same_text(name.as_str(), "gzip") || same_text(name.as_str(), "x-gzip") {
        gunzip(&body, max)
    } else {
        return Err(JsonLimitError::UnsupportedEncoding { encoding: value });
    };
    within_limit(bytes, limit)
}

/// Decodes a JSON payload of at most `limit` bytes. Whether it is JSON is asked
/// only once its size is known to be within the limit.
pub fn read_encoded_json_limited(
    body: Vec<u8>,
    content_encoding: Option<&str>,
    limit: usize,
) -> (r: Result<Vec<u8>, JsonLimitError>)
    ensures
        ({
            let encoding = encoding_of(opt_str(content_encoding));
            let bytes = decoded(body@, encoding, limit);
            match r {
                Ok(v) => bytes == Some(v@) && v@.len() <= limit && json_bytes_valid(v@),
                Err(JsonLimitError::UnsupportedEncoding { encoding: e }) => encoding
                    == Encoding::Other(e@),
                Err(JsonLimitError::Read) => !(encoding is Other) && bytes is None,
                Err(JsonLimitError::TooLarge { limit: l }) => l == limit && (bytes matches Some(v)
                    && v.len() > limit),
                Err(JsonLimitError::Parse) => bytes matches Some(v) && v.len() <= limit
                    && !json_bytes_valid(v),
            }
        }),
{
    match read_limited_bytes(body, content_encoding, limit) {
        Err(e) => Err(e),
        Ok(bytes) => if are_json(&bytes) {
            Ok(bytes)
        } else {
            Err(JsonLimitError::Parse)
        },
    }
}

/// Decodes a JSON payload of at most `limit` bytes that is not compressed.
pub fn read_json_limited(body: Vec<u8>, limit: usize) -> (r: Result<Vec<u8>, JsonLimitError>)
    ensures
        match r {
            Ok(v) => v@ == body@ && body@.len() <= limit && json_bytes_valid(body@),
            Err(JsonLimitError::TooLarge { limit: l }) => l == limit && body@.len() > limit,
            Err(JsonLimitError::Parse) => body@.len() <= limit && !json_bytes_valid(body@),
            Err(_) => false,
        },
{
    proof {
        lemma_identity();
    }
    let n: usize = body.len();
    read_encoded_json_limited(body, None, limit)
}

proof fn lemma_identity()
    ensures
        encoding_of(None) == Encoding::Identity,
{
    reveal_strlit("identity");
    let s = "identity"@;
    assert(trim_front(s) == s);
    assert(trim_back(s) == s);
    assert(lowered(s) =~= s);
}

} // verus!
