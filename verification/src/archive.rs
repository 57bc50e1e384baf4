//! Archived conversations: identifiers, roles and content.
use crate::code_types::ProjectInfo;
use crate::hashing::{hash_bytes, hash_of, hash_of_bytes, hash_text};
use crate::ids::{SourceId, key_of, key_text, keyed_id, make_id, strs};
use crate::records::{ModelInfo, UsageCounts};
use crate::text::{
    ascii_lowercase, decimal, decimal_text, lower_ascii, lowered, opt_str, same_text, trim,
    trim_back, trim_front, trimmed,
};
use crate::time::Timestamp;
use base64::Engine;
use vstd::prelude::*;
use vstd::utf8::encode_utf8;

verus! {

pub const ARCHIVE_CONVERSATION_SCHEMA_VERSION: &'static str = "archive_conversation.v1";

/// A file that an archived conversation depends on.
#[derive(Debug, Clone, PartialEq, Eq)]
pub struct ArchiveArtifactDependency {
    pub cache_key: String,
    pub path: String,
    pub metadata_signature: String,
}

/// What kind of thing lies at a path.
#[derive(Debug, Clone, Copy, PartialEq, Eq, Structural)]
pub enum ArtifactKind {
    File,
    Directory,
    Other,
}

/// What is known of a file without reading it. Times are since 1970, and zero
/// where they are not known.
#[derive(Debug, Clone, PartialEq, Eq)]
pub struct ArtifactMetadata {
    pub kind: ArtifactKind,
    pub length: u64,
    pub modified_seconds: u64,
    pub modified_nanos: u32,
    pub created_seconds: u64,
    pub created_nanos: u32,
    pub mode: u32,
    /// Where the file really lies; empty where that is not known.
    pub canonical_path: String,
}

pub open spec fn artifact_kind_text(k: ArtifactKind) -> Seq<char> {
    match k {
        ArtifactKind::File => "file"@,
        ArtifactKind::Directory => "directory"@,
        ArtifactKind::Other => "other"@,
    }
}

pub open spec fn signature_spec(m: Option<ArtifactMetadata>) -> Seq<char> {
    match m {
        None => "missing"@,
        Some(m) => hash_of(
            key_of(
                seq![
                    "artifact-meta.v1"@,
                    artifact_kind_text(m.kind),
                    decimal(m.length as nat),
                    decimal(m.modified_seconds as nat),
                    decimal(m.modified_nanos as nat),
                    decimal(m.created_seconds as nat),
                    decimal(m.created_nanos as nat),
                    decimal(m.mode as nat),
                    m.canonical_path@,
                ],
            ),
        ),
    }
}

/// A text that changes when a file changes. `metadata` is missing where the file
/// is.
pub fn archive_artifact_metadata_signature(metadata: Option<&ArtifactMetadata>) -> (r: String)
    ensures
        r@ == signature_spec(
            match metadata {
                Some(m) => Some(*m),
                None => None,
            },
        ),
{
    let m = match metadata {
        Some(m) => m,
        None => return "missing".to_owned(),
    };
    let kind = match m.kind {
        ArtifactKind::File => "file",
        ArtifactKind::Directory => "directory",
        ArtifactKind::Other => "other",
    };
    let length = decimal_text(m.length);
    let modified_seconds = decimal_text(m.modified_seconds);
    let modified_nanos = decimal_text(m.modified_nanos as u64);
    let created_seconds = decimal_text(m.created_seconds);
    let created_nanos = decimal_text(m.created_nanos as u64);
    let mode = decimal_text(m.mode as u64);
    let parts: [&str; 9] = [
        "artifact-meta.v1",
        kind,
        length.as_str(),
        modified_seconds.as_str(),
        modified_nanos.as_str(),
        created_seconds.as_str(),
        created_nanos.as_str(),
        mode.as_str(),
        m.canonical_path.as_str(),
    ];
    proof {
        assert(strs(parts@) =~= seq![
            "artifact-meta.v1"@,
            artifact_kind_text(m.kind),
            decimal(m.length as nat),
            decimal(m.modified_seconds as nat),
            decimal(m.modified_nanos as nat),
            decimal(m.created_seconds as nat),
            decimal(m.created_nanos as nat),
            decimal(m.mode as nat),
            m.canonical_path@,
        ]);
    }
    let key = key_text(&parts);
    hash_text(key.as_str())
}

/// How much of a conversation is archived.
#[derive(Debug, Clone, Copy, PartialEq, Eq, Structural)]
pub enum ArchiveCompleteness {
    Complete,
    Partial,
    MetadataOnly,
}

impl ArchiveCompleteness {
    pub fn as_str(self) -> (r: &'static str)
        ensures
            r@ == match self {
                ArchiveCompleteness::Complete => "complete"@,
                ArchiveCompleteness::Partial => "partial"@,
                ArchiveCompleteness::MetadataOnly => "metadata_only"@,
            },
    {
        match self {
            ArchiveCompleteness::Complete => "complete",
            ArchiveCompleteness::Partial => "partial",
            ArchiveCompleteness::MetadataOnly => "metadata_only",
        }
    }
}

#[derive(Debug, Clone, Copy, PartialEq, Eq, Structural)]
pub enum ArchiveItemKind {
    Message,
    ToolCall,
    ToolResult,
    ReasoningSummary,
    Artifact,
}

impl ArchiveItemKind {
    pub fn as_str(self) -> (r: &'static str)
        ensures
            r@ == match self {
                ArchiveItemKind::Message => "message"@,
                ArchiveItemKind::ToolCall => "tool_call"@,
                ArchiveItemKind::ToolResult => "tool_result"@,
                ArchiveItemKind::ReasoningSummary => "reasoning_summary"@,
                ArchiveItemKind::Artifact => "artifact"@,
            },
    {
        match self {
            ArchiveItemKind::Message => "message",
            ArchiveItemKind::ToolCall => "tool_call",
            ArchiveItemKind::ToolResult => "tool_result",
            ArchiveItemKind::ReasoningSummary => "reasoning_summary",
            ArchiveItemKind::Artifact => "artifact",
        }
    }
}

#[derive(Debug, Clone, Copy, PartialEq, Eq, Structural)]
pub enum ArchiveRole {
    User,
    Assistant,
    Developer,
    System,
    Tool,
    Unknown,
}

impl ArchiveRole {
    pub open spec fn name_spec(self) -> Seq<char> {
        match self {
            ArchiveRole::User => "user"@,
            ArchiveRole::Assistant => "assistant"@,
            ArchiveRole::Developer => "developer"@,
            ArchiveRole::System => "system"@,
            ArchiveRole::Tool => "tool"@,
            ArchiveRole::Unknown => "unknown"@,
        }
    }

    /// The role that a text names, in any case and with white space around it.
    pub open spec fn parse_spec(value: Seq<char>) -> ArchiveRole {
        let v = lowered(trimmed(value));
        if v == "user"@ {
            ArchiveRole::User
        } else if v == "assistant"@ {
            ArchiveRole::Assistant
        } else if v == "developer"@ {
            ArchiveRole::Developer
        } else if v == "system"@ {
            ArchiveRole::System
        } else if v == "tool"@ || v == "tool_result"@ {
            ArchiveRole::Tool
        } else {
            ArchiveRole::Unknown
        }
    }

    pub fn as_str(self) -> (r: &'static str)
        ensures
            r@ == self.name_spec(),
    {
        match self {
            ArchiveRole::User => "user",
            ArchiveRole::Assistant => "assistant",
            ArchiveRole::Developer => "developer",
            ArchiveRole::System => "system",
            ArchiveRole::Tool => "tool",
            ArchiveRole::Unknown => "unknown",
        }
    }

    pub fn parse(value: &str) -> (r: ArchiveRole)
        ensures
            r == ArchiveRole::parse_spec(value@),
    {
        let t = trim(value);
        let v = ascii_lowercase(t.as_str());
        let v = v.as_str();
        if same_text(v, "user") {
            ArchiveRole::User
        } else if same_text(v, "assistant") {
            ArchiveRole::Assistant
        } else if same_text(v, "developer") {
            ArchiveRole::Developer
        } else if same_text(v, "system") {
            ArchiveRole::System
        } else if same_text(v, "tool") || same_text(v, "tool_result") {
            ArchiveRole::Tool
        } else {
            ArchiveRole::Unknown
        }
    }
}

proof fn lemma_plain_word(s: Seq<char>)
    requires
        s.len() > 0,
        forall|i: int| 0 <= i < s.len() ==> lower_ascii(#[trigger] s[i]),
    ensures
        lowered(trimmed(s)) == s,
{
    assert(lower_ascii(s[0]));
    assert(lower_ascii(s.last()));
    assert(trim_front(s) == s);
    assert(trim_back(s) == s);
    assert(lowered(s) =~= s);
}

/// Every role's own name is read as the role.
pub proof fn role_names_are_read_back(role: ArchiveRole)
    ensures
        ArchiveRole::parse_spec(role.name_spec()) == role,
{
    reveal_strlit("user");
    reveal_strlit("assistant");
    reveal_strlit("developer");
    reveal_strlit("system");
    reveal_strlit("tool");
    reveal_strlit("tool_result");
    reveal_strlit("unknown");
    lemma_plain_word(role.name_spec());
    assert("user"@.len() == 4);
    assert("system"@.len() == 6);
    assert("unknown"@[0] == 'u' && "unknown"@.len() == 7);
    assert("assistant"@[0] == 'a');
    assert("developer"@[0] == 'd');
}

#[derive(Debug, Clone, Copy, PartialEq, Eq, Structural)]
pub enum ArchiveContentKind {
    Text,
    Image,
    File,
    Audio,
    Json,
}

impl ArchiveContentKind {
    pub fn as_str(self) -> (r: &'static str)
        ensures
            r@ == match self {
                ArchiveContentKind::Text => "text"@,
                ArchiveContentKind::Image => "image"@,
                ArchiveContentKind::File => "file"@,
                ArchiveContentKind::Audio => "audio"@,
                ArchiveContentKind::Json => "json"@,
            },
    {
        match self {
            ArchiveContentKind::Text => "text",
            ArchiveContentKind::Image => "image",
            ArchiveContentKind::File => "file",
            ArchiveContentKind::Audio => "audio",
            ArchiveContentKind::Json => "json",
        }
    }
}

#[derive(Debug, Clone, PartialEq, Eq)]
pub struct ArchiveConversation {
    pub schema_version: String,
    pub conversation_id: String,
    pub provider: String,
    pub source_id: SourceId,
    pub native_conversation_id: String,
    pub title: Option<String>,
    pub project: Option<ProjectInfo>,
    pub started_at: Option<Timestamp>,
    pub updated_at: Option<Timestamp>,
    pub completeness: ArchiveCompleteness,
    pub missing_content_count: u64,
    /// Local only.
    pub missing_content_scope_id: Option<String>,
    /// Local only.
    pub discarded_source_record_ids: Vec<String>,
    /// Local only.
    pub superseded_conversation_ids: Vec<String>,
    pub items: Vec<ArchiveItem>,
}

#[derive(Debug, Clone, PartialEq, Eq)]
pub struct ArchiveItem {
    pub item_id: String,
    pub native_item_id: Option<String>,
    pub source_record_id: Option<String>,
    pub ordinal: u64,
    pub kind: ArchiveItemKind,
    pub role: Option<ArchiveRole>,
    pub created_at: Option<Timestamp>,
    pub model: Option<ModelInfo>,
    pub tool_name: Option<String>,
    pub tool_call_id: Option<String>,
    pub status: Option<String>,
    pub usage: Option<UsageCounts>,
    /// Local only.
    pub parts_authoritative: bool,
    pub parts: Vec<ArchiveContentPart>,
}

#[derive(Debug, Clone, PartialEq, Eq)]
pub struct ArchiveContentPart {
    pub content_id: String,
    pub ordinal: u64,
    pub kind: ArchiveContentKind,
    pub mime_type: Option<String>,
    pub name: Option<String>,
    pub text: Option<String>,
    pub data_base64: Option<String>,
    pub external_uri: Option<String>,
    pub content_hash: String,
    pub original_bytes: u64,
    pub truncated: bool,
}

/// What the standard engine of `base64` writes for bytes.
pub uninterp spec fn base64_text(bytes: Seq<u8>) -> Seq<char>;

/// The bytes that the standard engine of `base64` reads from a text.
pub uninterp spec fn base64_bytes(text: Seq<char>) -> Option<Seq<u8>>;

/// `base64::Engine::encode` of the standard engine. Decoding the result gives the
/// bytes back.
#[verifier::external_body]
fn encode_base64(bytes: &[u8]) -> (r: String)
    ensures
        r@ == base64_text(bytes@),
        base64_bytes(r@) == Some(bytes@),
{
    base64::engine::general_purpose::STANDARD.encode(bytes)
}

/// `base64::Engine::decode` of the standard engine: the bytes that a text writes,
/// or nothing where it is not of that form.
#[verifier::external_body]
fn decode_base64(text: &str) -> (r: Option<Vec<u8>>)
    ensures
        match r {
            Some(v) => base64_bytes(text@) == Some(v@),
            None => base64_bytes(text@) is None,
        },
{
    base64::engine::general_purpose::STANDARD.decode(text.as_bytes()).ok()
}

/// Whether a part holds the bytes.
pub open spec fn holds_bytes(p: ArchiveContentPart, bytes: Seq<u8>) -> bool {
    &&& p.text is None
    &&& p.data_base64 matches Some(d) && d@ == base64_text(bytes) && base64_bytes(d@) == Some(bytes)
    &&& p.external_uri is None
    &&& p.content_hash@ == hash_of_bytes(bytes)
    &&& p.original_bytes == bytes.len()
    &&& !p.truncated
}

/// The given text is not base64.
#[derive(Debug, Clone, Copy, PartialEq, Eq, Structural)]
pub struct InvalidBase64;

impl ArchiveContentPart {
    pub fn text(content_id: String, ordinal: u64, kind: ArchiveContentKind, text: String) -> (r: Self)
        ensures
            r.content_id == content_id,
            r.ordinal == ordinal,
            r.kind == kind,
            r.mime_type is None,
            r.name is None,
            r.text == Some(text),
            r.data_base64 is None,
            r.external_uri is None,
            r.content_hash@ == hash_of(text@),
            r.original_bytes == encode_utf8(text@).len(),
            !r.truncated,
    {
        let bytes = text.as_str().as_bytes();
        let original_bytes: u64 = bytes.len() as u64;
        let content_hash = hash_text(text.as_str());
        ArchiveContentPart {
            content_id,
            ordinal,
            kind,
            mime_type: None,
            name: None,
            text: Some(text),
            data_base64: None,
            external_uri: None,
            content_hash,
            original_bytes,
            truncated: false,
        }
    }

    pub fn binary_bytes(
        content_id: String,
        ordinal: u64,
        kind: ArchiveContentKind,
        mime_type: Option<String>,
        name: Option<String>,
        bytes: &[u8],
    ) -> (r: Self)
        ensures
            r.content_id == content_id,
            r.ordinal == ordinal,
            r.kind == kind,
            r.mime_type == mime_type,
            r.name == name,
            holds_bytes(r, bytes@),
    {
        ArchiveContentPart {
            content_id,
            ordinal,
            kind,
            mime_type,
            name,
            text: None,
            data_base64: Some(encode_base64(bytes)),
            external_uri: None,
            content_hash: hash_archive_bytes(bytes),
            original_bytes: bytes.len() as u64,
            truncated: false,
        }
    }

    /// A part with the bytes that a base64 text writes. Fails on any other text.
    pub fn binary(
        content_id: String,
        ordinal: u64,
        kind: ArchiveContentKind,
        mime_type: Option<String>,
        name: Option<String>,
        data_base64: String,
    ) -> (r: Result<Self, InvalidBase64>)
        ensures
            match r {
                Ok(p) => {
                    &&& base64_bytes(data_base64@) is Some
                    &&& p.content_id == content_id
                    &&& p.ordinal == ordinal
                    &&& p.kind == kind
                    &&& p.mime_type == mime_type
                    &&& p.name == name
                    &&& holds_bytes(p, base64_bytes(data_base64@)->0)
                },
                Err(_) => base64_bytes(data_base64@) is None,
            },
    {
        match decode_base64(data_base64.as_str()) {
            Some(bytes) => Ok(
                ArchiveContentPart::binary_bytes(
                    content_id,
                    ordinal,
                    kind,
                    mime_type,
                    name,
                    &bytes,
                ),
            ),
            None => Err(InvalidBase64),
        }
    }
}

/// The content of a part made from bytes decodes to exactly those bytes.
pub proof fn binary_content_decodes_to_its_bytes(p: ArchiveContentPart, bytes: Seq<u8>)
    requires
        holds_bytes(p, bytes),
    ensures
        p.data_base64 matches Some(d) && base64_bytes(d@) == Some(bytes),
        p.original_bytes == bytes.len(),
{
}

pub open spec fn conversation_id_spec(provider: Seq<char>, native: Seq<char>) -> Seq<char> {
    keyed_id("conv_"@, seq![provider, native], 24)
}

pub fn archive_conversation_id(provider: &str, native_conversation_id: &str) -> (r: String)
    ensures
        r@ == conversation_id_spec(provider@, native_conversation_id@),
{
    let parts: [&str; 2] = [provider, native_conversation_id];
    proof {
        assert(strs(parts@) =~= seq![provider@, native_conversation_id@]);
    }
    make_id("conv_", &parts, 24)
}

/// What identifies an item in its conversation: its own identifier, else its
/// place and content.
pub open spec fn item_key(native: Option<Seq<char>>, ordinal: u64, content: Seq<char>) -> Seq<char> {
    match native {
        Some(id) => id,
        None => key_of(seq![decimal(ordinal as nat), content]),
    }
}

pub fn archive_item_id(
    provider: &str,
    native_conversation_id: &str,
    native_item_id: Option<&str>,
    ordinal: u64,
    content_fingerprint: &str,
) -> (r: String)
    ensures
        r@ == keyed_id(
            "item_"@,
            seq![
                provider@,
                native_conversation_id@,
                item_key(opt_str(native_item_id), ordinal, content_fingerprint@),
            ],
            24,
        ),
{
    let identity = match native_item_id {
        Some(id) => id.to_owned(),
        None => {
            let n = decimal_text(ordinal);
            let parts: [&str; 2] = [n.as_str(), content_fingerprint];
            proof {
                assert(strs(parts@) =~= seq![decimal(ordinal as nat), content_fingerprint@]);
            }
            key_text(&parts)
        },
    };
    let parts: [&str; 3] = [provider, native_conversation_id, identity.as_str()];
    proof {
        assert(strs(parts@) =~= seq![provider@, native_conversation_id@, identity@]);
    }
    make_id("item_", &parts, 24)
}

pub fn archive_content_id(item_id: &str, ordinal: u64) -> (r: String)
    ensures
        r@ == keyed_id("content_"@, seq![item_id@, decimal(ordinal as nat)], 24),
{
    let n = decimal_text(ordinal);
    let parts: [&str; 2] = [item_id, n.as_str()];
    proof {
        assert(strs(parts@) =~= seq![item_id@, decimal(ordinal as nat)]);
    }
    make_id("content_", &parts, 24)
}

pub fn hash_archive_bytes(bytes: &[u8]) -> (r: String)
    ensures
        r@ == hash_of_bytes(bytes@),
{
    hash_bytes(bytes)
}

} // verus!
