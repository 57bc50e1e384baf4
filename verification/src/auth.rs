//! Device sessions: where they are kept, when they are refreshed, and how a
//! device is linked.
use crate::ids::text_or;
use crate::json::{
    is_json, json_string_at, json_u64_at, json_valid, read_json_string, read_json_u64,
};
use crate::paths::{join_path, path_join};
use crate::render::push_line;
use crate::text::{
    blank, chars_of, concat2, concat3, copy_opt, decimal, decimal_text, digit_ascii, is_blank,
    lower, lower_ascii, opt_text, replace_char, same_text, split_char, split_first, split_on,
    split_once, texts, to_lower, trim, trim_back_char, trim_end_char, trimmed, upper_ascii,
};
use vstd::prelude::*;
use vstd::utf8::{decode_utf8, encode_utf8, valid_utf8};

verus! {

pub const DEFAULT_CLOUDFLARE_API_URL: &'static str = "http://127.0.0.1:8787";

pub const DEFAULT_CLOUDFLARE_WEB_URL: &'static str = "http://127.0.0.1:3000";

/// The characters of a login's state.
pub const STATE_ALPHABET: &'static str =
    "ABCDEFGHIJKLMNOPQRSTUVWXYZabcdefghijklmnopqrstuvwxyz0123456789-._~";

/// An access token is not used in its last seconds.
pub const ACCESS_TOKEN_MARGIN_SECONDS: u64 = 300;

#[derive(Debug, PartialEq, Eq)]
pub struct AuthCredentials {
    pub backend: Option<String>,
    pub api_base_url: Option<String>,
    pub cloudflare_refresh_token: Option<String>,
    pub cloudflare_refresh_expires_at_secs: u64,
    pub cloudflare_access_token: Option<String>,
    pub cloudflare_access_expires_at_secs: u64,
    pub device_id: Option<String>,
}

impl Clone for AuthCredentials {
    fn clone(&self) -> (r: Self)
        ensures
            r == *self,
    {
        AuthCredentials {
            backend: copy_opt(&self.backend),
            api_base_url: copy_opt(&self.api_base_url),
            cloudflare_refresh_token: copy_opt(&self.cloudflare_refresh_token),
            cloudflare_refresh_expires_at_secs: self.cloudflare_refresh_expires_at_secs,
            cloudflare_access_token: copy_opt(&self.cloudflare_access_token),
            cloudflare_access_expires_at_secs: self.cloudflare_access_expires_at_secs,
            device_id: copy_opt(&self.device_id),
        }
    }
}

// ---------------------------------------------------------------------------
// Servers and files
// ---------------------------------------------------------------------------

/// A URL without white space around it and slashes at its end; where nothing is
/// left, the default.
pub open spec fn normal_url(value: Seq<char>, default_value: Seq<char>) -> Seq<char> {
    let v = trim_back_char(trimmed(value), '/');
    if v.len() == 0 {
        default_value
    } else {
        v
    }
}

pub fn normalize_url(value: &str, default_value: &str) -> (r: String)
    ensures
        r@ == normal_url(value@, default_value@),
{
    let t = trim(value);
    let v = trim_end_char(t.as_str(), '/');
    if v.as_str().is_empty() {
        default_value.to_owned()
    } else {
        v
    }
}

pub open spec fn normal_api_url(value: Seq<char>) -> Seq<char> {
    normal_url(value, DEFAULT_CLOUDFLARE_API_URL@)
}

pub fn normalize_base_url(value: &str) -> (r: String)
    ensures
        r@ == normal_api_url(value@),
{
    normalize_url(value, DEFAULT_CLOUDFLARE_API_URL)
}

/// The API server, from the environment's setting.
pub fn cloudflare_api_url(setting: Option<&str>) -> (r: String)
    ensures
        r@ == normal_api_url(text_or(setting, DEFAULT_CLOUDFLARE_API_URL@)),
{
    match setting {
        Some(v) => normalize_base_url(v),
        None => normalize_base_url(DEFAULT_CLOUDFLARE_API_URL),
    }
}

/// The web server, from the environment's setting.
pub fn cloudflare_web_url(setting: Option<&str>) -> (r: String)
    ensures
        r@ == normal_url(
            text_or(setting, DEFAULT_CLOUDFLARE_WEB_URL@),
            DEFAULT_CLOUDFLARE_WEB_URL@,
        ),
{
    match setting {
        Some(v) => normalize_url(v, DEFAULT_CLOUDFLARE_WEB_URL),
        None => normalize_url(DEFAULT_CLOUDFLARE_WEB_URL, DEFAULT_CLOUDFLARE_WEB_URL),
    }
}

pub open spec fn alnum_ascii(c: char) -> bool {
    upper_ascii(c) || lower_ascii(c) || digit_ascii(c)
}

pub open spec fn key_char(c: char) -> char {
    if alnum_ascii(c) {
        lower(c)
    } else {
        '_'
    }
}

pub open spec fn backend_key(value: Seq<char>) -> Seq<char> {
    if value.len() == 0 {
        "default"@
    } else {
        value.map_values(|c: char| key_char(c))
    }
}

/// A text as part of a file name: small letters and digits, and underscores for
/// the rest.
pub fn sanitize_backend_key(value: &str) -> (r: String)
    ensures
        r@ == backend_key(value@),
{
    let cs = chars_of(value);
    if cs.len() == 0 {
        return "default".to_owned();
    }
    let mut key = String::new();
    let mut i: usize = 0;
    while i < cs.len()
        invariant
            cs@ == value@,
            i <= cs.len(),
            key@ == value@.take(i as int).map_values(|c: char| key_char(c)),
        decreases cs.len() - i,
    {
        let c = cs[i];
        let keep = ('A' <= c && c <= 'Z') || ('a' <= c && c <= 'z') || ('0' <= c && c <= '9');
        let k = if keep {
            to_lower(c)
        } else {
            '_'
        };
        key.push(k);
        i = i + 1;
        proof {
            assert(key@ =~= value@.take(i as int).map_values(|c: char| key_char(c)));
        }
    }
    proof {
        assert(value@.take(i as int) =~= value@);
    }
    key
}

pub open spec fn username_char(c: char) -> char {
    if c == ':' || c == '/' || c == '.' || c == ' ' {
        '_'
    } else {
        c
    }
}

pub open spec fn keyring_username(api_base_url: Seq<char>, kind: Seq<char>) -> Seq<char> {
    "cf-"@ + kind + "-"@ + api_base_url.map_values(|c: char| username_char(c))
}

/// The name under which the system's keyring holds a server's token.
pub fn keyring_username_for_token(api_base_url: &str, kind: &str) -> (r: String)
    ensures
        r@ == keyring_username(api_base_url@, kind@),
{
    let a = replace_char(api_base_url, ':', '_');
    let b = replace_char(a.as_str(), '/', '_');
    let c = replace_char(b.as_str(), '.', '_');
    let safe = replace_char(c.as_str(), ' ', '_');
    proof {
        assert(safe@ =~= api_base_url@.map_values(|c: char| username_char(c)));
    }
    let head = concat3("cf-", kind, "-");
    concat2(head.as_str(), safe.as_str())
}

/// The directory of the settings, in the home directory where there is one.
pub fn auth_base_dir(home: Option<&str>) -> (r: String)
    ensures
        r@ == path_join(text_or(home, "."@), ".statsai"@),
{
    match home {
        Some(h) => join_path(h, ".statsai"),
        None => join_path(".", ".statsai"),
    }
}

pub open spec fn auth_path(base: Seq<char>, api_base_url: Seq<char>) -> Seq<char> {
    path_join(base, "auth-"@ + backend_key(normal_api_url(api_base_url)) + ".json"@)
}

/// Where the credentials for a server are kept.
pub fn auth_path_for_api_base_url(base: &str, api_base_url: &str) -> (r: String)
    ensures
        r@ == auth_path(base@, api_base_url@),
{
    let url = normalize_base_url(api_base_url);
    let key = sanitize_backend_key(url.as_str());
    let name = concat3("auth-", key.as_str(), ".json");
    join_path(base, name.as_str())
}

pub open spec fn legacy_path(base: Seq<char>) -> Seq<char> {
    path_join(base, "auth.json"@)
}

/// Where credentials were kept before each server had a file of its own.
pub fn legacy_auth_path(base: &str) -> (r: String)
    ensures
        r@ == legacy_path(base@),
{
    join_path(base, "auth.json")
}

// ---------------------------------------------------------------------------
// Stored sessions
// ---------------------------------------------------------------------------

pub open spec fn session_token(c: AuthCredentials) -> Option<Seq<char>> {
    match c.cloudflare_refresh_token {
        Some(t) => if blank(t@) {
            None
        } else {
            Some(t@)
        },
        None => None,
    }
}

/// A session is a refresh token that is not blank.
pub open spec fn has_session(c: AuthCredentials) -> bool {
    session_token(c) is Some
}

pub fn has_cloudflare_session(credentials: &AuthCredentials) -> (r: bool)
    ensures
        r == has_session(*credentials),
{
    match &credentials.cloudflare_refresh_token {
        Some(t) => !is_blank(t.as_str()),
        None => false,
    }
}

/// The server that credentials are for.
pub open spec fn api_of(c: AuthCredentials) -> Seq<char> {
    match c.api_base_url {
        Some(u) => u@,
        None => DEFAULT_CLOUDFLARE_API_URL@,
    }
}

pub fn credentials_api_url(credentials: &AuthCredentials) -> (r: String)
    ensures
        r@ == api_of(*credentials),
{
    match &credentials.api_base_url {
        Some(u) => u.clone(),
        None => DEFAULT_CLOUDFLARE_API_URL.to_owned(),
    }
}

pub open spec fn matches_backend(c: AuthCredentials, api_base_url: Seq<char>) -> bool {
    normal_api_url(api_of(c)) == normal_api_url(api_base_url)
}

pub fn credentials_match_backend(credentials: &AuthCredentials, api_base_url: &str) -> (r: bool)
    ensures
        r == matches_backend(*credentials, api_base_url@),
{
    let own = credentials_api_url(credentials);
    let a = normalize_base_url(own.as_str());
    let b = normalize_base_url(api_base_url);
    same_text(a.as_str(), b.as_str())
}

/// Credentials as they are written to a file: without the tokens, which the
/// system's keyring holds.
pub fn redact_credentials(credentials: &AuthCredentials) -> (r: AuthCredentials)
    ensures
        r == (AuthCredentials {
            cloudflare_refresh_token: None,
            cloudflare_access_token: None,
            ..*credentials
        }),
{
    AuthCredentials {
        backend: copy_opt(&credentials.backend),
        api_base_url: copy_opt(&credentials.api_base_url),
        cloudflare_refresh_token: None,
        cloudflare_refresh_expires_at_secs: credentials.cloudflare_refresh_expires_at_secs,
        cloudflare_access_token: None,
        cloudflare_access_expires_at_secs: credentials.cloudflare_access_expires_at_secs,
        device_id: copy_opt(&credentials.device_id),
    }
}

/// Puts the keyring's tokens where the file holds none.
pub fn hydrate_credentials(
    credentials: AuthCredentials,
    refresh: Option<String>,
    access: Option<String>,
) -> (r: AuthCredentials)
    ensures
        r == (AuthCredentials {
            cloudflare_refresh_token: if credentials.cloudflare_refresh_token is None {
                refresh
            } else {
                credentials.cloudflare_refresh_token
            },
            cloudflare_access_token: if credentials.cloudflare_access_token is None {
                access
            } else {
                credentials.cloudflare_access_token
            },
            ..credentials
        }),
{
    let mut c = credentials;
    if c.cloudflare_refresh_token.is_none() {
        c.cloudflare_refresh_token = refresh;
    }
    if c.cloudflare_access_token.is_none() {
        c.cloudflare_access_token = access;
    }
    c
}

/// The credentials for a server and the file that they belong in.
#[derive(Debug, Clone, PartialEq, Eq)]
pub struct AuthRecord {
    pub path: String,
    pub credentials: AuthCredentials,
    /// Whether they are still to be written there, and the tokens to be taken out
    /// of the old file.
    pub migrated: bool,
}

/// The credentials for a server: those in its own file, else those in the old
/// file where they are a session with this server, which then moves. Old
/// credentials without a session are found for the default server only.
/// `current` is what the server's own file holds, and `legacy` what the old one
/// does.
pub fn auth_record_for_backend(
    base: &str,
    api_base_url: &str,
    current: Option<AuthCredentials>,
    legacy: Option<AuthCredentials>,
) -> (r: Option<AuthRecord>)
    ensures
        ({
            let url = normal_api_url(api_base_url@);
            match current {
                Some(c) => r matches Some(record) && record.path@ == auth_path(base@, url)
                    && record.credentials == c && !record.migrated,
                None => match legacy {
                    Some(c) => if has_session(c) && matches_backend(c, url) {
                        r matches Some(record) && record.path@ == auth_path(base@, url)
                            && record.credentials == c && record.migrated
                    } else if !has_session(c) && url == normal_api_url(
                        DEFAULT_CLOUDFLARE_API_URL@,
                    ) {
                        r matches Some(record) && record.path@ == legacy_path(base@)
                            && record.credentials == c && !record.migrated
                    } else {
                        r is None
                    },
                    None => r is None,
                },
            }
        }),
{
    let url = normalize_base_url(api_base_url);
    let path = auth_path_for_api_base_url(base, url.as_str());
    match current {
        Some(credentials) => {
            return Some(AuthRecord { path, credentials, migrated: false });
        },
        None => {},
    }
    let credentials = match legacy {
        Some(c) => c,
        None => return None,
    };
    if has_cloudflare_session(&credentials) {
        if credentials_match_backend(&credentials, url.as_str()) {
            return Some(AuthRecord { path, credentials, migrated: true });
        }
        return None;
    }
    let default_url = normalize_base_url(DEFAULT_CLOUDFLARE_API_URL);
    if same_text(url.as_str(), default_url.as_str()) {
        return Some(
            AuthRecord { path: legacy_auth_path(base), credentials, migrated: false },
        );
    }
    None
}

// ---------------------------------------------------------------------------
// Tokens
// ---------------------------------------------------------------------------

/// What to do for an access token.
#[derive(Debug, Clone, PartialEq, Eq)]
pub enum TokenStep {
    NotLoggedIn,
    /// The credentials hold no session: they are to be removed.
    RemovedFlow,
    Use(String),
    Refresh { url: String, refresh_token: String },
}

/// An access token that holds for a while yet.
pub open spec fn usable_token(c: AuthCredentials, now: u64) -> Option<Seq<char>> {
    if c.cloudflare_access_expires_at_secs > now + ACCESS_TOKEN_MARGIN_SECONDS {
        match c.cloudflare_access_token {
            Some(t) => if blank(t@) {
                None
            } else {
                Some(t@)
            },
            None => None,
        }
    } else {
        None
    }
}

pub open spec fn server_url(api_base_url: Seq<char>, path: Seq<char>) -> Seq<char> {
    trim_back_char(api_base_url, '/') + path
}

/// The address of a service of the server.
pub fn service_url(api_base_url: &str, path: &str) -> (r: String)
    ensures
        r@ == server_url(api_base_url@, path@),
{
    let base = trim_end_char(api_base_url, '/');
    concat2(base.as_str(), path)
}

/// The first step towards an access token.
pub fn token_step(record: Option<&AuthCredentials>, api_base_url: &str, now: u64) -> (r: TokenStep)
    ensures
        match record {
            None => r == TokenStep::NotLoggedIn,
            Some(c) => match session_token(*c) {
                None => r == TokenStep::RemovedFlow,
                Some(refresh) => match usable_token(*c, now) {
                    Some(access) => r matches TokenStep::Use(t) && t@ == access,
                    None => r matches TokenStep::Refresh { url, refresh_token } && url@
                        == server_url(api_base_url@, "/api/devices/token"@) && refresh_token@
                        == refresh,
                },
            },
        },
{
    let c = match record {
        Some(c) => c,
        None => return TokenStep::NotLoggedIn,
    };
    let refresh_token = match &c.cloudflare_refresh_token {
        Some(t) => if is_blank(t.as_str()) {
            return TokenStep::RemovedFlow;
        } else {
            t.clone()
        },
        None => return TokenStep::RemovedFlow,
    };
    let expiry = c.cloudflare_access_expires_at_secs;
    if expiry > ACCESS_TOKEN_MARGIN_SECONDS && expiry - ACCESS_TOKEN_MARGIN_SECONDS > now {
        match &c.cloudflare_access_token {
            Some(t) => {
                if !is_blank(t.as_str()) {
                    return TokenStep::Use(t.clone());
                }
            },
            None => {},
        }
    }
    TokenStep::Refresh { url: service_url(api_base_url, "/api/devices/token"), refresh_token }
}

/// What a reply lacks.
#[derive(Debug, Clone, Copy, PartialEq, Eq, Structural)]
pub enum ReplyError {
    NotJson,
    MissingAccessToken,
    MissingAccessExpiry,
    MissingRefreshToken,
    MissingDevice,
}

impl ReplyError {
    pub open spec fn field_spec(self) -> Seq<char> {
        match self {
            ReplyError::NotJson => "JSON"@,
            ReplyError::MissingAccessToken => "accessToken"@,
            ReplyError::MissingAccessExpiry => "accessExpiresAt"@,
            ReplyError::MissingRefreshToken => "refreshToken"@,
            ReplyError::MissingDevice => "deviceId"@,
        }
    }

    /// The error in words; `request` is what was asked for.
    pub fn text(&self, request: &str) -> (r: String)
        ensures
            r@ == "Missing "@ + self.field_spec() + " from "@ + request@,
    {
        let field = match self {
            ReplyError::NotJson => "JSON",
            ReplyError::MissingAccessToken => "accessToken",
            ReplyError::MissingAccessExpiry => "accessExpiresAt",
            ReplyError::MissingRefreshToken => "refreshToken",
            ReplyError::MissingDevice => "deviceId",
        };
        let a = concat3("Missing ", field, " from ");
        concat2(a.as_str(), request)
    }
}

/// What a server's reply to a token request holds.
#[derive(Debug, Clone, PartialEq, Eq)]
pub struct TokenReply {
    pub is_json: bool,
    pub access_token: Option<String>,
    pub access_expires_at: Option<u64>,
    pub refresh_token: Option<String>,
    pub refresh_expires_at: Option<u64>,
    pub device_id: Option<String>,
}

pub open spec fn number_at(body: Seq<char>, pointer: Seq<char>, n: Option<u64>) -> bool {
    json_u64_at(body, pointer) == match n {
        Some(n) => Some(n as int),
        None => None,
    }
}

/// Reads a reply.
pub fn read_token_reply(body: &str) -> (r: TokenReply)
    ensures
        r.is_json == json_valid(body@),
        opt_text(r.access_token) == json_string_at(body@, "/accessToken"@),
        number_at(body@, "/accessExpiresAt"@, r.access_expires_at),
        opt_text(r.refresh_token) == json_string_at(body@, "/refreshToken"@),
        number_at(body@, "/refreshExpiresAt"@, r.refresh_expires_at),
        opt_text(r.device_id) == json_string_at(body@, "/deviceId"@),
{
    TokenReply {
        is_json: is_json(body),
        access_token: read_json_string(body, "/accessToken"),
        access_expires_at: read_json_u64(body, "/accessExpiresAt"),
        refresh_token: read_json_string(body, "/refreshToken"),
        refresh_expires_at: read_json_u64(body, "/refreshExpiresAt"),
        device_id: read_json_string(body, "/deviceId"),
    }
}

/// Whether `c` are the credentials that a complete reply gives.
pub open spec fn credentials_from(
    c: AuthCredentials,
    api_base_url: Seq<char>,
    reply: TokenReply,
    device: Option<String>,
) -> bool {
    &&& c.backend matches Some(b) && b@ == "cloudflare"@
    &&& c.api_base_url matches Some(u) && u@ == api_base_url
    &&& c.cloudflare_refresh_token == reply.refresh_token
    &&& c.cloudflare_refresh_expires_at_secs == match reply.refresh_expires_at {
        Some(n) => n,
        None => 0,
    }
    &&& c.cloudflare_access_token == reply.access_token
    &&& Some(c.cloudflare_access_expires_at_secs) == reply.access_expires_at
    &&& c.device_id == device
}

/// The credentials after a refresh. A reply that names no device leaves the
/// device as it was.
pub fn refreshed_credentials(
    credentials: AuthCredentials,
    api_base_url: &str,
    reply: TokenReply,
) -> (r: Result<AuthCredentials, ReplyError>)
    ensures
        match r {
            Ok(c) => {
                &&& reply.is_json && reply.access_token is Some && reply.refresh_token is Some
                &&& credentials_from(
                    c,
                    api_base_url@,
                    reply,
                    if reply.device_id is Some {
                        reply.device_id
                    } else {
                        credentials.device_id
                    },
                )
            },
            Err(e) => e == if !reply.is_json {
                ReplyError::NotJson
            } else if reply.access_token is None {
                ReplyError::MissingAccessToken
            } else if reply.access_expires_at is None {
                ReplyError::MissingAccessExpiry
            } else {
                ReplyError::MissingRefreshToken
            } && (reply.is_json && reply.access_token is Some && reply.access_expires_at is Some
                ==> reply.refresh_token is None),
        },
{
    if !reply.is_json {
        return Err(ReplyError::NotJson);
    }
    if reply.access_token.is_none() {
        return Err(ReplyError::MissingAccessToken);
    }
    let expiry: u64 = match reply.access_expires_at {
        Some(n) => n,
        None => return Err(ReplyError::MissingAccessExpiry),
    };
    if reply.refresh_token.is_none() {
        return Err(ReplyError::MissingRefreshToken);
    }
    let device_id = if reply.device_id.is_some() {
        reply.device_id
    } else {
        credentials.device_id
    };
    Ok(
        AuthCredentials {
            backend: Some("cloudflare".to_owned()),
            api_base_url: Some(api_base_url.to_owned()),
            cloudflare_refresh_token: reply.refresh_token,
            cloudflare_refresh_expires_at_secs: reply.refresh_expires_at.unwrap_or(0),
            cloudflare_access_token: reply.access_token,
            cloudflare_access_expires_at_secs: expiry,
            device_id,
        },
    )
}

/// The credentials of a device that was just linked.
pub fn exchanged_credentials(api_base_url: &str, reply: TokenReply) -> (r: Result<
    AuthCredentials,
    ReplyError,
>)
    ensures
        match r {
            Ok(c) => {
                &&& reply.is_json && reply.access_token is Some && reply.refresh_token is Some
                    && reply.device_id is Some
                &&& credentials_from(c, api_base_url@, reply, reply.device_id)
            },
            Err(e) => match e {
                ReplyError::NotJson => !reply.is_json,
                ReplyError::MissingRefreshToken => reply.is_json && reply.refresh_token is None,
                ReplyError::MissingAccessToken => reply.is_json && reply.refresh_token is Some
                    && reply.access_token is None,
                ReplyError::MissingAccessExpiry => reply.is_json && reply.refresh_token is Some
                    && reply.access_token is Some && reply.access_expires_at is None,
                ReplyError::MissingDevice => reply.is_json && reply.refresh_token is Some
                    && reply.access_token is Some && reply.access_expires_at is Some
                    && reply.device_id is None,
            },
        },
{
    if !reply.is_json {
        return Err(ReplyError::NotJson);
    }
    if reply.refresh_token.is_none() {
        return Err(ReplyError::MissingRefreshToken);
    }
    if reply.access_token.is_none() {
        return Err(ReplyError::MissingAccessToken);
    }
    let expiry: u64 = match reply.access_expires_at {
        Some(n) => n,
        None => return Err(ReplyError::MissingAccessExpiry),
    };
    if reply.device_id.is_none() {
        return Err(ReplyError::MissingDevice);
    }
    Ok(
        AuthCredentials {
            backend: Some("cloudflare".to_owned()),
            api_base_url: Some(api_base_url.to_owned()),
            cloudflare_refresh_token: reply.refresh_token,
            cloudflare_refresh_expires_at_secs: reply.refresh_expires_at.unwrap_or(0),
            cloudflare_access_token: reply.access_token,
            cloudflare_access_expires_at_secs: expiry,
            device_id: reply.device_id,
        },
    )
}

/// A refused request.
#[derive(Debug, Clone, PartialEq, Eq)]
pub struct Refusal {
    /// Whether the session is over, so that its file is to be removed.
    pub session_over: bool,
    pub message: String,
}

/// What a refused token refresh means.
pub fn refresh_refusal(code: u16, body: &str) -> (r: Refusal)
    ensures
        r.session_over == (code == 400 || code == 401),
        r.message@ == if code == 400 || code == 401 {
            "Cloudflare device session expired. Please run 'statsai auth login' again."@
        } else {
            "Cloudflare token refresh failed (HTTP "@ + decimal(code as nat) + "): "@ + body@
        },
{
    if code == 400 || code == 401 {
        return Refusal {
            session_over: true,
            message:
                "Cloudflare device session expired. Please run 'statsai auth login' again.".to_owned(),
        };
    }
    let n = decimal_text(code as u64);
    let a = concat3("Cloudflare token refresh failed (HTTP ", n.as_str(), "): ");
    Refusal { session_over: false, message: concat2(a.as_str(), body) }
}

/// What a refused device exchange means.
pub fn exchange_refusal(code: u16, body: &str) -> (r: String)
    ensures
        r@ == "Cloudflare device exchange failed (HTTP "@ + decimal(code as nat) + "): "@ + body@,
{
    let n = decimal_text(code as u64);
    let a = concat3("Cloudflare device exchange failed (HTTP ", n.as_str(), "): ");
    concat2(a.as_str(), body)
}

/// How long the access token holds.
pub open spec fn expiry_line(expires: u64, now: u64) -> Seq<char> {
    if expires > now {
        "Expiry: Access token expires in "@ + decimal(((expires - now) / 60) as nat) + " minutes"@
    } else {
        "Expiry: Access token expired, will refresh on next sync"@
    }
}

pub open spec fn line_for(label: Seq<char>, value: Option<String>) -> Seq<Seq<char>> {
    match value {
        Some(v) => seq![label + v@],
        None => Seq::empty(),
    }
}

/// The lines that tell the login's state.
pub open spec fn status_text(api: Seq<char>, record: Option<AuthCredentials>, now: u64) -> Seq<
    Seq<char>,
> {
    match record {
        None => seq!["Status: Not logged in"@, "API:    "@ + api],
        Some(c) => if !has_session(c) {
            seq![
                "Status: Not logged in"@,
                "API:    "@ + api,
                "Note:   Stored credentials are from a removed auth flow. Run `statsai auth login` again."@,
            ]
        } else {
            seq!["Status: Logged in"@, "Mode:   Cloudflare + Better Auth device token"@] + line_for(
                "API:    "@,
                c.api_base_url,
            ) + line_for("Device: "@, c.device_id) + seq![
                expiry_line(c.cloudflare_access_expires_at_secs, now),
            ]
        },
    }
}

pub fn status_lines(api_base_url: &str, record: Option<&AuthCredentials>, now: u64) -> (r: Vec<
    String,
>)
    ensures
        texts(r@) == status_text(
            api_base_url@,
            match record {
                Some(c) => Some(*c),
                None => None,
            },
            now,
        ),
{
    let mut lines: Vec<String> = Vec::new();
    proof {
        assert(texts(lines@) =~= Seq::empty());
    }
    let c = match record {
        Some(c) => c,
        None => {
            push_line(&mut lines, "Status: Not logged in".to_owned());
            push_line(&mut lines, concat2("API:    ", api_base_url));
            proof {
                assert(texts(lines@) =~= status_text(api_base_url@, None, now));
            }
            return lines;
        },
    };
    if !has_cloudflare_session(c) {
        push_line(&mut lines, "Status: Not logged in".to_owned());
        push_line(&mut lines, concat2("API:    ", api_base_url));
        push_line(
            &mut lines,
            "Note:   Stored credentials are from a removed auth flow. Run `statsai auth login` again.".to_owned(),
        );
        proof {
            assert(texts(lines@) =~= status_text(api_base_url@, Some(*c), now));
        }
        return lines;
    }
    push_line(&mut lines, "Status: Logged in".to_owned());
    push_line(&mut lines, "Mode:   Cloudflare + Better Auth device token".to_owned());
    match &c.api_base_url {
        Some(u) => push_line(&mut lines, concat2("API:    ", u.as_str())),
        None => {},
    }
    match &c.device_id {
        Some(d) => push_line(&mut lines, concat2("Device: ", d.as_str())),
        None => {},
    }
    if c.cloudflare_access_expires_at_secs > now {
        let left: u64 = (c.cloudflare_access_expires_at_secs - now) / 60;
        let n = decimal_text(left);
        push_line(&mut lines, concat3("Expiry: Access token expires in ", n.as_str(), " minutes"));
    } else {
        push_line(
            &mut lines,
            "Expiry: Access token expired, will refresh on next sync".to_owned(),
        );
    }
    proof {
        assert(texts(lines@) =~= status_text(api_base_url@, Some(*c), now));
    }
    lines
}

/// What to tell after a login.
pub fn login_label(credentials: &AuthCredentials) -> (r: String)
    ensures
        r@ == match credentials.device_id {
            Some(d) => d@,
            None => "Cloudflare device"@,
        },
{
    match &credentials.device_id {
        Some(d) => d.clone(),
        None => "Cloudflare device".to_owned(),
    }
}

/// A name for this device from the environment's settings.
pub fn default_device_name(hostname: Option<&str>, computer_name: Option<&str>, system: &str) -> (r:
    String)
    ensures
        r@ == text_or(hostname, text_or(computer_name, "device"@)) + " ("@ + system@ + ")"@,
{
    let host = match hostname {
        Some(h) => h,
        None => match computer_name {
            Some(h) => h,
            None => "device",
        },
    };
    let a = concat3(host, " (", system);
    concat2(a.as_str(), ")")
}

// ---------------------------------------------------------------------------
// Linking a device
// ---------------------------------------------------------------------------

/// `getrandom::getrandom`: fills the buffer with random bytes, or fails. Which
/// bytes come is left open.
#[verifier::external_body]
fn fill_random(buf: &mut Vec<u8>) -> (r: bool)
    ensures
        final(buf)@.len() == old(buf)@.len(),
{
    getrandom::getrandom(buf.as_mut_slice()).is_ok()
}

/// The text that random bytes stand for: one character of the alphabet for each.
pub open spec fn state_text(bytes: Seq<u8>) -> Seq<char> {
    bytes.map_values(|b: u8| STATE_ALPHABET@[b as int % 66])
}

pub fn state_from_bytes(bytes: &[u8]) -> (r: String)
    ensures
        r@ == state_text(bytes@),
{
    proof {
        reveal_strlit("ABCDEFGHIJKLMNOPQRSTUVWXYZabcdefghijklmnopqrstuvwxyz0123456789-._~");
    }
    let alphabet = chars_of(STATE_ALPHABET);
    let mut out = String::new();
    let mut i: usize = 0;
    while i < bytes.len()
        invariant
            alphabet@ == STATE_ALPHABET@,
            alphabet@.len() == 66,
            i <= bytes.len(),
            out@ == state_text(bytes@.take(i as int)),
        decreases bytes.len() - i,
    {
        out.push(alphabet[bytes[i] as usize % 66]);
        i = i + 1;
        proof {
            assert(out@ =~= state_text(bytes@.take(i as int)));
        }
    }
    proof {
        assert(bytes@.take(i as int) =~= bytes@);
    }
    out
}

/// A random text of the given length; nothing where the system gives no random
/// bytes. The empty text needs none.
pub fn generate_random_string(len: usize) -> (r: Option<String>)
    ensures
        r matches Some(s) ==> s@.len() == len && exists|bytes: Seq<u8>|
            bytes.len() == len && s@ == #[trigger] state_text(bytes),
        len == 0 ==> r is Some,
{
    if len == 0 {
        let none: [u8; 0] = [];
        return Some(state_from_bytes(&none));
    }
    let mut buf: Vec<u8> = Vec::new();
    buf.resize(len, 0u8);
    if fill_random(&mut buf) {
        Some(state_from_bytes(&buf))
    } else {
        None
    }
}

pub open spec fn upper_hex_digit(n: int) -> char {
    if n < 10 {
        ((48 + n) as u8) as char
    } else {
        ((55 + n) as u8) as char
    }
}

/// Bytes as URL text: ASCII letters and digits as they are, and for each other
/// byte a percent sign and two hexadecimal digits.
pub open spec fn percent_text(bytes: Seq<u8>) -> Seq<char>
    decreases bytes.len(),
{
    if bytes.len() == 0 {
        Seq::empty()
    } else {
        let b = bytes.last();
        percent_text(bytes.drop_last()) + if alnum_ascii(b as char) {
            seq![b as char]
        } else {
            seq!['%', upper_hex_digit(b as int / 16), upper_hex_digit(b as int % 16)]
        }
    }
}

/// `percent_encoding::utf8_percent_encode` with `NON_ALPHANUMERIC`: each byte of
/// the text's UTF-8 encoding that is not an ASCII letter or digit stands as a
/// percent sign and two upper-case hexadecimal digits.
#[verifier::external_body]
fn percent_encode(value: &str) -> (r: String)
    ensures
        r@ == percent_text(encode_utf8(value@)),
{
    percent_encoding::utf8_percent_encode(value, percent_encoding::NON_ALPHANUMERIC).to_string()
}

/// The value of a hexadecimal digit, of either case.
pub open spec fn hex_value(b: u8) -> Option<int> {
    if 48 <= b <= 57 {
        Some(b - 48)
    } else if 65 <= b <= 70 {
        Some(b - 55)
    } else if 97 <= b <= 102 {
        Some(b - 87)
    } else {
        None
    }
}

/// Whether an escaped byte begins: a percent sign and two hexadecimal digits.
pub open spec fn escape_begins(b: Seq<u8>) -> bool {
    b.len() >= 3 && b[0] == 37 && hex_value(b[1]) is Some && hex_value(b[2]) is Some
}

/// Bytes with every escaped byte read.
pub open spec fn unescaped(b: Seq<u8>) -> Seq<u8>
    decreases b.len(),
{
    if b.len() == 0 {
        b
    } else if escape_begins(b) {
        seq![(16 * hex_value(b[1])->0 + hex_value(b[2])->0) as u8] + unescaped(b.skip(3))
    } else {
        seq![b[0]] + unescaped(b.skip(1))
    }
}

pub open spec fn percent_decoded(value: Seq<char>) -> Option<Seq<char>> {
    let bytes = unescaped(encode_utf8(value));
    if valid_utf8(bytes) {
        Some(decode_utf8(bytes))
    } else {
        None
    }
}

/// `percent_encoding::percent_decode_str` and `decode_utf8`: the text with every
/// escaped byte read, or nothing where that is not UTF-8.
#[verifier::external_body]
fn percent_decode(value: &str) -> (r: Option<String>)
    ensures
        opt_text(r) == percent_decoded(value@),
{
    percent_encoding::percent_decode_str(value).decode_utf8().ok().map(|text| text.into_owned())
}

/// Where the browser is sent back to.
pub fn redirect_uri(port: u16) -> (r: String)
    ensures
        r@ == "http://127.0.0.1:"@ + decimal(port as nat) + "/callback"@,
{
    let n = decimal_text(port as u64);
    concat3("http://127.0.0.1:", n.as_str(), "/callback")
}

/// The page on which a person links the device.
pub fn connect_url(web_base_url: &str, redirect_uri: &str, state: &str) -> (r: String)
    ensures
        r@ == server_url(web_base_url@, "/connect-device?redirect_uri="@) + percent_text(
            encode_utf8(redirect_uri@),
        ) + "&state="@ + state@,
{
    let a = service_url(web_base_url, "/connect-device?redirect_uri=");
    let escaped = percent_encode(redirect_uri);
    let b = concat3(a.as_str(), escaped.as_str(), "&state=");
    concat2(b.as_str(), state)
}

/// What a callback's parameters hold.
pub struct CallbackParams {
    pub code: Option<Seq<char>>,
    pub state: Option<Seq<char>>,
}

/// The last `code` and `state` among parameters; nothing where one of either
/// name cannot be decoded.
pub open spec fn callback_params(params: Seq<Seq<char>>) -> Option<CallbackParams>
    decreases params.len(),
{
    if params.len() == 0 {
        Some(CallbackParams { code: None, state: None })
    } else {
        match (callback_params(params.drop_last()), split_first(params.last(), "="@)) {
            (None, _) => None,
            (Some(p), None) => Some(p),
            (Some(p), Some((key, value))) => if key == "code"@ {
                match percent_decoded(value) {
                    Some(code) => Some(CallbackParams { code: Some(code), ..p }),
                    None => None,
                }
            } else if key == "state"@ {
                match percent_decoded(value) {
                    Some(state) => Some(CallbackParams { state: Some(state), ..p }),
                    None => None,
                }
            } else {
                Some(p)
            },
        }
    }
}

/// The parameters of a URL.
pub open spec fn query_params(url: Seq<char>) -> Seq<Seq<char>> {
    match split_first(url, "?"@) {
        Some((_, query)) => split_on(query, '&'),
        None => Seq::empty(),
    }
}

/// What a request on the callback's port brings.
#[derive(Debug, Clone, PartialEq, Eq)]
pub enum Callback {
    /// The code, with the state that was sent out.
    Code(String),
    /// Something else: wait on.
    Waiting,
    /// A parameter that cannot be decoded.
    Undecodable,
}

/// Reads a request's URL. A code counts only together with the expected state.
pub fn read_callback(url: &str, expected_state: &str) -> (r: Callback)
    ensures
        match callback_params(query_params(url@)) {
            None => r == Callback::Undecodable,
            Some(p) => match p.code {
                Some(code) => if p.state == Some(expected_state@) {
                    r matches Callback::Code(c) && c@ == code
                } else {
                    r == Callback::Waiting
                },
                None => r == Callback::Waiting,
            },
        },
{
    let params = match split_once(url, "?") {
        Some((_, query)) => split_char(query.as_str(), '&'),
        None => Vec::new(),
    };
    let ghost all = query_params(url@);
    proof {
        assert(texts(params@) =~= all);
    }
    let mut code: Option<String> = None;
    let mut state: Option<String> = None;
    let mut i: usize = 0;
    proof {
        assert(all.take(0) =~= Seq::empty());
    }
    while i < params.len()
        invariant
            all == query_params(url@),
            all == texts(params@),
            i <= params.len(),
            callback_params(all.take(i as int)) == Some(
                CallbackParams { code: opt_text(code), state: opt_text(state) },
            ),
        decreases params.len() - i,
    {
        proof {
            assert(all.take(i + 1).drop_last() =~= all.take(i as int));
            assert(all.take(i + 1).last() == params@[i as int]@);
        }
        match split_once(params[i].as_str(), "=") {
            Some((key, value)) => {
                let is_code = same_text(key.as_str(), "code");
                if is_code || same_text(key.as_str(), "state") {
                    match percent_decode(value.as_str()) {
                        Some(v) => {
                            if is_code {
                                code = Some(v);
                            } else {
                                state = Some(v);
                            }
                        },
                        None => {
                            proof {
                                lemma_undecodable_stays(all, i + 1);
                            }
                            return Callback::Undecodable;
                        },
                    }
                }
            },
            None => {},
        }
        i = i + 1;
    }
    proof {
        assert(all.take(i as int) =~= all);
    }
    match (code, state) {
        (Some(code), Some(state)) => if same_text(state.as_str(), expected_state) {
            Callback::Code(code)
        } else {
            Callback::Waiting
        },
        _ => Callback::Waiting,
    }
}

proof fn lemma_undecodable_stays(params: Seq<Seq<char>>, n: int)
    requires
        0 <= n <= params.len(),
        callback_params(params.take(n)) is None,
    ensures
        callback_params(params) is None,
    decreases params.len() - n,
{
    if n == params.len() {
        assert(params.take(n) =~= params);
    } else {
        assert(params.take(n + 1).drop_last() =~= params.take(n));
        lemma_undecodable_stays(params, n + 1);
    }
}

} // verus!
