use statsai::auth::{
    auth_base_dir, auth_path_for_api_base_url, auth_record_for_backend, cloudflare_api_url,
    cloudflare_web_url, connect_url, default_device_name, exchange_refusal, exchanged_credentials,
    generate_random_string, has_cloudflare_session, hydrate_credentials,
    keyring_username_for_token, legacy_auth_path, login_label, normalize_url, read_callback,
    read_token_reply, redact_credentials, redirect_uri, refresh_refusal, refreshed_credentials,
    sanitize_backend_key, state_from_bytes, status_lines, token_step, AuthCredentials, Callback,
    ReplyError, TokenStep,
};

fn session() -> AuthCredentials {
    AuthCredentials {
        backend: Some("cloudflare".to_string()),
        api_base_url: Some("http://127.0.0.1:8787".to_string()),
        cloudflare_refresh_token: Some("refresh-token".to_string()),
        cloudflare_refresh_expires_at_secs: 0,
        cloudflare_access_token: Some("access-token".to_string()),
        cloudflare_access_expires_at_secs: 123,
        device_id: Some("device-1".to_string()),
    }
}

fn removed_flow() -> AuthCredentials {
    AuthCredentials {
        backend: Some("legacy".to_string()),
        api_base_url: None,
        cloudflare_refresh_token: None,
        cloudflare_refresh_expires_at_secs: 0,
        cloudflare_access_token: None,
        cloudflare_access_expires_at_secs: 0,
        device_id: None,
    }
}

#[test]
fn stored_session_requires_cloudflare_refresh_token() {
    assert!(!has_cloudflare_session(&AuthCredentials {
        backend: Some("legacy".to_string()),
        api_base_url: None,
        cloudflare_refresh_token: None,
        cloudflare_refresh_expires_at_secs: 0,
        cloudflare_access_token: None,
        cloudflare_access_expires_at_secs: 0,
        device_id: None,
    }));
    assert!(has_cloudflare_session(&AuthCredentials {
        backend: Some("cloudflare".to_string()),
        api_base_url: Some("http://127.0.0.1:8787".to_string()),
        cloudflare_refresh_token: Some("refresh-token".to_string()),
        cloudflare_refresh_expires_at_secs: 0,
        cloudflare_access_token: None,
        cloudflare_access_expires_at_secs: 0,
        device_id: Some("device-1".to_string()),
    }));
}

#[test]
fn auth_path_is_scoped_by_api_url() {
    let dir = "/data";
    let local = auth_path_for_api_base_url(dir, "http://127.0.0.1:8787");
    let hosted = auth_path_for_api_base_url(dir, "https://api.example.com");

    assert_ne!(local, hosted);
    assert!(local.ends_with("/auth-http___127_0_0_1_8787.json"));
    assert!(hosted.ends_with("/auth-https___api_example_com.json"));
}

#[test]
fn legacy_local_cloudflare_session_migrates_to_backend_scoped_path() {
    let dir = "/data";
    let record = auth_record_for_backend(dir, "http://127.0.0.1:8787", None, Some(session()));
    let Some(record) = record else {
        panic!("expected migrated auth record");
    };

    assert_eq!(
        record.path,
        auth_path_for_api_base_url(dir, "http://127.0.0.1:8787")
    );
    assert!(record.migrated);
    assert_eq!(record.credentials.device_id.as_deref(), Some("device-1"));
    let redacted = redact_credentials(&record.credentials);
    assert_eq!(redacted.cloudflare_refresh_token, None);
    assert_eq!(redacted.cloudflare_access_token, None);
    assert_eq!(redacted.device_id.as_deref(), Some("device-1"));
    let whole = hydrate_credentials(
        redacted,
        Some("refresh-token".to_string()),
        Some("access-token".to_string()),
    );
    assert_eq!(whole, session());
    let kept = hydrate_credentials(session(), Some("other".to_string()), None);
    assert_eq!(kept, session());
}

#[test]
fn local_session_does_not_bleed_into_other_backend() {
    let record = auth_record_for_backend(
        "/data",
        "https://api.example.com",
        None,
        Some(session()),
    );
    assert!(record.is_none());
}

#[test]
fn a_servers_own_file_comes_first() {
    let mut own = session();
    own.device_id = Some("device-2".to_string());
    let record =
        auth_record_for_backend("/data", " http://127.0.0.1:8787/ ", Some(own), Some(session()))
            .unwrap();
    assert_eq!(record.credentials.device_id.as_deref(), Some("device-2"));
    assert!(!record.migrated);
    assert_eq!(auth_record_for_backend("/data", "", None, None), None);
}

#[test]
fn credentials_of_a_removed_flow_are_found_for_the_default_server_only() {
    let record = auth_record_for_backend("/data", "", None, Some(removed_flow())).unwrap();
    assert_eq!(record.path, legacy_auth_path("/data"));
    assert!(!record.migrated);
    assert_eq!(
        auth_record_for_backend("/data", "https://api.example.com", None, Some(removed_flow())),
        None
    );
}

#[test]
fn addresses_and_names_are_normalized() {
    assert_eq!(normalize_url("  https://a.example// ", "d"), "https://a.example");
    assert_eq!(normalize_url(" / ", "d"), "d");
    assert_eq!(cloudflare_api_url(None), "http://127.0.0.1:8787");
    assert_eq!(cloudflare_api_url(Some("https://a.example/")), "https://a.example");
    assert_eq!(cloudflare_web_url(Some(" ")), "http://127.0.0.1:3000");
    assert_eq!(sanitize_backend_key("HTTPS://é.X"), "https_____x");
    assert_eq!(sanitize_backend_key(""), "default");
    assert_eq!(
        keyring_username_for_token("http://127.0.0.1:8787", "refresh"),
        "cf-refresh-http___127_0_0_1_8787"
    );
    assert_eq!(auth_base_dir(Some("/home/me")), "/home/me/.statsai");
    assert_eq!(auth_base_dir(None), "./.statsai");
    assert_eq!(default_device_name(None, Some("pc"), "linux"), "pc (linux)");
    assert_eq!(default_device_name(Some("h"), Some("pc"), "linux"), "h (linux)");
    assert_eq!(default_device_name(None, None, "macos"), "device (macos)");
    assert_eq!(login_label(&removed_flow()), "Cloudflare device");
    assert_eq!(login_label(&session()), "device-1");
}

#[test]
fn access_tokens_are_used_until_shortly_before_they_expire() {
    let mut c = session();
    c.cloudflare_access_expires_at_secs = 1301;
    assert_eq!(
        token_step(Some(&c), "http://a/", 1000),
        TokenStep::Use("access-token".to_string())
    );
    assert_eq!(
        token_step(Some(&c), "http://a/", 1001),
        TokenStep::Refresh {
            url: "http://a/api/devices/token".to_string(),
            refresh_token: "refresh-token".to_string()
        }
    );
    c.cloudflare_access_token = Some(" ".to_string());
    assert!(matches!(token_step(Some(&c), "http://a", 0), TokenStep::Refresh { .. }));
    assert_eq!(token_step(Some(&removed_flow()), "http://a", 0), TokenStep::RemovedFlow);
    assert_eq!(token_step(None, "http://a", 0), TokenStep::NotLoggedIn);
}

#[test]
fn replies_are_read_field_by_field() {
    let body = r#"{"accessToken":"a","accessExpiresAt":9,"refreshToken":"r","deviceId":"d"}"#;
    let c = exchanged_credentials("http://a", read_token_reply(body)).unwrap();
    assert_eq!(c.cloudflare_access_token.as_deref(), Some("a"));
    assert_eq!(c.cloudflare_access_expires_at_secs, 9);
    assert_eq!(c.cloudflare_refresh_token.as_deref(), Some("r"));
    assert_eq!(c.cloudflare_refresh_expires_at_secs, 0);
    assert_eq!(c.device_id.as_deref(), Some("d"));
    assert_eq!(c.backend.as_deref(), Some("cloudflare"));

    let body = r#"{"accessToken":"a2","accessExpiresAt":10,"refreshToken":"r2","refreshExpiresAt":11}"#;
    let c = refreshed_credentials(session(), "http://a", read_token_reply(body)).unwrap();
    assert_eq!(c.cloudflare_access_token.as_deref(), Some("a2"));
    assert_eq!(c.cloudflare_refresh_expires_at_secs, 11);
    assert_eq!(c.device_id.as_deref(), Some("device-1"));
    assert_eq!(c.api_base_url.as_deref(), Some("http://a"));
}

#[test]
fn incomplete_replies_are_refused() {
    let refreshed = |body: &str| refreshed_credentials(session(), "u", read_token_reply(body));
    assert_eq!(refreshed("nope"), Err(ReplyError::NotJson));
    assert_eq!(refreshed("{}"), Err(ReplyError::MissingAccessToken));
    assert_eq!(
        refreshed(r#"{"accessToken":"a","accessExpiresAt":"x"}"#),
        Err(ReplyError::MissingAccessExpiry)
    );
    assert_eq!(
        refreshed(r#"{"accessToken":"a","accessExpiresAt":1}"#),
        Err(ReplyError::MissingRefreshToken)
    );
    let exchanged = |body: &str| exchanged_credentials("u", read_token_reply(body));
    assert_eq!(exchanged("{}"), Err(ReplyError::MissingRefreshToken));
    assert_eq!(
        exchanged(r#"{"refreshToken":"r"}"#),
        Err(ReplyError::MissingAccessToken)
    );
    assert_eq!(
        exchanged(r#"{"refreshToken":"r","accessToken":"a"}"#),
        Err(ReplyError::MissingAccessExpiry)
    );
    assert_eq!(
        exchanged(r#"{"refreshToken":"r","accessToken":"a","accessExpiresAt":1}"#),
        Err(ReplyError::MissingDevice)
    );
    assert_eq!(
        ReplyError::MissingDevice.text("device exchange"),
        "Missing deviceId from device exchange"
    );
}

#[test]
fn refusals_end_the_session_only_where_the_server_says_so() {
    assert!(refresh_refusal(401, "").session_over);
    assert!(refresh_refusal(400, "").session_over);
    let other = refresh_refusal(503, "busy");
    assert!(!other.session_over);
    assert_eq!(other.message, "Cloudflare token refresh failed (HTTP 503): busy");
    assert_eq!(
        exchange_refusal(500, "no"),
        "Cloudflare device exchange failed (HTTP 500): no"
    );
}

#[test]
fn the_status_tells_how_long_the_token_holds() {
    let mut c = session();
    c.cloudflare_access_expires_at_secs = 1000 + 179;
    assert_eq!(
        status_lines("http://a", Some(&c), 1000),
        vec![
            "Status: Logged in",
            "Mode:   Cloudflare + Better Auth device token",
            "API:    http://127.0.0.1:8787",
            "Device: device-1",
            "Expiry: Access token expires in 2 minutes",
        ]
    );
    assert_eq!(
        status_lines("http://a", Some(&c), 1179)[4],
        "Expiry: Access token expired, will refresh on next sync"
    );
    assert_eq!(
        status_lines("http://a", None, 0),
        vec!["Status: Not logged in", "API:    http://a"]
    );
    assert_eq!(status_lines("http://a", Some(&removed_flow()), 0).len(), 3);
}

#[test]
fn states_are_made_of_url_safe_characters() {
    assert_eq!(state_from_bytes(&[0, 25, 26, 61, 65, 66, 255]), "AZa9~A5");
    assert_eq!(generate_random_string(0), Some(String::new()));
    let a = generate_random_string(32).unwrap();
    let b = generate_random_string(32).unwrap();
    assert_eq!(a.len(), 32);
    assert_ne!(a, b);
    assert!(a.chars().all(|c| c.is_ascii_alphanumeric() || "-._~".contains(c)));
}

#[test]
fn the_browser_is_sent_to_the_web_server_and_back() {
    assert_eq!(redirect_uri(4455), "http://127.0.0.1:4455/callback");
    assert_eq!(
        connect_url("https://web.example/", &redirect_uri(4455), "s~1"),
        "https://web.example/connect-device?redirect_uri=http%3A%2F%2F127%2E0%2E0%2E1%3A4455%2Fcallback&state=s~1"
    );
}

#[test]
fn callbacks_count_only_with_the_expected_state() {
    assert_eq!(
        read_callback("/callback?code=a%2Fb&state=x%20y", "x y"),
        Callback::Code("a/b".to_string())
    );
    assert_eq!(
        read_callback("/callback?state=x&code=1&code=2", "x"),
        Callback::Code("2".to_string())
    );
    assert_eq!(read_callback("/callback?code=a&state=y", "x"), Callback::Waiting);
    assert_eq!(read_callback("/callback?code=a", "x"), Callback::Waiting);
    assert_eq!(read_callback("/favicon.ico", "x"), Callback::Waiting);
    assert_eq!(
        read_callback("/callback?code=%FF&state=x", "x"),
        Callback::Undecodable
    );
    assert_eq!(
        read_callback("/callback?other=%FF&code=100%&state=x", "x"),
        Callback::Code("100%".to_string())
    );
}
