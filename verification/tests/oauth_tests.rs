use memobreeze::json::JsonValue;
use memobreeze::model::Stamp;
use memobreeze::oauth::{
    authorization_code_form, build_pkce_code_challenge, build_pkce_code_verifier,
    google_auth_url, google_docs_batch_update_url, google_docs_insert_body, google_docs_insert_request,
    google_doc_line, google_failure_message, google_oauth_client_id,
    google_oauth_client_secret, new_oauth_state, oauth_callback_url, oauth_code_from_pairs,
    parse_oauth_callback, plan_access_token, redirect_uri, refresh_token_form, refreshed_token,
    token_from_exchange, AccessStep,
};
use memobreeze::storage::GoogleOAuthToken;

fn p(k: &str, v: &str) -> (String, String) {
    (k.to_string(), v.to_string())
}

#[test]
fn client_id_must_be_configured() {
    assert_eq!(google_oauth_client_id(Some("  abc.apps ")).unwrap(), "abc.apps");
    let msg = "GOOGLE_OAUTH_CLIENT_ID is not configured. Set it in your build environment.";
    assert_eq!(google_oauth_client_id(None).unwrap_err(), msg);
    assert_eq!(google_oauth_client_id(Some("   ")).unwrap_err(), msg);
}

#[test]
fn client_secret_is_optional() {
    assert_eq!(google_oauth_client_secret(Some(" s ")), Some("s".to_string()));
    assert_eq!(google_oauth_client_secret(Some("")), None);
    assert_eq!(google_oauth_client_secret(None), None);
}

#[test]
fn pkce_challenge_matches_the_rfc_example() {
    assert_eq!(
        build_pkce_code_challenge("dBjftJeZ4CVP-mB92K27uhbUJU1p1r_wW1gFWFOEjXk"),
        "E9Melhoa2OwvFrEMTJguCHaoeK1t8URWbuGJSstw-cM"
    );
}

#[test]
fn pkce_verifier_and_state_have_their_forms() {
    let v = build_pkce_code_verifier();
    assert_eq!(v.len(), 64);
    assert!(v.chars().all(|c| c.is_ascii_digit() || ('a'..='f').contains(&c)));
    assert_ne!(build_pkce_code_verifier(), v);
    let s = new_oauth_state();
    assert_eq!(s.len(), 36);
    assert_eq!(s.chars().nth(8), Some('-'));
}

#[test]
fn redirect_and_auth_url() {
    let r = redirect_uri(53123);
    assert_eq!(r, "http://127.0.0.1:53123/oauth2callback");
    let url = google_auth_url("cid", &r, "st", "ch").unwrap();
    assert_eq!(
        url,
        "https://accounts.google.com/o/oauth2/v2/auth?client_id=cid&redirect_uri=http%3A%2F%2F127.0.0.1%3A53123%2Foauth2callback&response_type=code&scope=https%3A%2F%2Fwww.googleapis.com%2Fauth%2Fdocuments&access_type=offline&include_granted_scopes=true&prompt=consent&state=st&code_challenge=ch&code_challenge_method=S256"
    );
}

#[test]
fn callback_request_line_gives_the_url() {
    assert_eq!(
        oauth_callback_url("GET /oauth2callback?code=x HTTP/1.1\r\nHost: a").unwrap(),
        "http://localhost/oauth2callback?code=x"
    );
    assert_eq!(oauth_callback_url("").unwrap_err(), "Invalid OAuth callback request");
    assert_eq!(oauth_callback_url("GET\r\n").unwrap_err(), "Invalid OAuth callback path");
}

#[test]
fn callback_code_is_checked_against_the_state() {
    let ok = vec![p("state", "s1"), p("code", "c1"), p("code", "c2")];
    assert_eq!(oauth_code_from_pairs(&ok, "s1").unwrap(), "c1");
    assert_eq!(oauth_code_from_pairs(&ok, "other").unwrap_err(), "OAuth state validation failed");
    assert_eq!(
        oauth_code_from_pairs(&vec![p("state", "s1")], "s1").unwrap_err(),
        "OAuth authorization code is missing"
    );
    assert_eq!(oauth_code_from_pairs(&vec![p("code", "c")], "s1").unwrap_err(), "OAuth state is missing");
}

#[test]
fn callback_parsing_decodes_the_query() {
    let req = "GET /oauth2callback?state=a%20b&code=4%2F0Ab HTTP/1.1\r\n\r\n";
    assert_eq!(parse_oauth_callback(req, "a b").unwrap(), "4/0Ab");
    assert_eq!(parse_oauth_callback(req, "a+b").unwrap_err(), "OAuth state validation failed");
}

#[test]
fn token_forms_add_the_secret_last() {
    let f = authorization_code_form("cid", "uri", "code", "ver", Some("sec"));
    assert_eq!(
        f,
        vec![
            p("grant_type", "authorization_code"),
            p("client_id", "cid"),
            p("redirect_uri", "uri"),
            p("code", "code"),
            p("code_verifier", "ver"),
            p("client_secret", "sec"),
        ]
    );
    let r = refresh_token_form("cid", "rt", None);
    assert_eq!(r, vec![p("grant_type", "refresh_token"), p("client_id", "cid"), p("refresh_token", "rt")]);
}

#[test]
fn tokens_expire_a_minute_early() {
    let t = token_from_exchange("at".to_string(), 3600, Some("rt".to_string()), 1000).unwrap();
    assert_eq!((t.access_token.as_str(), t.refresh_token.as_str(), t.expires_at), ("at", "rt", 4540));
    assert_eq!(
        token_from_exchange("at".to_string(), 3600, None, 1000).unwrap_err(),
        "Google refresh token was not returned"
    );
    let r = refreshed_token(&t, "new".to_string(), 100, 5000);
    assert_eq!((r.access_token.as_str(), r.refresh_token.as_str(), r.expires_at), ("new", "rt", 5040));
}

#[test]
fn stored_tokens_are_used_until_they_expire() {
    let t = GoogleOAuthToken { access_token: "a".to_string(), refresh_token: "r".to_string(), expires_at: 100 };
    assert!(matches!(plan_access_token(&Some(t.clone()), 99), Ok(AccessStep::Use(ref a)) if a == "a"));
    assert!(matches!(plan_access_token(&Some(t), 100), Ok(AccessStep::Refresh(ref r)) if r.refresh_token == "r"));
    assert_eq!(plan_access_token(&None, 0).unwrap_err(), "Google account is not connected");
}

#[test]
fn google_docs_messages_and_requests() {
    let st = |m: u32, s: u32| Stamp { bits: 0, minutes: m, seconds: s };
    assert_eq!(google_doc_line(&st(0, 5), &st(1, 2), "Alice", "hi"), "[00:05 - 01:02] Alice: hi\n");
    assert_eq!(
        google_docs_batch_update_url("doc1"),
        "https://docs.googleapis.com/v1/documents/doc1:batchUpdate"
    );
    assert_eq!(
        google_failure_message("token refresh", "400 Bad Request", "nope"),
        "Google token refresh failed (400 Bad Request): nope"
    );
    let body = google_docs_insert_request("line\n");
    assert!(matches!(body, JsonValue::Object(_)));
    assert_eq!(
        google_docs_insert_body("line\n"),
        "{\"requests\":[{\"insertText\":{\"endOfSegmentLocation\":{},\"text\":\"line\\n\"}}]}"
    );
}
