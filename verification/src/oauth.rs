//! Signing in to Google and appending to a Google document: the configured
//! client, the PKCE pair, the authorisation URL, reading the redirect that
//! carries the authorisation code, the token requests, and when a stored
//! token can be used.
use vstd::prelude::*;

use crate::json::JsonValue;
use crate::model::{clock_text, format_timestamp, Stamp};
use crate::storage::{GoogleOAuthToken, TokenView};
use crate::text::{
    is_lower_hex, chars_of, decimal, decimal_chars, extend_chars, extend_str, lines, lines_of, string_lit,
    string_of, trim, words, words_of,
};
use vstd::utf8::encode_utf8;

verus! {

// ---------------------------------------------------------------------------
// The configured client
// ---------------------------------------------------------------------------
/// The trimmed text of an optional configured value; nothing counts as empty.
pub open spec fn configured_text(c: Option<&str>) -> Seq<char> {
    match c {
        Some(s) => trim(s@),
        None => Seq::empty(),
    }
}

fn configured_string(configured: Option<&str>) -> (out: String)
    ensures
        out@ == configured_text(configured),
{
    match configured {
        Some(s) => crate::text::trim_str(s),
        None => String::new(),
    }
}

/// The OAuth client identifier that the build was configured with, trimmed;
/// an error when it is missing or blank.
pub fn google_oauth_client_id(configured: Option<&str>) -> (out: Result<String, String>)
    ensures
        match out {
            Ok(id) => configured_text(configured).len() > 0 && id@ == configured_text(configured),
            Err(e) => configured_text(configured).len() == 0
                && e@ == "GOOGLE_OAUTH_CLIENT_ID is not configured. Set it in your build environment."@,
        },
{
    let id = configured_string(configured);
    if id.as_str().is_empty() {
        return Err(
            string_lit("GOOGLE_OAUTH_CLIENT_ID is not configured. Set it in your build environment."),
        );
    }
    Ok(id)
}

/// The OAuth client secret that the build was configured with, trimmed;
/// nothing when it is missing or blank.
pub fn google_oauth_client_secret(configured: Option<&str>) -> (out: Option<String>)
    ensures
        match out {
            Some(s) => configured_text(configured).len() > 0 && s@ == configured_text(configured),
            None => configured_text(configured).len() == 0,
        },
{
    let secret = configured_string(configured);
    if secret.as_str().is_empty() {
        None
    } else {
        Some(secret)
    }
}

// ---------------------------------------------------------------------------
// The state of a sign-in and PKCE
// ---------------------------------------------------------------------------
/// A fresh value for the `state` parameter of a sign-in: a random UUID in its
/// hyphenated form.
pub fn new_oauth_state() -> (out: String)
    ensures
        crate::state::random_uuid_text(out@),
{
    crate::state::new_uuid_text()
}

/// Text made of lowercase hexadecimal digits only.
pub open spec fn lower_hex_text(s: Seq<char>) -> bool {
    forall|i: int| 0 <= i < s.len() ==> is_lower_hex(#[trigger] s[i])
}

/// Calls `Uuid::new_v4` and renders it with `simple()`. The value is random; uuid
/// writes it as 32 lowercase hexadecimal digits.
#[verifier::external_body]
fn new_uuid_simple() -> (out: String)
    ensures
        out@.len() == 32,
        lower_hex_text(out@),
{
    uuid::Uuid::new_v4().simple().to_string()
}

/// A fresh PKCE code verifier: two random UUIDs in their simple form, 64
/// lowercase hexadecimal digits.
pub fn build_pkce_code_verifier() -> (out: String)
    ensures
        out@.len() == 64,
        lower_hex_text(out@),
{
    let a = new_uuid_simple();
    let b = new_uuid_simple();
    let mut cs = chars_of(a.as_str());
    extend_str(&mut cs, b.as_str());
    assert(lower_hex_text(cs@)) by {
        assert forall|i: int| 0 <= i < cs@.len() implies is_lower_hex(#[trigger] cs@[i]) by {
            if i < 32 {
                assert(cs@[i] == a@[i]);
            } else {
                assert(cs@[i] == b@[i - 32]);
            }
        }
    }
    string_of(&cs)
}

/// The SHA-256 digest of a byte string.
pub uninterp spec fn sha256_digest(bytes: Seq<u8>) -> Seq<u8>;

/// Calls `Sha256::digest`; the result is named `sha256_digest`, and a SHA-256
/// digest has 32 bytes.
#[verifier::external_body]
fn sha256(bytes: &[u8]) -> (out: Vec<u8>)
    ensures
        out@ == sha256_digest(bytes@),
        out@.len() == 32,
{
    <sha2::Sha256 as sha2::Digest>::digest(bytes).to_vec()
}

/// The character of a 6-bit value in the URL-safe base64 alphabet.
pub open spec fn b64_char(v: int) -> char {
    if v < 26 {
        (65 + v) as char
    } else if v < 52 {
        (97 + v - 26) as char
    } else if v < 62 {
        (48 + v - 52) as char
    } else if v == 62 {
        '-'
    } else {
        '_'
    }
}

/// URL-safe base64 without padding: each three bytes give four characters; a
/// last one or two bytes give two or three.
pub open spec fn base64url(b: Seq<u8>) -> Seq<char>
    decreases b.len(),
{
    if b.len() == 0 {
        Seq::empty()
    } else {
        let b0 = b[0] as int;
        let b1 = if b.len() > 1 {
            b[1] as int
        } else {
            0
        };
        let b2 = if b.len() > 2 {
            b[2] as int
        } else {
            0
        };
        if b.len() == 1 {
            seq![b64_char(b0 / 4), b64_char((b0 % 4) * 16)]
        } else if b.len() == 2 {
            seq![b64_char(b0 / 4), b64_char((b0 % 4) * 16 + b1 / 16), b64_char((b1 % 16) * 4)]
        } else {
            seq![
                b64_char(b0 / 4),
                b64_char((b0 % 4) * 16 + b1 / 16),
                b64_char((b1 % 16) * 4 + b2 / 64),
                b64_char(b2 % 64),
            ] + base64url(b.skip(3))
        }
    }
}

/// Unpadded base64 writes `n` bytes as `ceil(4n / 3)` characters; so the
/// challenge of a 32-byte digest has 43.
pub proof fn law_base64url_length(b: Seq<u8>)
    ensures
        base64url(b).len() == (4 * b.len() + 2) / 3,
    decreases b.len(),
{
    if b.len() > 2 {
        law_base64url_length(b.skip(3));
    }
}

/// Calls `URL_SAFE_NO_PAD.encode` of base64, which writes the bytes in the
/// URL-safe alphabet of RFC 4648 without padding.
#[verifier::external_body]
fn base64_url_no_pad(bytes: &[u8]) -> (out: String)
    requires
        bytes@.len() <= 0x1000_0000,
    ensures
        out@ == base64url(bytes@),
{
    <base64::engine::GeneralPurpose as base64::Engine>::encode(
        &base64::engine::general_purpose::URL_SAFE_NO_PAD,
        bytes,
    )
}

/// The S256 PKCE code challenge of a verifier: the URL-safe, unpadded base64
/// of the SHA-256 digest of its UTF-8 bytes.
pub fn build_pkce_code_challenge(code_verifier: &str) -> (out: String)
    ensures
        out@ == base64url(sha256_digest(encode_utf8(code_verifier@))),
{
    let digest = sha256(code_verifier.as_bytes());
    base64_url_no_pad(digest.as_slice())
}

// ---------------------------------------------------------------------------
// The authorisation request
// ---------------------------------------------------------------------------
/// The address that receives the redirect after sign-in.
pub open spec fn redirect_uri_text(port: u16) -> Seq<char> {
    "http://127.0.0.1:"@ + decimal(port as nat) + "/oauth2callback"@
}

/// `http://127.0.0.1:{port}/oauth2callback`.
pub fn redirect_uri(port: u16) -> (out: String)
    ensures
        out@ == redirect_uri_text(port),
{
    let mut cs = chars_of("http://127.0.0.1:");
    let digits = decimal_chars(port as u128);
    extend_chars(&mut cs, &digits);
    extend_str(&mut cs, "/oauth2callback");
    string_of(&cs)
}

/// The views of a list of text pairs.
pub open spec fn pairs_view(p: Seq<(String, String)>) -> Seq<(Seq<char>, Seq<char>)> {
    p.map_values(|x: (String, String)| (x.0@, x.1@))
}

/// The view of a text result.
pub open spec fn text_result(r: Result<String, String>) -> Result<Seq<char>, Seq<char>> {
    match r {
        Ok(s) => Ok(s@),
        Err(e) => Err(e@),
    }
}

/// The URL that the url crate makes of `base` with the pairs appended to its
/// query, form-encoded, or the text of its parse error.
pub uninterp spec fn url_with_pairs(base: Seq<char>, pairs: Seq<(Seq<char>, Seq<char>)>) -> Result<
    Seq<char>,
    Seq<char>,
>;

/// Calls `Url::parse` on `base`, then `append_pair` of `query_pairs_mut` for
/// each pair in order, and gives `as_str`; a parse error is given as its text.
/// The result is named `url_with_pairs`.
#[verifier::external_body]
fn append_query_pairs(base: &str, pairs: &Vec<(String, String)>) -> (out: Result<String, String>)
    ensures
        text_result(out) == url_with_pairs(base@, pairs_view(pairs@)),
{
    let mut url = url::Url::parse(base).map_err(|e| e.to_string())?;
    {
        let mut query = url.query_pairs_mut();
        for (key, value) in pairs.iter() {
            query.append_pair(key, value);
        }
    }
    Ok(url.as_str().to_string())
}

/// Google's authorisation endpoint.
pub open spec fn auth_endpoint() -> Seq<char> {
    "https://accounts.google.com/o/oauth2/v2/auth"@
}

/// The query of the authorisation request: an authorisation code for offline
/// access to Google Docs, with consent asked, the given state, and an S256
/// PKCE challenge.
pub open spec fn auth_pairs(
    client_id: Seq<char>,
    redirect_uri: Seq<char>,
    state: Seq<char>,
    code_challenge: Seq<char>,
) -> Seq<(Seq<char>, Seq<char>)> {
    seq![
        ("client_id"@, client_id),
        ("redirect_uri"@, redirect_uri),
        ("response_type"@, "code"@),
        ("scope"@, "https://www.googleapis.com/auth/documents"@),
        ("access_type"@, "offline"@),
        ("include_granted_scopes"@, "true"@),
        ("prompt"@, "consent"@),
        ("state"@, state),
        ("code_challenge"@, code_challenge),
        ("code_challenge_method"@, "S256"@),
    ]
}

fn push_pair(pairs: &mut Vec<(String, String)>, key: &str, value: &str)
    ensures
        pairs_view(final(pairs)@) == pairs_view(old(pairs)@).push((key@, value@)),
{
    let ghost before = pairs_view(pairs@);
    pairs.push((string_lit(key), string_lit(value)));
    assert(pairs_view(pairs@) =~= before.push((key@, value@)));
}

/// The URL that asks Google for an authorisation code.
pub fn google_auth_url(client_id: &str, redirect_uri: &str, state: &str, code_challenge: &str) -> (out: Result<String, String>)
    ensures
        text_result(out) == url_with_pairs(
            auth_endpoint(),
            auth_pairs(client_id@, redirect_uri@, state@, code_challenge@),
        ),
{
    let mut pairs: Vec<(String, String)> = Vec::new();
    push_pair(&mut pairs, "client_id", client_id);
    push_pair(&mut pairs, "redirect_uri", redirect_uri);
    push_pair(&mut pairs, "response_type", "code");
    push_pair(&mut pairs, "scope", "https://www.googleapis.com/auth/documents");
    push_pair(&mut pairs, "access_type", "offline");
    push_pair(&mut pairs, "include_granted_scopes", "true");
    push_pair(&mut pairs, "prompt", "consent");
    push_pair(&mut pairs, "state", state);
    push_pair(&mut pairs, "code_challenge", code_challenge);
    push_pair(&mut pairs, "code_challenge_method", "S256");
    assert(pairs_view(pairs@) =~= auth_pairs(client_id@, redirect_uri@, state@, code_challenge@));
    append_query_pairs("https://accounts.google.com/o/oauth2/v2/auth", &pairs)
}

// ---------------------------------------------------------------------------
// The redirect that carries the authorisation code
// ---------------------------------------------------------------------------
/// The URL named by the request line of the redirect: `http://localhost`
/// followed by the request target, the second word of the first line.
pub open spec fn callback_url(request: Seq<char>) -> Result<Seq<char>, Seq<char>> {
    let ls = lines(request);
    if ls.len() == 0 {
        Err("Invalid OAuth callback request"@)
    } else {
        let ws = words(ls[0]);
        if ws.len() < 2 {
            Err("Invalid OAuth callback path"@)
        } else {
            Ok("http://localhost"@ + ws[1])
        }
    }
}

/// The value of the first pair with the given key.
pub open spec fn first_value(pairs: Seq<(Seq<char>, Seq<char>)>, key: Seq<char>) -> Option<Seq<char>>
    decreases pairs.len(),
{
    if pairs.len() == 0 {
        None
    } else if pairs[0].0 == key {
        Some(pairs[0].1)
    } else {
        first_value(pairs.drop_first(), key)
    }
}

/// The authorisation code of a redirect's query, once its state matches the
/// one that was sent.
pub open spec fn code_from_pairs(pairs: Seq<(Seq<char>, Seq<char>)>, expected_state: Seq<char>) -> Result<
    Seq<char>,
    Seq<char>,
> {
    match first_value(pairs, "code"@) {
        None => Err("OAuth authorization code is missing"@),
        Some(code) => match first_value(pairs, "state"@) {
            None => Err("OAuth state is missing"@),
            Some(state) => if state == expected_state {
                Ok(code)
            } else {
                Err("OAuth state validation failed"@)
            },
        },
    }
}

/// A redirect gives an authorisation code only when it carries the state that
/// was sent, and the code is the first one it carries.
pub proof fn law_code_needs_matching_state(pairs: Seq<(Seq<char>, Seq<char>)>, expected_state: Seq<char>)
    ensures
        code_from_pairs(pairs, expected_state) matches Ok(code) ==> {
            &&& first_value(pairs, "state"@) == Some(expected_state)
            &&& first_value(pairs, "code"@) == Some(code)
        },
{
}

/// The decoded query pairs of a URL as the url crate reads it, or the text of
/// its parse error.
pub uninterp spec fn url_query(url: Seq<char>) -> Result<Seq<(Seq<char>, Seq<char>)>, Seq<char>>;

/// The view of a result holding text pairs.
pub open spec fn pairs_result(r: Result<Vec<(String, String)>, String>) -> Result<Seq<(Seq<char>, Seq<char>)>, Seq<char>> {
    match r {
        Ok(p) => Ok(pairs_view(p@)),
        Err(e) => Err(e@),
    }
}

/// Calls `Url::parse` and collects `query_pairs`, each decoded into owned
/// text; a parse error is given as its text. The result is named `url_query`.
#[verifier::external_body]
fn url_query_pairs(url_text: &str) -> (out: Result<Vec<(String, String)>, String>)
    ensures
        pairs_result(out) == url_query(url_text@),
{
    match url::Url::parse(url_text) {
        Ok(url) => Ok(url.query_pairs().map(|(k, v)| (k.into_owned(), v.into_owned())).collect()),
        Err(e) => Err(e.to_string()),
    }
}

/// The URL that a redirect's request line names, or why it names none.
pub fn oauth_callback_url(request: &str) -> (out: Result<String, String>)
    ensures
        text_result(out) == callback_url(request@),
{
    let cs = chars_of(request);
    let ls = lines_of(&cs);
    if ls.len() == 0 {
        return Err(string_lit("Invalid OAuth callback request"));
    }
    let ws = words_of(&ls[0]);
    assert(ls.deep_view()[0] == ls@[0]@);
    if ws.len() < 2 {
        return Err(string_lit("Invalid OAuth callback path"));
    }
    let mut url = chars_of("http://localhost");
    extend_chars(&mut url, &ws[1]);
    assert(ws.deep_view()[1] == ws@[1]@);
    Ok(string_of(&url))
}

fn find_value(pairs: &Vec<(String, String)>, key: &str) -> (out: Option<String>)
    ensures
        match out {
            Some(v) => first_value(pairs_view(pairs@), key@) == Some(v@),
            None => first_value(pairs_view(pairs@), key@).is_none(),
        },
{
    let ghost pv = pairs_view(pairs@);
    let wanted = string_lit(key);
    let mut i: usize = 0;
    assert(pv.skip(0) =~= pv);
    while i < pairs.len()
        invariant
            i <= pairs@.len(),
            pv == pairs_view(pairs@),
            wanted@ == key@,
            first_value(pv, key@) == first_value(pv.skip(i as int), key@),
        decreases pairs.len() - i,
    {
        assert(pv.skip(i as int)[0] == pv[i as int]);
        if pairs[i].0 == wanted {
            return Some(crate::model::copy_str(&pairs[i].1));
        }
        assert(pv.skip(i as int).drop_first() =~= pv.skip(i + 1));
        i += 1;
    }
    None
}

/// The authorisation code of a redirect's decoded query pairs, checked
/// against the state that was sent.
pub fn oauth_code_from_pairs(pairs: &Vec<(String, String)>, expected_state: &str) -> (out: Result<String, String>)
    ensures
        text_result(out) == code_from_pairs(pairs_view(pairs@), expected_state@),
{
    let code = match find_value(pairs, "code") {
        Some(c) => c,
        None => {
            return Err(string_lit("OAuth authorization code is missing"));
        },
    };
    let state = match find_value(pairs, "state") {
        Some(s) => s,
        None => {
            return Err(string_lit("OAuth state is missing"));
        },
    };
    let expected = string_lit(expected_state);
    if state == expected {
        Ok(code)
    } else {
        Err(string_lit("OAuth state validation failed"))
    }
}

/// The authorisation code of the redirect request that the local listener
/// received: its request line names a URL whose query carries the code and
/// the state that was sent.
pub fn parse_oauth_callback(request: &str, expected_state: &str) -> (out: Result<String, String>)
    ensures
        text_result(out) == match callback_url(request@) {
            Err(e) => Err(e),
            Ok(url) => match url_query(url) {
                Err(e) => Err(e),
                Ok(pairs) => code_from_pairs(pairs, expected_state@),
            },
        },
{
    let url = oauth_callback_url(request)?;
    let pairs = url_query_pairs(url.as_str())?;
    oauth_code_from_pairs(&pairs, expected_state)
}

// ---------------------------------------------------------------------------
// Token requests
// ---------------------------------------------------------------------------
/// The view of an optional secret.
pub open spec fn opt_secret(s: Option<&str>) -> Option<Seq<char>> {
    match s {
        Some(x) => Some(x@),
        None => None,
    }
}

/// A form followed by the client secret, where there is one.
pub open spec fn with_secret(form: Seq<(Seq<char>, Seq<char>)>, secret: Option<Seq<char>>) -> Seq<(Seq<char>, Seq<char>)> {
    match secret {
        Some(s) => form.push(("client_secret"@, s)),
        None => form,
    }
}

/// The form that exchanges an authorisation code for tokens.
pub open spec fn code_exchange_form(
    client_id: Seq<char>,
    redirect_uri: Seq<char>,
    code: Seq<char>,
    code_verifier: Seq<char>,
    secret: Option<Seq<char>>,
) -> Seq<(Seq<char>, Seq<char>)> {
    with_secret(
        seq![
            ("grant_type"@, "authorization_code"@),
            ("client_id"@, client_id),
            ("redirect_uri"@, redirect_uri),
            ("code"@, code),
            ("code_verifier"@, code_verifier),
        ],
        secret,
    )
}

/// The form that renews an access token.
pub open spec fn refresh_form(client_id: Seq<char>, refresh_token: Seq<char>, secret: Option<Seq<char>>) -> Seq<(Seq<char>, Seq<char>)> {
    with_secret(
        seq![
            ("grant_type"@, "refresh_token"@),
            ("client_id"@, client_id),
            ("refresh_token"@, refresh_token),
        ],
        secret,
    )
}

/// The form posted to Google's token endpoint to exchange an authorisation code.
pub fn authorization_code_form(
    client_id: &str,
    redirect_uri: &str,
    code: &str,
    code_verifier: &str,
    client_secret: Option<&str>,
) -> (out: Vec<(String, String)>)
    ensures
        pairs_view(out@) == code_exchange_form(
            client_id@,
            redirect_uri@,
            code@,
            code_verifier@,
            opt_secret(client_secret),
        ),
{
    let mut form: Vec<(String, String)> = Vec::new();
    push_pair(&mut form, "grant_type", "authorization_code");
    push_pair(&mut form, "client_id", client_id);
    push_pair(&mut form, "redirect_uri", redirect_uri);
    push_pair(&mut form, "code", code);
    push_pair(&mut form, "code_verifier", code_verifier);
    if let Some(secret) = client_secret {
        push_pair(&mut form, "client_secret", secret);
    }
    form
}

/// The form posted to Google's token endpoint to renew an access token.
pub fn refresh_token_form(client_id: &str, refresh_token: &str, client_secret: Option<&str>) -> (out: Vec<(String, String)>)
    ensures
        pairs_view(out@) == refresh_form(client_id@, refresh_token@, opt_secret(client_secret)),
{
    let mut form: Vec<(String, String)> = Vec::new();
    push_pair(&mut form, "grant_type", "refresh_token");
    push_pair(&mut form, "client_id", client_id);
    push_pair(&mut form, "refresh_token", refresh_token);
    if let Some(secret) = client_secret {
        push_pair(&mut form, "client_secret", secret);
    }
    form
}

/// When a token granted at `now` for `expires_in` seconds is taken as stale:
/// a minute early.
pub open spec fn expiry(now: i64, expires_in: i64) -> int {
    now + expires_in - 60
}

/// The token to keep after an authorisation code was exchanged; an error when
/// Google returned no refresh token.
pub fn token_from_exchange(access_token: String, expires_in: i64, refresh_token: Option<String>, now: i64) -> (out: Result<GoogleOAuthToken, String>)
    requires
        i64::MIN <= now + expires_in <= i64::MAX,
        i64::MIN <= expiry(now, expires_in) <= i64::MAX,
    ensures
        match out {
            Ok(t) => refresh_token matches Some(r) && t@ == (TokenView {
                access_token: access_token@,
                refresh_token: r@,
                expires_at: expiry(now, expires_in) as i64,
            }),
            Err(e) => refresh_token.is_none() && e@ == "Google refresh token was not returned"@,
        },
{
    match refresh_token {
        Some(r) => Ok(
            GoogleOAuthToken { access_token, refresh_token: r, expires_at: now + expires_in - 60 },
        ),
        None => Err(string_lit("Google refresh token was not returned")),
    }
}

/// The token to keep after a renewal: the new access token and expiry, the
/// same refresh token.
pub fn refreshed_token(previous: &GoogleOAuthToken, access_token: String, expires_in: i64, now: i64) -> (out: GoogleOAuthToken)
    requires
        i64::MIN <= now + expires_in <= i64::MAX,
        i64::MIN <= expiry(now, expires_in) <= i64::MAX,
    ensures
        out@ == (TokenView {
            access_token: access_token@,
            refresh_token: previous@.refresh_token,
            expires_at: expiry(now, expires_in) as i64,
        }),
{
    GoogleOAuthToken {
        access_token,
        refresh_token: crate::model::copy_str(&previous.refresh_token),
        expires_at: now + expires_in - 60,
    }
}

/// What to do for an access token: use the stored one, or renew it first.
#[derive(Debug)]
pub enum AccessStep {
    Use(String),
    Refresh(GoogleOAuthToken),
}

/// An access token is used while `now` is before its expiry; a stale one is
/// renewed; without a token the account is not connected.
pub fn plan_access_token(token: &Option<GoogleOAuthToken>, now: i64) -> (out: Result<AccessStep, String>)
    ensures
        match token {
            None => out matches Err(e) && e@ == "Google account is not connected"@,
            Some(t) => if t.expires_at > now {
                out matches Ok(AccessStep::Use(a)) && a@ == t.access_token@
            } else {
                out matches Ok(AccessStep::Refresh(r)) && r@ == t@
            },
        },
{
    match token {
        None => Err(string_lit("Google account is not connected")),
        Some(t) => if t.expires_at > now {
            Ok(AccessStep::Use(crate::model::copy_str(&t.access_token)))
        } else {
            Ok(AccessStep::Refresh(t.copy()))
        },
    }
}

/// The message of a failed request to Google: `Google {action} failed ({status}): {body}`.
pub fn google_failure_message(action: &str, status: &str, body: &str) -> (out: String)
    ensures
        out@ == "Google "@ + action@ + " failed ("@ + status@ + "): "@ + body@,
{
    let mut cs = chars_of("Google ");
    extend_str(&mut cs, action);
    extend_str(&mut cs, " failed (");
    extend_str(&mut cs, status);
    extend_str(&mut cs, "): ");
    extend_str(&mut cs, body);
    string_of(&cs)
}

// ---------------------------------------------------------------------------
// Appending to a Google document
// ---------------------------------------------------------------------------
/// The line appended for one segment: `[start - end] speaker: text` and a newline.
pub open spec fn doc_line(start: Stamp, end: Stamp, speaker: Seq<char>, text: Seq<char>) -> Seq<char> {
    "["@ + clock_text(start) + " - "@ + clock_text(end) + "] "@ + speaker + ": "@ + text + "\n"@
}

/// The line that a transcript segment adds to a Google document.
pub fn google_doc_line(start: &Stamp, end: &Stamp, speaker: &str, text: &str) -> (out: String)
    ensures
        out@ == doc_line(*start, *end, speaker@, text@),
{
    let mut cs = chars_of("[");
    let a = format_timestamp(start);
    extend_str(&mut cs, a.as_str());
    extend_str(&mut cs, " - ");
    let b = format_timestamp(end);
    extend_str(&mut cs, b.as_str());
    extend_str(&mut cs, "] ");
    extend_str(&mut cs, speaker);
    extend_str(&mut cs, ": ");
    extend_str(&mut cs, text);
    extend_str(&mut cs, "\n");
    string_of(&cs)
}

/// The Docs API address that applies a batch of updates to a document.
pub fn google_docs_batch_update_url(document_id: &str) -> (out: String)
    ensures
        out@ == "https://docs.googleapis.com/v1/documents/"@ + document_id@ + ":batchUpdate"@,
{
    let mut cs = chars_of("https://docs.googleapis.com/v1/documents/");
    extend_str(&mut cs, document_id);
    extend_str(&mut cs, ":batchUpdate");
    string_of(&cs)
}

/// A batch update body holding one request, which inserts `text` at the end
/// of the document: `{"requests":[{"insertText":{"endOfSegmentLocation":{},"text":text}}]}`.
pub open spec fn is_insert_text_request(v: JsonValue, text: Seq<char>) -> bool {
    match v {
        JsonValue::Object(top) => top@.len() == 1 && top@[0].0@ == "requests"@ && match top@[0].1 {
            JsonValue::Array(reqs) => reqs@.len() == 1 && match reqs@[0] {
                JsonValue::Object(r) => r@.len() == 1 && r@[0].0@ == "insertText"@ && match r@[0].1 {
                    JsonValue::Object(f) => {
                        &&& f@.len() == 2
                        &&& f@[0].0@ == "endOfSegmentLocation"@
                        &&& f@[0].1 matches JsonValue::Object(e) && e@.len() == 0
                        &&& f@[1].0@ == "text"@
                        &&& f@[1].1 matches JsonValue::Str(t) && t@ == text
                    },
                    _ => false,
                },
                _ => false,
            },
            _ => false,
        },
        _ => false,
    }
}

/// The body of the Docs request that appends a line at the end of a document.
pub fn google_docs_insert_request(text: &str) -> (out: JsonValue)
    ensures
        is_insert_text_request(out, text@),
{
    let mut fields: Vec<(String, JsonValue)> = Vec::new();
    fields.push((string_lit("endOfSegmentLocation"), JsonValue::Object(Vec::new())));
    fields.push((string_lit("text"), JsonValue::Str(string_lit(text))));
    let mut insert: Vec<(String, JsonValue)> = Vec::new();
    insert.push((string_lit("insertText"), JsonValue::Object(fields)));
    let mut requests: Vec<JsonValue> = Vec::new();
    requests.push(JsonValue::Object(insert));
    let mut top: Vec<(String, JsonValue)> = Vec::new();
    top.push((string_lit("requests"), JsonValue::Array(requests)));
    JsonValue::Object(top)
}

/// The JSON text of the Docs request that appends a line at the end of a
/// document, as serde_json writes it.
pub fn google_docs_insert_body(text: &str) -> (out: String)
    ensures
        exists|v: JsonValue| is_insert_text_request(v, text@) && out@ == crate::json::json_text(v),
{
    let request = google_docs_insert_request(text);
    let out = crate::json::render_json(&request);
    assert(is_insert_text_request(request, text@) && out@ == crate::json::json_text(request));
    out
}

} // verus!
