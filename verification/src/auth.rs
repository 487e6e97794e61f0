//! "Sign in with ChatGPT": the PKCE OAuth request, the credential read out
//! of the token, and when that credential needs refreshing.
//!
//! The login reuses the Codex CLI's public OAuth client id, which is what
//! makes the token spend the ChatGPT subscription rather than an API-key
//! balance; the token is only accepted by the ChatGPT backend.

use vstd::prelude::*;
use crate::json::{jget, json_parse_bytes, jstr, parse_json_bytes, Json, JsonV};
use crate::keys::ostr;
use crate::platform::{base64url, base64url_decode, base64url_decoded, base64url_encode, now_unix_ms, random_bytes};
use crate::stream::jget_in;
use crate::text::{chars_of, concat, string_of};

verus! {

broadcast use vstd::string::group_string_axioms;

pub const CLIENT_ID: &'static str = "app_EMoamEEZ73f0CkXaXp7hrann";

pub const AUTHORIZE_URL: &'static str = "https://auth.openai.com/oauth/authorize";

pub const TOKEN_URL: &'static str = "https://auth.openai.com/oauth/token";

/// The port baked into the OAuth client's redirect URI; no other will do.
pub const CALLBACK_PORT: u16 = 1455;

pub const REDIRECT_URI: &'static str = "http://localhost:1455/auth/callback";

pub const SCOPE: &'static str = "openid profile email offline_access";

/// Where the access token's claims keep the ChatGPT account.
pub const JWT_CLAIM_PATH: &'static str = "https://api.openai.com/auth";

/// How long the browser login waits for the redirect.
pub const LOGIN_TIMEOUT_SECS: u64 = 300;

/// Identifies this client to OpenAI in the `originator` parameter.
pub const ORIGINATOR: &'static str = "auth2api";

pub const APP_NAME: &'static str = "Auth2API";

/// Refresh this long before the token expires, so a request that starts
/// just under the wire does not finish with a dead token.
pub const REFRESH_MARGIN_MS: i64 = 120_000;

pub const NO_ACCOUNT: &'static str =
    "the token carries no chatgpt_account_id - this login has no ChatGPT account attached to it";

pub const NOT_SIGNED_IN: &'static str = "not signed in - run `auth2api login` first";

pub const STATE_MISMATCH: &'static str = "OAuth state mismatch - discarding this callback";

/// The stored login.
#[derive(Debug)]
pub struct Credential {
    pub access: String,
    pub refresh: String,
    /// Milliseconds since the epoch.
    pub expires: i64,
    pub account_id: String,
    /// For display only; not every token carries it.
    pub email: Option<String>,
    pub plan: Option<String>,
}

/// The token endpoint's answer.
#[derive(Debug)]
pub struct TokenResponse {
    pub access_token: String,
    pub refresh_token: String,
    pub expires_in: i64,
}

/// The position of the first `.` in `s`, or -1.
pub open spec fn dot_at(s: Seq<char>) -> int
    decreases s.len(),
{
    if s.len() == 0 {
        -1
    } else if s[0] == '.' {
        0
    } else if dot_at(s.drop_first()) < 0 {
        -1
    } else {
        dot_at(s.drop_first()) + 1
    }
}

/// The second `.`-separated part of `s`, as `split('.').nth(1)` gives it.
pub open spec fn second_part(s: Seq<char>) -> Option<Seq<char>> {
    let i = dot_at(s);
    if i < 0 {
        None
    } else {
        let rest = s.skip(i + 1);
        let j = dot_at(rest);
        Some(
            if j < 0 {
                rest
            } else {
                rest.take(j)
            },
        )
    }
}

/// The claims of a JWT: its payload part, base64url-decoded, parsed as JSON.
pub open spec fn claims_v(token: Seq<char>) -> Option<JsonV> {
    match second_part(token) {
        None => None,
        Some(p) => match base64url_decoded(p) {
            None => None,
            Some(bytes) => match json_parse_bytes(bytes) {
                Ok(v) => Some(v),
                Err(_) => None,
            },
        },
    }
}

proof fn lemma_dot_at(s: Seq<char>)
    ensures
        -1 <= dot_at(s) < s.len(),
        dot_at(s) >= 0 ==> s[dot_at(s)] == '.',
        forall|k: int| 0 <= k < s.len() && (dot_at(s) < 0 || k < dot_at(s)) ==> #[trigger] s[k] != '.',
    decreases s.len(),
{
    if s.len() > 0 {
        lemma_dot_at(s.drop_first());
        assert forall|k: int| 0 < k < s.len() implies #[trigger] s[k] == s.drop_first()[k - 1] by {}
    }
}

/// The first `.` in `cs` at or after `from`, or `cs.len()`.
fn next_dot(cs: &Vec<char>, from: usize) -> (r: usize)
    requires
        from <= cs.len(),
    ensures
        from <= r <= cs.len(),
        r < cs.len() ==> cs@[r as int] == '.',
        forall|k: int| from <= k < r ==> #[trigger] cs@[k] != '.',
{
    let mut i = from;
    while i < cs.len() && cs[i] != '.'
        invariant
            from <= i <= cs.len(),
            forall|k: int| from <= k < i ==> #[trigger] cs@[k] != '.',
        decreases cs.len() - i,
    {
        i = i + 1;
    }
    i
}

proof fn lemma_dot_at_is(s: Seq<char>, i: int)
    requires
        0 <= i <= s.len(),
        forall|k: int| 0 <= k < i ==> #[trigger] s[k] != '.',
        i < s.len() ==> s[i] == '.',
    ensures
        dot_at(s) == if i < s.len() { i } else { -1 },
{
    lemma_dot_at(s);
    if dot_at(s) >= 0 && dot_at(s) < i {
        assert(s[dot_at(s)] != '.');
    }
    if i < s.len() && (dot_at(s) < 0 || dot_at(s) > i) {
        assert(s[i] != '.');
    }
}

/// `split('.').nth(1)`: the second part of a dotted text.
pub fn second_part_of(s: &str) -> (r: Option<String>)
    ensures
        ostr(r) == second_part(s@),
{
    let cs = chars_of(s);
    let i = next_dot(&cs, 0);
    proof {
        lemma_dot_at_is(cs@, i as int);
    }
    if i == cs.len() {
        return None;
    }
    let j = next_dot(&cs, i + 1);
    let ghost rest = cs@.skip(i + 1);
    proof {
        assert forall|k: int| 0 <= k < j - (i + 1) implies #[trigger] rest[k] != '.' by {
            assert(rest[k] == cs@[k + i + 1]);
        }
        if j < cs.len() {
            assert(rest[j - (i + 1)] == cs@[j as int]);
        }
        lemma_dot_at_is(rest, j - (i + 1));
    }
    let part = string_of(&cs.as_slice()[i + 1..j]);
    proof {
        if j < cs.len() {
            assert(part@ =~= rest.take(j - (i + 1)));
        } else {
            assert(part@ =~= rest);
        }
    }
    Some(part)
}

/// The claims of an access token, where they can be read.
pub fn claims(access_token: &str) -> (r: Option<Json>)
    ensures
        match r {
            Some(j) => claims_v(access_token@) == Some(j@),
            None => claims_v(access_token@) is None,
        },
{
    let part = match second_part_of(access_token) {
        Some(p) => p,
        None => {
            return None;
        },
    };
    let bytes = match base64url_decode(part.as_str()) {
        Some(b) => b,
        None => {
            return None;
        },
    };
    match parse_json_bytes(bytes.as_slice()) {
        Ok(v) => Some(v),
        Err(_) => None,
    }
}

/// `c` is the credential a token answer gives at the time `now_ms`: the
/// account id is required, the email and plan are taken where present.
pub open spec fn credential_of(c: Credential, token: TokenResponse, now_ms: i64) -> bool {
    let claims = claims_v(token.access_token@);
    let auth = jget_in(claims, JWT_CLAIM_PATH@);
    &&& c.access@ == token.access_token@
    &&& c.refresh@ == token.refresh_token@
    &&& c.expires == now_ms.wrapping_add(token.expires_in.wrapping_mul(1000))
    &&& Some(c.account_id@) == jstr(jget_in(auth, "chatgpt_account_id"@))
    &&& ostr(c.email) == jstr(jget_in(claims, "email"@))
    &&& ostr(c.plan) == jstr(jget_in(auth, "chatgpt_plan_type"@))
}

/// Whether a token answer names a ChatGPT account.
pub open spec fn names_account(token: TokenResponse) -> bool {
    jstr(jget_in(jget_in(claims_v(token.access_token@), JWT_CLAIM_PATH@), "chatgpt_account_id"@)) is Some
}

fn string_at(v: Option<&Json>) -> (r: Option<String>)
    ensures
        ostr(r) == jstr(crate::json::opt_jv(v)),
{
    match v {
        Some(j) => match j.as_str() {
            Some(s) => Some(s.to_string()),
            None => None,
        },
        None => None,
    }
}

fn get_in<'a>(v: Option<&'a Json>, key: &str) -> (r: Option<&'a Json>)
    ensures
        crate::json::opt_jv(r) == jget_in(crate::json::opt_jv(v), key@),
{
    match v {
        Some(j) => j.get(key),
        None => None,
    }
}

/// The credential a token answer gives at the time `now_ms`. A token from
/// which no ChatGPT account can be read is refused now rather than at
/// request time, since every upstream request must name the account.
pub fn credential_at(token: TokenResponse, now_ms: i64) -> (r: Result<Credential, String>)
    ensures
        names_account(token) ==> (r matches Ok(c) && credential_of(c, token, now_ms)),
        !names_account(token) ==> (r matches Err(e) && e@ == NO_ACCOUNT@),
{
    let claims = claims(token.access_token.as_str());
    let root = match &claims {
        Some(c) => Some(c),
        None => None,
    };
    let auth = get_in(root, JWT_CLAIM_PATH);
    let account_id = match string_at(get_in(auth, "chatgpt_account_id")) {
        Some(id) => id,
        None => {
            return Err(NO_ACCOUNT.to_string());
        },
    };
    let email = string_at(get_in(root, "email"));
    let plan = string_at(get_in(auth, "chatgpt_plan_type"));
    Ok(Credential {
        access: token.access_token,
        refresh: token.refresh_token,
        expires: now_ms.wrapping_add(token.expires_in.wrapping_mul(1000)),
        account_id,
        email,
        plan,
    })
}

/// The credential a token answer gives now.
pub fn credential_from_token(token: TokenResponse) -> (r: Result<Credential, String>)
    ensures
        names_account(token) ==> (r matches Ok(c) && exists|now: i64| credential_of(c, token, now)),
        !names_account(token) ==> (r matches Err(e) && e@ == NO_ACCOUNT@),
{
    let now = now_unix_ms();
    credential_at(token, now)
}

/// Whether a credential stays valid past the refresh margin at `now_ms`.
pub open spec fn fresh_at(c: Credential, now_ms: i64) -> bool {
    c.expires.wrapping_sub(now_ms) > REFRESH_MARGIN_MS
}

/// A credential is used as it is while it outlives the margin; past that
/// it is refreshed first.
pub fn is_fresh(c: &Credential, now_ms: i64) -> (r: bool)
    ensures
        r == fresh_at(*c, now_ms),
{
    c.expires.wrapping_sub(now_ms) > REFRESH_MARGIN_MS
}

/// The callback must come back with the state this login sent: that is
/// what stops a third party from feeding in an authorization code of its
/// choosing through a crafted link to the loopback callback.
pub fn check_state(returned: &str, expected: &str) -> (r: Result<(), String>)
    ensures
        returned@ == expected@ <==> r is Ok,
        r matches Err(e) ==> e@ == STATE_MISMATCH@,
{
    if crate::json::str_eq(returned, expected) {
        Ok(())
    } else {
        Err(STATE_MISMATCH.to_string())
    }
}

/// What `sha2::Sha256` digests bytes to.
pub uninterp spec fn sha256(bytes: Seq<u8>) -> Seq<u8>;

/// `Sha256::digest(bytes)`: the 32-byte SHA-256 digest.
#[verifier::external_body]
fn sha256_digest(bytes: &[u8]) -> (r: Vec<u8>)
    ensures
        r@ == sha256(bytes@),
        r@.len() == 32,
{
    <sha2::Sha256 as sha2::Digest>::digest(bytes).to_vec()
}

/// The S256 challenge of a PKCE verifier: the base64url SHA-256 of its
/// UTF-8 bytes.
pub open spec fn challenge_of(verifier: Seq<char>) -> Seq<char> {
    base64url(sha256(vstd::utf8::encode_utf8(verifier)))
}

/// A PKCE pair: a random verifier (32 random bytes, base64url) and its S256
/// challenge.
pub fn generate_pkce() -> (r: (String, String))
    ensures
        exists|b: Seq<u8>| b.len() == 32 && r.0@ == base64url(b),
        r.1@ == challenge_of(r.0@),
{
    let bytes = random_bytes(32);
    let verifier = base64url_encode(bytes.as_slice());
    let challenge = pkce_challenge(verifier.as_str());
    (verifier, challenge)
}

/// The S256 challenge of a verifier.
pub fn pkce_challenge(verifier: &str) -> (r: String)
    ensures
        r@ == challenge_of(verifier@),
{
    let digest = sha256_digest(verifier.as_bytes());
    base64url_encode(digest.as_slice())
}

/// A random OAuth state: 32 random bytes, base64url.
pub fn generate_state() -> (r: String)
    ensures
        exists|b: Seq<u8>| b.len() == 32 && r@ == base64url(b),
{
    crate::platform::random_token(32)
}


pub open spec fn pair_views(pairs: Seq<(String, String)>) -> Seq<(Seq<char>, Seq<char>)> {
    pairs.map_values(|p: (String, String)| (p.0@, p.1@))
}

/// What `url::form_urlencoded::Serializer` writes for name/value pairs,
/// the encoding `Url::query_pairs_mut` appends to a URL's query.
pub uninterp spec fn form_encoded(pairs: Seq<(Seq<char>, Seq<char>)>) -> Seq<char>;

/// `form_urlencoded::Serializer::new(String::new()).extend_pairs(..).finish()`.
#[verifier::external_body]
fn encode_pairs(pairs: &Vec<(String, String)>) -> (r: String)
    ensures
        r@ == form_encoded(pair_views(pairs@)),
{
    url::form_urlencoded::Serializer::new(String::new()).extend_pairs(pairs.iter()).finish()
}

fn pair(k: &str, v: &str) -> (r: (String, String))
    ensures
        r.0@ == k@,
        r.1@ == v@,
{
    (k.to_string(), v.to_string())
}

/// The query of the authorization request, in order.
pub open spec fn authorize_pairs(challenge: Seq<char>, state: Seq<char>) -> Seq<(Seq<char>, Seq<char>)> {
    seq![
        ("response_type"@, "code"@),
        ("client_id"@, CLIENT_ID@),
        ("redirect_uri"@, REDIRECT_URI@),
        ("scope"@, SCOPE@),
        ("code_challenge"@, challenge),
        ("code_challenge_method"@, "S256"@),
        ("state"@, state),
        ("id_token_add_organizations"@, "true"@),
        ("codex_cli_simplified_flow"@, "true"@),
        ("originator"@, ORIGINATOR@),
    ]
}

/// The authorization URL for a PKCE challenge and a state: the authorize
/// endpoint with the login's parameters as its query.
pub fn authorize_url(challenge: &str, state: &str) -> (r: String)
    ensures
        r@ == AUTHORIZE_URL@ + "?"@ + form_encoded(authorize_pairs(challenge@, state@)),
{
    let mut pairs: Vec<(String, String)> = Vec::new();
    pairs.push(pair("response_type", "code"));
    pairs.push(pair("client_id", CLIENT_ID));
    pairs.push(pair("redirect_uri", REDIRECT_URI));
    pairs.push(pair("scope", SCOPE));
    pairs.push(pair("code_challenge", challenge));
    pairs.push(pair("code_challenge_method", "S256"));
    pairs.push(pair("state", state));
    pairs.push(pair("id_token_add_organizations", "true"));
    pairs.push(pair("codex_cli_simplified_flow", "true"));
    pairs.push(pair("originator", ORIGINATOR));
    assert(pair_views(pairs@) =~= authorize_pairs(challenge@, state@));
    let query = encode_pairs(&pairs);
    let head = concat(AUTHORIZE_URL, "?");
    concat(head.as_str(), query.as_str())
}

/// A fresh authorization request: its URL, the PKCE verifier to redeem the
/// code with, and the state the callback must return.
pub fn build_authorize_request() -> (r: (String, String, String))
    ensures
        r.0@ == AUTHORIZE_URL@ + "?"@ + form_encoded(authorize_pairs(challenge_of(r.1@), r.2@)),
        exists|b: Seq<u8>| b.len() == 32 && r.1@ == base64url(b),
        exists|b: Seq<u8>| b.len() == 32 && r.2@ == base64url(b),
{
    let (verifier, challenge) = generate_pkce();
    let state = generate_state();
    let url = authorize_url(challenge.as_str(), state.as_str());
    (url, verifier, state)
}

/// The form that redeems an authorization code.
pub fn exchange_form(code: &str, verifier: &str) -> (r: Vec<(String, String)>)
    ensures
        pair_views(r@) == seq![
            ("grant_type"@, "authorization_code"@),
            ("client_id"@, CLIENT_ID@),
            ("code"@, code@),
            ("code_verifier"@, verifier@),
            ("redirect_uri"@, REDIRECT_URI@),
        ],
{
    let mut r: Vec<(String, String)> = Vec::new();
    r.push(pair("grant_type", "authorization_code"));
    r.push(pair("client_id", CLIENT_ID));
    r.push(pair("code", code));
    r.push(pair("code_verifier", verifier));
    r.push(pair("redirect_uri", REDIRECT_URI));
    assert(pair_views(r@) =~= seq![
        ("grant_type"@, "authorization_code"@),
        ("client_id"@, CLIENT_ID@),
        ("code"@, code@),
        ("code_verifier"@, verifier@),
        ("redirect_uri"@, REDIRECT_URI@),
    ]);
    r
}

/// The form that trades a refresh token for a new credential.
pub fn refresh_form(refresh_token: &str) -> (r: Vec<(String, String)>)
    ensures
        pair_views(r@) == seq![
            ("grant_type"@, "refresh_token"@),
            ("refresh_token"@, refresh_token@),
            ("client_id"@, CLIENT_ID@),
        ],
{
    let mut r: Vec<(String, String)> = Vec::new();
    r.push(pair("grant_type", "refresh_token"));
    r.push(pair("refresh_token", refresh_token));
    r.push(pair("client_id", CLIENT_ID));
    assert(pair_views(r@) =~= seq![
        ("grant_type"@, "refresh_token"@),
        ("refresh_token"@, refresh_token@),
        ("client_id"@, CLIENT_ID@),
    ]);
    r
}

// --- the loopback callback -------------------------------------------------

/// The code and state the browser's redirect brought back.
#[derive(Debug)]
pub struct CallbackResult {
    pub code: String,
    pub state: String,
}

/// The page the browser is left on after the redirect.
pub open spec fn page_v(message: Seq<char>, ok: bool) -> Seq<char> {
    PAGE_HEAD@ + (if ok {
        "#10a37f"@
    } else {
        "#d93025"@
    }) + PAGE_MIDDLE@ + message + PAGE_TAIL@
}

pub const PAGE_HEAD: &'static str = "<!doctype html>\n<html><head><meta charset=\"utf-8\"><title>Auth2API</title></head>\n<body style=\"font-family:-apple-system,BlinkMacSystemFont,'Segoe UI',sans-serif;\n             display:flex;align-items:center;justify-content:center;height:100vh;margin:0;\n             background:#fafafa;color:#111\">\n  <div style=\"text-align:center;max-width:32rem;padding:2rem\">\n    <div style=\"width:3rem;height:3rem;border-radius:50%;background:";

pub const PAGE_MIDDLE: &'static str = ";margin:0 auto 1.5rem\"></div>\n    <p style=\"font-size:1.05rem;line-height:1.6\">";

pub const PAGE_TAIL: &'static str = "</p>\n  </div>\n</body></html>";

/// The callback page: a green or red dot and the message.
pub fn page(message: &str, ok: bool) -> (r: String)
    ensures
        r@ == page_v(message@, ok),
{
    let accent = if ok {
        "#10a37f"
    } else {
        "#d93025"
    };
    let a = concat(PAGE_HEAD, accent);
    let b = concat(a.as_str(), PAGE_MIDDLE);
    let c = concat(b.as_str(), message);
    concat(c.as_str(), PAGE_TAIL)
}

/// What the callback answers a redirect with: the page, and the code and
/// state when the redirect carried both.
pub struct CallbackOutcome {
    pub page: String,
    pub result: Option<CallbackResult>,
}

/// The redirect's query decides it: an `error` fails the login with its
/// description; without both a code and a state nothing is learnt; with
/// them the login goes on.
pub fn handle_callback(
    error: Option<&str>,
    error_description: Option<&str>,
    code: Option<&str>,
    state: Option<&str>,
    app_name: &str,
) -> (r: CallbackOutcome)
    ensures
        error matches Some(e) ==> r.result is None && r.page@ == page_v(
            "Sign-in failed: "@ + match error_description {
                Some(d) => d@,
                None => e@,
            },
            false,
        ),
        error is None && (code is None || state is None) ==> r.result is None && r.page@ == page_v(
            "Sign-in failed: the redirect carried no authorization code."@,
            false,
        ),
        error is None && code is Some && state is Some ==> (r.result matches Some(c) && c.code@ == code->0@
            && c.state@ == state->0@ && r.page@ == page_v(
            "Signed in. You can close this tab and return to "@ + app_name@ + "."@,
            true,
        )),
{
    match error {
        Some(e) => {
            let description = match error_description {
                Some(d) => d,
                None => e,
            };
            let message = concat("Sign-in failed: ", description);
            return CallbackOutcome { page: page(message.as_str(), false), result: None };
        },
        None => {},
    }
    match (code, state) {
        (Some(c), Some(s)) => {
            let head = concat("Signed in. You can close this tab and return to ", app_name);
            let message = concat(head.as_str(), ".");
            CallbackOutcome {
                page: page(message.as_str(), true),
                result: Some(CallbackResult { code: c.to_string(), state: s.to_string() }),
            }
        },
        _ => CallbackOutcome {
            page: page("Sign-in failed: the redirect carried no authorization code.", false),
            result: None,
        },
    }
}

} // verus!
