use auth2api::auth::{
    authorize_url, build_authorize_request, check_state, claims, credential_at, credential_from_token, exchange_form,
    generate_pkce, generate_state, handle_callback, is_fresh, page, pkce_challenge, refresh_form, second_part_of, Credential,
    TokenResponse, AUTHORIZE_URL, NO_ACCOUNT,
};
use base64::Engine as _;

fn b64(s: &str) -> String {
    base64::engine::general_purpose::URL_SAFE_NO_PAD.encode(s.as_bytes())
}

fn token(payload: &str, expires_in: i64) -> TokenResponse {
    TokenResponse {
        access_token: format!("header.{}.signature", b64(payload)),
        refresh_token: "refresh-1".into(),
        expires_in,
    }
}

#[test]
fn the_second_dotted_part_is_the_payload() {
    assert_eq!(second_part_of("a.b.c").as_deref(), Some("b"));
    assert_eq!(second_part_of("a.b").as_deref(), Some("b"));
    assert_eq!(second_part_of("a..c").as_deref(), Some(""));
    assert_eq!(second_part_of("abc"), None);
}

#[test]
fn the_account_and_extras_come_from_the_claims() {
    let t = token(
        r#"{"email":"me@example.com","https://api.openai.com/auth":{"chatgpt_account_id":"acct_1","chatgpt_plan_type":"plus"}}"#,
        3600,
    );
    assert!(claims(&t.access_token).is_some());
    let c = credential_at(t, 1_000).unwrap();
    assert_eq!(c.account_id, "acct_1");
    assert_eq!(c.email.as_deref(), Some("me@example.com"));
    assert_eq!(c.plan.as_deref(), Some("plus"));
    assert_eq!(c.expires, 1_000 + 3_600_000);
    assert_eq!(c.refresh, "refresh-1");
}

#[test]
fn a_token_without_an_account_is_refused() {
    let e = credential_at(token(r#"{"email":"me@example.com"}"#, 10), 0).unwrap_err();
    assert_eq!(e, NO_ACCOUNT);
    let garbage = TokenResponse {
        access_token: "no-dots".into(),
        refresh_token: String::new(),
        expires_in: 1,
    };
    assert!(claims(&garbage.access_token).is_none());
    assert!(credential_from_token(garbage).is_err());
}

#[test]
fn a_fresh_token_expires_from_now() {
    let before = chrono::Local::now().timestamp_millis();
    let c = credential_from_token(token(r#"{"https://api.openai.com/auth":{"chatgpt_account_id":"a"}}"#, 60)).unwrap();
    assert!(c.expires >= before + 60_000);
    assert!(c.email.is_none() && c.plan.is_none());
}

#[test]
fn a_token_is_refreshed_two_minutes_early() {
    let c = Credential {
        access: String::new(),
        refresh: String::new(),
        expires: 1_000_000,
        account_id: "a".into(),
        email: None,
        plan: None,
    };
    assert!(is_fresh(&c, 1_000_000 - 120_001));
    assert!(!is_fresh(&c, 1_000_000 - 120_000));
    assert!(!is_fresh(&c, 2_000_000));
}

#[test]
fn the_returned_state_must_match() {
    assert!(check_state("abc", "abc").is_ok());
    assert_eq!(check_state("abc", "abd").unwrap_err(), "OAuth state mismatch - discarding this callback");
}

#[test]
fn the_authorization_url_carries_the_login_parameters() {
    let url = authorize_url("chal", "st&te");
    assert_eq!(
        url,
        format!(
            "{AUTHORIZE_URL}?response_type=code&client_id=app_EMoamEEZ73f0CkXaXp7hrann\
             &redirect_uri=http%3A%2F%2Flocalhost%3A1455%2Fauth%2Fcallback\
             &scope=openid+profile+email+offline_access&code_challenge=chal\
             &code_challenge_method=S256&state=st%26te&id_token_add_organizations=true\
             &codex_cli_simplified_flow=true&originator=auth2api"
        )
    );
}

#[test]
fn a_pkce_challenge_is_the_hash_of_its_verifier() {
    let (verifier, challenge) = generate_pkce();
    assert_eq!(verifier.len(), 43);
    assert_eq!(challenge.len(), 43);
    assert_ne!(verifier, challenge);
    let (other, _) = generate_pkce();
    assert_ne!(verifier, other);
    assert_eq!(generate_state().len(), 43);
    let (url, verifier, state) = build_authorize_request();
    assert!(url.contains(&format!("state={state}")));
    assert!(!url.contains(&verifier));
}

#[test]
fn a_known_verifier_has_the_rfc_challenge() {
    // RFC 7636, appendix B.
    assert_eq!(
        pkce_challenge("dBjftJeZ4CVP-mB92K27uhbUJU1p1r_wW1gFWFOEjXk"),
        "E9Melhoa2OwvFrEMTJguCHaoeK1t8URWbuGJSstw-cM"
    );
}

#[test]
fn the_token_forms_name_this_client() {
    let f = exchange_form("code-1", "ver-1");
    assert_eq!(f[0], ("grant_type".to_string(), "authorization_code".to_string()));
    assert_eq!(f[2], ("code".to_string(), "code-1".to_string()));
    assert_eq!(f[3], ("code_verifier".to_string(), "ver-1".to_string()));
    let r = refresh_form("tok");
    assert_eq!(r.len(), 3);
    assert_eq!(r[1], ("refresh_token".to_string(), "tok".to_string()));
    assert_eq!(r[2].0, "client_id");
}

#[test]
fn the_callback_reads_the_redirect() {
    let ok = handle_callback(None, None, Some("code-1"), Some("state-1"), "Auth2API");
    let got = ok.result.unwrap();
    assert_eq!((got.code.as_str(), got.state.as_str()), ("code-1", "state-1"));
    assert!(ok.page.contains("Signed in. You can close this tab and return to Auth2API."));
    assert!(ok.page.contains("#10a37f"));

    let denied = handle_callback(Some("access_denied"), Some("user said no"), None, None, "Auth2API");
    assert!(denied.result.is_none());
    assert!(denied.page.contains("Sign-in failed: user said no"));
    assert!(denied.page.contains("#d93025"));

    let bare = handle_callback(Some("access_denied"), None, Some("c"), Some("s"), "Auth2API");
    assert!(bare.result.is_none());
    assert!(bare.page.contains("Sign-in failed: access_denied"));

    let empty = handle_callback(None, None, Some("c"), None, "Auth2API");
    assert!(empty.result.is_none());
    assert!(empty.page.contains("Sign-in failed: the redirect carried no authorization code."));
}

#[test]
fn the_page_is_a_whole_document() {
    let p = page("hello", true);
    assert!(p.starts_with("<!doctype html>\n<html><head><meta charset=\"utf-8\"><title>Auth2API</title></head>"));
    assert!(p.ends_with("<p style=\"font-size:1.05rem;line-height:1.6\">hello</p>\n  </div>\n</body></html>"));
    assert!(p.contains("background:#10a37f;margin:0 auto 1.5rem"));
}

#[test]
fn a_pkce_challenge_hashes_the_utf8_bytes() {
    let verifier = "vérifier-ünicode";
    let digest = <sha2::Sha256 as sha2::Digest>::digest(verifier.as_bytes());
    let expected = base64::engine::general_purpose::URL_SAFE_NO_PAD.encode(digest);
    assert_eq!(pkce_challenge(verifier), expected);
}
