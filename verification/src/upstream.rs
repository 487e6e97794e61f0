//! Talking to the ChatGPT account backend: what is sent, and the proxy
//! every upstream request goes through.
//!
//! The Codex OAuth token only works against ChatGPT's own backend, not the
//! public Responses API; the endpoints look alike but the token is refused
//! by the latter.

use vstd::prelude::*;
use crate::auth::{Credential, ORIGINATOR};
use crate::json::{with_field, with_field_v, Json, JsonV};
use crate::text::{concat, spec_trim, trim};

verus! {

broadcast use vstd::string::group_string_axioms;

pub const RESPONSES_URL: &'static str = "https://chatgpt.com/backend-api/codex/responses";

/// Seconds a whole-body request may take.
pub const REQUEST_TIMEOUT_SECS: u64 = 120;

/// Seconds a connection may take to open.
pub const CONNECT_TIMEOUT_SECS: u64 = 15;

/// Longest silence between two chunks of a streamed body: generous enough
/// for a reasoning model thinking between tokens, short enough that a dead
/// proxy does not pin a connection open forever.
pub const STREAM_READ_TIMEOUT_SECS: u64 = 180;

/// The body sent upstream: `stream` is forced on, since this backend
/// refuses `stream: false` outright; a client wanting a whole body gets
/// one assembled from the stream.
pub fn upstream_body(body: Json) -> (r: Json)
    requires
        body@ is Object || body@ is Null,
    ensures
        r@ == with_field_v(body@, "stream"@, JsonV::Bool(true)),
{
    with_field(body, "stream", Json::Bool(true))
}

fn header(k: &str, v: &str) -> (r: (String, String))
    ensures
        r.0@ == k@,
        r.1@ == v@,
{
    (k.to_string(), v.to_string())
}

/// The headers of an upstream request besides the bearer token: the
/// account every request must name, who is calling, and that the answer
/// streams.
pub fn upstream_headers(cred: &Credential) -> (r: Vec<(String, String)>)
    ensures
        r@.map_values(|p: (String, String)| (p.0@, p.1@)) == seq![
            ("chatgpt-account-id"@, cred.account_id@),
            ("originator"@, ORIGINATOR@),
            ("OpenAI-Beta"@, "responses=experimental"@),
            ("accept"@, "text/event-stream"@),
        ],
{
    let mut r: Vec<(String, String)> = Vec::new();
    r.push(header("chatgpt-account-id", cred.account_id.as_str()));
    r.push(header("originator", ORIGINATOR));
    r.push(header("OpenAI-Beta", "responses=experimental"));
    r.push(header("accept", "text/event-stream"));
    assert(r@.map_values(|p: (String, String)| (p.0@, p.1@)) =~= seq![
        ("chatgpt-account-id"@, cred.account_id@),
        ("originator"@, ORIGINATOR@),
        ("OpenAI-Beta"@, "responses=experimental"@),
        ("accept"@, "text/event-stream"@),
    ]);
    r
}

/// What `reqwest::Proxy::all` makes of a proxy URL: `None` where it
/// accepts it, the message of its error where it does not.
pub uninterp spec fn proxy_refusal(url: Seq<char>) -> Option<Seq<char>>;

/// `reqwest::Proxy::all(url)`, keeping only whether it succeeded and the
/// error's message.
#[verifier::external_body]
fn try_proxy(url: &str) -> (r: Option<String>)
    ensures
        match r {
            Some(e) => proxy_refusal(url@) == Some(e@),
            None => proxy_refusal(url@) is None,
        },
{
    match reqwest::Proxy::all(url) {
        Ok(_) => None,
        Err(e) => Some(e.to_string()),
    }
}

/// How `format!("{:?}", s)` writes a string: quoted, with escapes.
pub uninterp spec fn debug_quoted(s: Seq<char>) -> Seq<char>;

/// `format!("{:?}", s)`.
#[verifier::external_body]
fn quoted(s: &str) -> (r: String)
    ensures
        r@ == debug_quoted(s@),
{
    format!("{:?}", s)
}

/// The proxy setting in force: trimmed, and none when blank.
pub open spec fn proxy_setting(url: Option<Seq<char>>) -> Option<Seq<char>> {
    match url {
        Some(u) => if spec_trim(u).len() > 0 {
            Some(spec_trim(u))
        } else {
            None
        },
        None => None,
    }
}

/// Checks a proxy setting: a URL that reqwest cannot use is refused now,
/// so a typo in `config.toml` fails at startup rather than at request
/// time. Answers the proxy to use, if any.
pub fn normalize_proxy(url: Option<String>) -> (r: Result<Option<String>, String>)
    ensures
        match proxy_setting(crate::keys::ostr(url)) {
            None => r matches Ok(p) && p is None,
            Some(u) => match proxy_refusal(u) {
                None => r matches Ok(p) && crate::keys::ostr(p) == Some(u),
                Some(e) => r matches Err(m) && m@ == "invalid proxy URL "@ + debug_quoted(u) + ": "@ + e,
            },
        },
{
    let u = match &url {
        Some(u) => trim(u.as_str()),
        None => {
            return Ok(None);
        },
    };
    if u.is_empty() {
        return Ok(None);
    }
    match try_proxy(u) {
        None => Ok(Some(u.to_string())),
        Some(e) => {
            let q = quoted(u);
            let a = concat("invalid proxy URL ", q.as_str());
            let b = concat(a.as_str(), ": ");
            Err(concat(b.as_str(), e.as_str()))
        },
    }
}

} // verus!
