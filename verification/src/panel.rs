//! What the desktop window shows: the server's state and the key list with
//! each key's usage. The window drives the same library and files as the
//! command line, so the two cannot disagree.

use vstd::prelude::*;
use crate::auth::Credential;
use crate::config::{views, Config};
use crate::keys::{has_any_active, ostr, spec_has_any_active, ApiKey, KeyStore};
use crate::net::{is_loopback_host, loopback, lan_views, LanAddr};
use crate::render::find_bucket;
use crate::stats::Bucket;

verus! {

broadcast use vstd::string::group_string_axioms;

/// The signed-in account, for display.
pub struct Account {
    pub email: Option<String>,
    pub account_id: String,
    pub plan: Option<String>,
}

/// Everything the window shows about the server.
pub struct AppStatus {
    pub signed_in: bool,
    pub account: Option<Account>,
    pub running: bool,
    pub address: Option<String>,
    pub host: String,
    pub port: u16,
    pub models: Vec<String>,
    pub default_model: String,
    /// No key exists at all, so any caller is accepted.
    pub open_to_anyone: bool,
    /// Bound to something other than loopback.
    pub open_host: bool,
    /// Addresses another machine could dial, best first: `0.0.0.0` is what
    /// the socket binds, not something anyone can connect to.
    pub lan_addrs: Vec<LanAddr>,
    pub config_path: String,
}

fn clone_opt(o: &Option<String>) -> (r: Option<String>)
    ensures
        ostr(r) == ostr(*o),
{
    match o {
        Some(s) => Some(s.clone()),
        None => None,
    }
}

fn clone_strings(v: &Vec<String>) -> (r: Vec<String>)
    ensures
        views(r@) == views(v@),
{
    let mut out: Vec<String> = Vec::new();
    for i in 0..v.len()
        invariant
            out.len() == i,
            forall|k: int| 0 <= k < i ==> #[trigger] out@[k]@ == v@[k]@,
    {
        out.push(v[i].clone());
    }
    assert(views(out@) =~= views(v@));
    out
}

/// The window's status of a server: whether it runs and where, what the
/// settings say, whether a login is stored, and who can reach it.
pub fn app_status(
    config: &Config,
    store: &KeyStore,
    cred: Option<Credential>,
    address: Option<String>,
    lan_addrs: Vec<LanAddr>,
    config_path: String,
) -> (r: AppStatus)
    ensures
        r.signed_in == cred is Some,
        match cred {
            Some(c) => r.account matches Some(a) && a.account_id@ == c.account_id@ && ostr(a.email) == ostr(c.email)
                && ostr(a.plan) == ostr(c.plan),
            None => r.account is None,
        },
        r.running == address is Some,
        ostr(r.address) == ostr(address),
        r.host@ == config.host@,
        r.port == config.port,
        views(r.models@) == views(config.models@),
        r.default_model@ == config.default_model@,
        r.open_to_anyone == !spec_has_any_active(*config, *store),
        r.open_host == !loopback(config.host@),
        r.lan_addrs@ == lan_addrs@,
        r.config_path@ == config_path@,
{
    let signed_in = cred.is_some();
    let account = match cred {
        Some(c) => Some(Account { email: c.email, account_id: c.account_id, plan: c.plan }),
        None => None,
    };
    AppStatus {
        signed_in,
        account,
        running: address.is_some(),
        address,
        host: config.host.clone(),
        port: config.port,
        models: clone_strings(&config.models),
        default_model: config.default_model.clone(),
        open_to_anyone: !has_any_active(config, store),
        open_host: !is_loopback_host(config.host.as_str()),
        lan_addrs,
        config_path,
    }
}

/// One key as the window lists it, with what it has used.
pub struct KeyRow {
    pub id: String,
    pub name: String,
    pub secret: String,
    pub masked: String,
    pub created_at: i64,
    pub revoked: bool,
    pub requests: u64,
    pub total_tokens: u64,
    pub last_used: Option<String>,
}

/// The per-key usage bucket of a key id, the first so keyed.
pub open spec fn usage_at(by_key: Seq<Bucket>, id: Seq<char>) -> Option<Bucket>
    decreases by_key.len(),
{
    if by_key.len() == 0 {
        None
    } else if by_key[0].key@ == id {
        Some(by_key[0])
    } else {
        usage_at(by_key.drop_first(), id)
    }
}

proof fn lemma_usage_at(by_key: Seq<Bucket>, id: Seq<char>, i: int)
    requires
        -1 <= i < by_key.len(),
        i >= 0 ==> by_key[i].key@ == id,
        forall|j: int| 0 <= j < by_key.len() && (i < 0 || j < i) ==> #[trigger] by_key[j].key@ != id,
    ensures
        usage_at(by_key, id) == if i >= 0 {
            Some(by_key[i])
        } else {
            None
        },
    decreases by_key.len(),
{
    if by_key.len() > 0 && i != 0 {
        let rest = by_key.drop_first();
        assert forall|j: int| 0 <= j < rest.len() && (i - 1 < 0 || j < i - 1) implies #[trigger] rest[j].key@ != id by {
            assert(rest[j] == by_key[j + 1]);
        }
        lemma_usage_at(rest, id, if i < 0 { -1 } else { i - 1 });
    }
}

/// The row of a key: its own fields, and its usage where it has any.
pub open spec fn row_of(row: KeyRow, key: ApiKey, usage: Option<Bucket>) -> bool {
    &&& row.id@ == key.id@
    &&& row.name@ == key.name@
    &&& row.secret@ == key.secret@
    &&& row.masked@ == crate::keys::PREFIX@ + "..."@ + crate::keys::tail4(key.secret@)
    &&& row.created_at == key.created_at
    &&& row.revoked == key.revoked
    &&& row.requests == match usage {
        Some(b) => b.requests,
        None => 0,
    }
    &&& row.total_tokens == match usage {
        Some(b) => b.total_tokens,
        None => 0,
    }
    &&& ostr(row.last_used) == match usage {
        Some(b) => ostr(b.last_used),
        None => None,
    }
}

/// Every key, in order, with the usage the per-key view has for it.
pub fn key_rows(store: &KeyStore, by_key: &Vec<Bucket>) -> (r: Vec<KeyRow>)
    ensures
        r.len() == store.keys.len(),
        forall|i: int|
            0 <= i < r.len() ==> row_of(#[trigger] r@[i], store.keys@[i], usage_at(by_key@, store.keys@[i].id@)),
{
    let mut rows: Vec<KeyRow> = Vec::new();
    for i in 0..store.keys.len()
        invariant
            rows.len() == i,
            forall|k: int|
                0 <= k < i ==> row_of(#[trigger] rows@[k], store.keys@[k], usage_at(by_key@, store.keys@[k].id@)),
    {
        let key = &store.keys[i];
        let found = find_bucket(by_key, key.id.as_str());
        let (requests, total_tokens, last_used) = match found {
            Some(j) => (by_key[j].requests, by_key[j].total_tokens, clone_opt(&by_key[j].last_used)),
            None => (0, 0, None),
        };
        proof {
            match found {
                Some(j) => lemma_usage_at(by_key@, key.id@, j as int),
                None => lemma_usage_at(by_key@, key.id@, -1),
            }
        }
        rows.push(
            KeyRow {
                id: key.id.clone(),
                name: key.name.clone(),
                secret: key.secret.clone(),
                masked: key.masked(),
                created_at: key.created_at,
                revoked: key.revoked,
                requests,
                total_tokens,
                last_used,
            },
        );
    }
    rows
}

} // verus!
