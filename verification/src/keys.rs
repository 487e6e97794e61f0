//! Local API keys: the credentials clients present to this server, and the
//! rules for which requests they let through.

use vstd::prelude::*;
use crate::config::Config;
use crate::json::str_eq;
use crate::text::{concat, decimal, spec_trim, trim, u64_to_decimal};


verus! {

broadcast use vstd::string::group_string_axioms;

/// Every minted secret starts with this.
pub const PREFIX: &'static str = "sk-a2a-";

/// Id of requests authenticated by the legacy `api_key` in `config.toml`.
pub const LEGACY_ID: &'static str = "legacy";

/// One client credential.
#[derive(Debug)]
pub struct ApiKey {
    pub id: String,
    pub name: String,
    pub secret: String,
    /// Unix seconds.
    pub created_at: i64,
    pub revoked: bool,
}

/// Every key this server knows, in the order they were made.
#[derive(Debug)]
pub struct KeyStore {
    pub keys: Vec<ApiKey>,
}

/// Who a request is, once authenticated. No id means no key exists at all
/// and the server accepts anonymous local traffic.
#[derive(Debug, PartialEq, Eq)]
pub struct Caller {
    pub key_id: Option<String>,
    pub key_name: Option<String>,
}

pub open spec fn ostr(o: Option<String>) -> Option<Seq<char>> {
    match o {
        Some(s) => Some(s@),
        None => None,
    }
}

impl Caller {
    pub open spec fn id_v(self) -> Option<Seq<char>> {
        ostr(self.key_id)
    }

    pub open spec fn name_v(self) -> Option<Seq<char>> {
        ostr(self.key_name)
    }

    pub fn anonymous() -> (r: Self)
        ensures
            r.key_id is None,
            r.key_name is None,
    {
        Caller { key_id: None, key_name: None }
    }
}

/// The last four characters of a secret, or all of it when shorter.
pub open spec fn tail4(s: Seq<char>) -> Seq<char> {
    if s.len() <= 4 {
        s
    } else {
        s.skip(s.len() - 4)
    }
}

impl ApiKey {
    pub fn clone_key(&self) -> (r: ApiKey)
        ensures
            r == *self,
    {
        ApiKey {
            id: self.id.clone(),
            name: self.name.clone(),
            secret: self.secret.clone(),
            created_at: self.created_at,
            revoked: self.revoked,
        }
    }

    /// What a list shows of a key: the prefix, then the last four
    /// characters of the secret.
    pub fn masked(&self) -> (r: String)
        ensures
            r@ == PREFIX@ + "..."@ + tail4(self.secret@),
    {
        let cs = crate::text::chars_of(self.secret.as_str());
        let start: usize = if cs.len() <= 4 { 0 } else { cs.len() - 4 };
        let tail = crate::text::string_of(&cs.as_slice()[start..cs.len()]);
        proof {
            if cs.len() <= 4 {
                assert(cs@.subrange(0, cs@.len() as int) =~= cs@);
            } else {
                assert(cs@.subrange(start as int, cs@.len() as int) =~= cs@.skip(cs@.len() - 4));
            }
        }
        let mut r = concat(PREFIX, "...");
        r.append(tail.as_str());
        r
    }
}

/// Whether the server demands a key: a legacy key is set, or any key
/// exists at all, revoked ones included.
pub open spec fn spec_requires_auth(config: Config, store: KeyStore) -> bool {
    config.api_key@.len() > 0 || store.keys@.len() > 0
}

/// Whether anything could authenticate: a legacy key, or a live key.
pub open spec fn spec_has_any_active(config: Config, store: KeyStore) -> bool {
    config.api_key@.len() > 0 || exists|i: int| 0 <= i < store.keys@.len() && !store.keys@[i].revoked
}

/// The last live key whose secret is `presented`, as an index.
pub open spec fn last_match(keys: Seq<ApiKey>, presented: Seq<char>) -> Option<int>
    decreases keys.len(),
{
    if keys.len() == 0 {
        None
    } else if !keys.last().revoked && keys.last().secret@ == presented {
        Some(keys.len() - 1)
    } else {
        last_match(keys.drop_last(), presented)
    }
}

/// What `authenticate` answers, as values: the caller's id and name, or the
/// error message.
pub open spec fn spec_authenticate(config: Config, store: KeyStore, presented: Seq<char>) -> Result<
    (Option<Seq<char>>, Option<Seq<char>>),
    Seq<char>,
> {
    if !spec_requires_auth(config, store) {
        Ok((None, None))
    } else if config.api_key@.len() > 0 && presented == config.api_key@ {
        Ok((Some(LEGACY_ID@), Some("config.toml api_key"@)))
    } else {
        match last_match(store.keys@, presented) {
            Some(i) => Ok((Some(store.keys@[i].id@), Some(store.keys@[i].name@))),
            None => Err("Incorrect API key provided."@),
        }
    }
}

pub open spec fn caller_result_v(r: Result<Caller, String>) -> Result<
    (Option<Seq<char>>, Option<Seq<char>>),
    Seq<char>,
> {
    match r {
        Ok(c) => Ok((c.id_v(), c.name_v())),
        Err(e) => Err(e@),
    }
}

/// Compares two secrets byte for byte without stopping at the first
/// difference; a prefix of a secret does not match it.
pub fn secret_eq(a: &str, b: &str) -> (r: bool)
    ensures
        r == (a@ == b@),
{
    let x = a.as_bytes();
    let y = b.as_bytes();
    if x.len() != y.len() {
        assert(x@ != y@);
        return false;
    }
    let mut acc: u8 = 0;
    let mut i: usize = 0;
    while i < x.len()
        invariant
            i <= x.len(),
            x.len() == y.len(),
            acc == 0 <==> forall|k: int| 0 <= k < i ==> x@[k] == y@[k],
        decreases x.len() - i,
    {
        let p = x[i];
        let q = y[i];
        assert((acc | (p ^ q)) == 0 <==> (acc == 0 && p == q)) by (bit_vector);
        acc = acc | (p ^ q);
        i = i + 1;
    }
    proof {
        if acc == 0 {
            assert(x@ =~= y@);
            vstd::utf8::encode_utf8_decode_utf8(a@);
            vstd::utf8::encode_utf8_decode_utf8(b@);
        }
    }
    acc == 0
}

/// Whether this server demands a key at all. Revoked keys count: revoking
/// the last one keeps the door shut; only deleting them all reopens it.
pub fn requires_auth(config: &Config, store: &KeyStore) -> (r: bool)
    ensures
        r == spec_requires_auth(*config, *store),
{
    !config.api_key.as_str().is_empty() || store.keys.len() > 0
}

/// Whether anything could authenticate at all: the legacy key, or a key
/// that is not revoked.
pub fn has_any_active(config: &Config, store: &KeyStore) -> (r: bool)
    ensures
        r == spec_has_any_active(*config, *store),
{
    if !config.api_key.as_str().is_empty() {
        return true;
    }
    let mut i: usize = 0;
    while i < store.keys.len()
        invariant
            i <= store.keys.len(),
            forall|k: int| 0 <= k < i ==> store.keys@[k].revoked,
        decreases store.keys.len() - i,
    {
        if !store.keys[i].revoked {
            return true;
        }
        i = i + 1;
    }
    false
}

/// Resolves a presented secret against the legacy key and the key store.
/// With no keys anywhere the caller is anonymous; otherwise the legacy key,
/// then the last live key with this secret, identifies the caller. Every
/// live key is compared, so the time taken does not reveal which matched.
pub fn authenticate(config: &Config, store: &KeyStore, presented: &str) -> (r: Result<Caller, String>)
    ensures
        caller_result_v(r) == spec_authenticate(*config, *store, presented@),
{
    if !requires_auth(config, store) {
        return Ok(Caller::anonymous());
    }
    if !config.api_key.as_str().is_empty() && secret_eq(presented, config.api_key.as_str()) {
        return Ok(Caller { key_id: Some(LEGACY_ID.to_string()), key_name: Some("config.toml api_key".to_string()) });
    }
    let mut found: Option<usize> = None;
    let mut i: usize = 0;
    while i < store.keys.len()
        invariant
            i <= store.keys.len(),
            match found {
                Some(k) => last_match(store.keys@.take(i as int), presented@) == Some(k as int) && k < i,
                None => last_match(store.keys@.take(i as int), presented@) is None,
            },
        decreases store.keys.len() - i,
    {
        let key = &store.keys[i];
        assert(store.keys@.take(i + 1).drop_last() =~= store.keys@.take(i as int));
        assert(store.keys@.take(i + 1).last() == store.keys@[i as int]);
        if !key.revoked {
            if secret_eq(presented, key.secret.as_str()) {
                found = Some(i);
            }
        }
        i = i + 1;
    }
    assert(store.keys@.take(i as int) =~= store.keys@);
    match found {
        Some(k) => Ok(Caller { key_id: Some(store.keys[k].id.clone()), key_name: Some(store.keys[k].name.clone()) }),
        None => Err("Incorrect API key provided.".to_string()),
    }
}

} // verus!

verus! {

/// The first key with this id, as an index.
pub open spec fn first_with_id(keys: Seq<ApiKey>, id: Seq<char>, r: Option<usize>) -> bool {
    match r {
        Some(i) => i < keys.len() && keys[i as int].id@ == id && forall|k: int|
            0 <= k < i ==> keys[k].id@ != id,
        None => forall|k: int| 0 <= k < keys.len() ==> keys[k].id@ != id,
    }
}

/// The error every store operation gives for an unknown id.
pub open spec fn no_key_message(id: Seq<char>) -> Seq<char> {
    "no key with id "@ + id
}

pub fn find_key(store: &KeyStore, id: &str) -> (r: Option<usize>)
    ensures
        first_with_id(store.keys@, id@, r),
{
    let mut i: usize = 0;
    while i < store.keys.len()
        invariant
            i <= store.keys.len(),
            forall|k: int| 0 <= k < i ==> store.keys@[k].id@ != id@,
        decreases store.keys.len() - i,
    {
        if str_eq(store.keys[i].id.as_str(), id) {
            return Some(i);
        }
        i = i + 1;
    }
    None
}

/// Marks a key unusable while leaving it in the store, so its past usage
/// still resolves to a name. Only the first key with the id changes.
pub fn revoke(store: &mut KeyStore, id: &str) -> (r: Result<ApiKey, String>)
    ensures
        match r {
            Ok(k) => exists|i: usize|
                #[trigger] first_with_id(old(store).keys@, id@, Some(i)) && k == ApiKey {
                    revoked: true,
                    ..old(store).keys@[i as int]
                } && final(store).keys@ == old(store).keys@.update(i as int, k),
            Err(e) => first_with_id(old(store).keys@, id@, None) && e@ == no_key_message(id@)
                && final(store).keys@ == old(store).keys@,
        },
{
    match find_key(store, id) {
        Some(i) => {
            let mut k = store.keys[i].clone_key();
            k.revoked = true;
            let out = k.clone_key();
            store.keys.set(i, k);
            assert(first_with_id(old(store).keys@, id@, Some(i)));
            assert(out == ApiKey { revoked: true, ..old(store).keys@[i as int] });
            assert(store.keys@ == old(store).keys@.update(i as int, out));
            Ok(out)
        },
        None => Err(concat("no key with id ", id)),
    }
}

/// Gives the first key with the id a new name.
pub fn rename(store: &mut KeyStore, id: &str, name: &str) -> (r: Result<ApiKey, String>)
    ensures
        match r {
            Ok(k) => exists|i: usize|
                #[trigger] first_with_id(old(store).keys@, id@, Some(i)) && k.name@ == name@ && k.id
                    == old(store).keys@[i as int].id && k.secret == old(store).keys@[i as int].secret
                    && k.created_at == old(store).keys@[i as int].created_at && k.revoked == old(
                    store,
                ).keys@[i as int].revoked && final(store).keys@ == old(store).keys@.update(i as int, k),
            Err(e) => first_with_id(old(store).keys@, id@, None) && e@ == no_key_message(id@)
                && final(store).keys@ == old(store).keys@,
        },
{
    match find_key(store, id) {
        Some(i) => {
            let mut k = store.keys[i].clone_key();
            k.name = name.to_string();
            let out = k.clone_key();
            store.keys.set(i, k);
            assert(first_with_id(old(store).keys@, id@, Some(i)));
            assert(out.name@ == name@);
            assert(store.keys@ == old(store).keys@.update(i as int, out));
            Ok(out)
        },
        None => Err(concat("no key with id ", id)),
    }
}

/// Removes every key with the id. Their usage rows survive but no longer
/// resolve to a name, which is why revoking is the better default.
pub fn delete(store: &mut KeyStore, id: &str) -> (r: Result<(), String>)
    ensures
        final(store).keys@ == old(store).keys@.filter(other_than(id@)),
        match r {
            Ok(_) => exists|i: int| 0 <= i < old(store).keys@.len() && old(store).keys@[i].id@ == id@,
            Err(e) => first_with_id(old(store).keys@, id@, None) && e@ == no_key_message(id@),
        },
{
    let ghost old_keys = store.keys@;
    let mut kept: Vec<ApiKey> = Vec::new();
    let mut removed = false;
    let mut i: usize = 0;
    while i < store.keys.len()
        invariant
            i <= store.keys.len(),
            store.keys@ == old_keys,
            kept@ == old_keys.take(i as int).filter(other_than(id@)),
            removed <==> exists|j: int| 0 <= j < i && old_keys[j].id@ == id@,
        decreases store.keys.len() - i,
    {
        assert(old_keys.take(i + 1).drop_last() =~= old_keys.take(i as int));
        assert(old_keys.take(i + 1).last() == old_keys[i as int]);
        reveal_with_fuel(Seq::<_>::filter, 1);
        if str_eq(store.keys[i].id.as_str(), id) {
            removed = true;
        } else {
            kept.push(store.keys[i].clone_key());
        }
        i = i + 1;
    }
    assert(old_keys.take(i as int) =~= old_keys);
    store.keys = kept;
    if !removed {
        return Err(concat("no key with id ", id));
    }
    Ok(())
}

/// Keeps the keys whose id is not `id`.
pub open spec fn other_than(id: Seq<char>) -> spec_fn(ApiKey) -> bool {
    |k: ApiKey| k.id@ != id
}

/// The name a new key gets: the given one, trimmed, or `key N` when blank,
/// where N is one more than the number of keys already there.
pub open spec fn new_key_name(count: nat, name: Seq<char>) -> Seq<char> {
    if spec_trim(name).len() == 0 {
        "key "@ + decimal(count + 1)
    } else {
        spec_trim(name)
    }
}

/// Mints a new key and appends it to the store. Its id is `k_` and eight
/// random characters, its secret the prefix and 32 more; the full secret is
/// returned so that the caller can show it.
pub fn create(store: &mut KeyStore, name: &str) -> (r: ApiKey)
    requires
        old(store).keys@.len() < u64::MAX,
    ensures
        final(store).keys@ == old(store).keys@.push(r),
        r.name@ == new_key_name(old(store).keys@.len(), name@),
        exists|b: Seq<u8>| b.len() == 6 && r.id@ == "k_"@ + crate::platform::base64url(b),
        exists|b: Seq<u8>| b.len() == 24 && r.secret@ == PREFIX@ + crate::platform::base64url(b),
        !r.revoked,
{
    let trimmed = trim(name);
    let name = if trimmed.is_empty() {
        let n = u64_to_decimal(store.keys.len() as u64 + 1);
        concat("key ", n.as_str())
    } else {
        trimmed.to_string()
    };
    let id_tail = crate::platform::random_token(6);
    let secret_tail = crate::platform::random_token(24);
    let key = ApiKey {
        id: concat("k_", id_tail.as_str()),
        name,
        secret: concat(PREFIX, secret_tail.as_str()),
        created_at: crate::platform::now_unix(),
        revoked: false,
    };
    let out = key.clone_key();
    store.keys.push(key);
    out
}


// --- the rules keys obey -----------------------------------------------------

/// With no legacy key and no key in the store, every request is let in
/// anonymously rather than turned away: the zero-setup loopback case.
pub proof fn law_no_keys_means_anonymous(config: Config, store: KeyStore, presented: Seq<char>)
    requires
        config.api_key@.len() == 0,
        store.keys@.len() == 0,
    ensures
        spec_authenticate(config, store, presented) == Ok::<(Option<Seq<char>>, Option<Seq<char>>), Seq<char>>(
            (None, None),
        ),
{
}

proof fn lemma_last_match_skips_revoked(keys: Seq<ApiKey>, i: int, presented: Seq<char>)
    requires
        0 <= i < keys.len(),
        keys[i].revoked,
    ensures
        last_match(keys, presented) != Some(i),
        last_match(keys, presented) matches Some(j) ==> 0 <= j < keys.len() && !keys[j].revoked && keys[j].secret@ == presented,
    decreases keys.len(),
{
    if keys.len() - 1 != i {
        lemma_last_match_skips_revoked(keys.drop_last(), i, presented);
    } else {
        lemma_last_match_in_range(keys.drop_last(), presented);
    }
}

proof fn lemma_last_match_in_range(keys: Seq<ApiKey>, presented: Seq<char>)
    ensures
        last_match(keys, presented) matches Some(j) ==> 0 <= j < keys.len() && !keys[j].revoked && keys[j].secret@ == presented,
    decreases keys.len(),
{
    if keys.len() > 0 {
        lemma_last_match_in_range(keys.drop_last(), presented);
    }
}

/// Revoking a key never opens the door: a store that demanded a key still
/// does, even when the last live key was the one revoked; and the revoked
/// key is matched by no secret at all.
pub proof fn law_revoking_keeps_the_door_shut(
    config: Config,
    before: KeyStore,
    after: KeyStore,
    i: int,
    k: ApiKey,
    presented: Seq<char>,
)
    requires
        0 <= i < before.keys@.len(),
        k.revoked,
        after.keys@ == before.keys@.update(i, k),
    ensures
        spec_requires_auth(config, after) == spec_requires_auth(config, before),
        last_match(after.keys@, presented) != Some(i),
{
    lemma_last_match_skips_revoked(after.keys@, i, presented);
}

proof fn lemma_last_match_of_pushed(keys: Seq<ApiKey>, k: ApiKey)
    requires
        !k.revoked,
    ensures
        last_match(keys.push(k), k.secret@) == Some(keys.len() as int),
{
    assert(keys.push(k).last() == k);
}

/// A new key closes the anonymous door, and its own secret then identifies
/// it, unless the legacy key happens to be the very same secret.
pub proof fn law_a_created_key_identifies_its_caller(config: Config, before: KeyStore, after: KeyStore, k: ApiKey)
    requires
        !k.revoked,
        after.keys@ == before.keys@.push(k),
        config.api_key@ != k.secret@,
    ensures
        spec_requires_auth(config, after),
        spec_authenticate(config, after, k.secret@) == Ok::<(Option<Seq<char>>, Option<Seq<char>>), Seq<char>>(
            (Some(k.id@), Some(k.name@)),
        ),
{
    lemma_last_match_of_pushed(before.keys@, k);
    assert(after.keys@[before.keys@.len() as int] == k);
}

proof fn lemma_filter_all_out(keys: Seq<ApiKey>, id: Seq<char>)
    requires
        forall|i: int| 0 <= i < keys.len() ==> #[trigger] keys[i].id@ == id,
    ensures
        keys.filter(other_than(id)).len() == 0,
    decreases keys.len(),
{
    reveal_with_fuel(Seq::<_>::filter, 1);
    if keys.len() > 0 {
        assert forall|i: int| 0 <= i < keys.drop_last().len() implies #[trigger] keys.drop_last()[i].id@ == id by {
            assert(keys.drop_last()[i] == keys[i]);
        }
        lemma_filter_all_out(keys.drop_last(), id);
        assert(keys[keys.len() - 1].id@ == id);
    }
}

/// Deleting the only id there is empties the store; with no legacy key the
/// server is back to letting anyone in.
pub proof fn law_deleting_every_key_returns_to_anonymous(
    config: Config,
    before: KeyStore,
    after: KeyStore,
    id: Seq<char>,
    presented: Seq<char>,
)
    requires
        forall|i: int| 0 <= i < before.keys@.len() ==> #[trigger] before.keys@[i].id@ == id,
        after.keys@ == before.keys@.filter(other_than(id)),
        config.api_key@.len() == 0,
    ensures
        after.keys@.len() == 0,
        spec_authenticate(config, after, presented) == Ok::<(Option<Seq<char>>, Option<Seq<char>>), Seq<char>>(
            (None, None),
        ),
{
    lemma_filter_all_out(before.keys@, id);
}

/// The legacy key from `config.toml` keeps working whatever keys.json
/// holds: presenting it, when it is set, always authenticates as the legacy
/// caller, for every key store.
pub proof fn law_the_legacy_key_still_works(config: Config, store: KeyStore, presented: Seq<char>)
    requires
        config.api_key@.len() > 0,
        presented == config.api_key@,
    ensures
        spec_authenticate(config, store, presented) == Ok::<(Option<Seq<char>>, Option<Seq<char>>), Seq<char>>(
            (Some("legacy"@), Some("config.toml api_key"@)),
        ),
{
}

} // verus!
