use auth2api::config::Config;
use auth2api::keys::{
    authenticate, create, delete, has_any_active, rename, requires_auth, revoke, secret_eq, ApiKey, Caller,
    KeyStore, LEGACY_ID, PREFIX,
};

fn key(id: &str, secret: &str, revoked: bool) -> ApiKey {
    ApiKey {
        id: id.into(),
        name: id.into(),
        secret: secret.into(),
        created_at: 0,
        revoked,
    }
}

fn empty() -> KeyStore {
    KeyStore { keys: Vec::new() }
}

#[test]
fn with_no_keys_anywhere_requests_are_anonymous_rather_than_rejected() {
    let caller = authenticate(&Config::default(), &empty(), "").unwrap();
    assert_eq!(caller, Caller::anonymous());
}

#[test]
fn a_matching_key_identifies_the_caller() {
    let store = KeyStore {
        keys: vec![key("k_1", "sk-a2a-one", false), key("k_2", "sk-a2a-two", false)],
    };
    let caller = authenticate(&Config::default(), &store, "sk-a2a-two").unwrap();
    assert_eq!(caller.key_id.as_deref(), Some("k_2"));
}

#[test]
fn a_revoked_key_stops_authenticating() {
    let store = KeyStore {
        keys: vec![key("k_1", "sk-a2a-one", true)],
    };
    assert!(authenticate(&Config::default(), &store, "sk-a2a-one").is_err());
}

#[test]
fn revoking_the_last_key_locks_the_door_rather_than_opening_it() {
    let store = KeyStore {
        keys: vec![key("k_1", "sk-a2a-one", true)],
    };
    assert!(authenticate(&Config::default(), &store, "").is_err());
}

#[test]
fn deleting_every_key_returns_to_anonymous() {
    let caller = authenticate(&Config::default(), &empty(), "").unwrap();
    assert_eq!(caller, Caller::anonymous());
}

#[test]
fn creating_a_key_closes_the_anonymous_door() {
    let store = KeyStore {
        keys: vec![key("k_1", "sk-a2a-one", false)],
    };
    assert!(authenticate(&Config::default(), &store, "").is_err());
}

#[test]
fn the_legacy_config_key_still_works() {
    let config = Config {
        api_key: "sk-old".into(),
        ..Default::default()
    };
    let caller = authenticate(&config, &empty(), "sk-old").unwrap();
    assert_eq!(caller.key_id.as_deref(), Some(LEGACY_ID));
}

#[test]
fn a_prefix_of_a_real_key_is_rejected() {
    let store = KeyStore {
        keys: vec![key("k_1", "sk-a2a-longsecret", false)],
    };
    assert!(authenticate(&Config::default(), &store, "sk-a2a-long").is_err());
}

#[test]
fn masking_reveals_only_the_tail() {
    let key = key("k_1", "sk-a2a-abcdefgh", false);
    assert_eq!(key.masked(), "sk-a2a-...efgh");
}

#[test]
fn a_wrong_key_is_answered_with_the_openai_message() {
    let store = KeyStore {
        keys: vec![key("k_1", "sk-a2a-one", false)],
    };
    assert_eq!(
        authenticate(&Config::default(), &store, "sk-a2a-wrong"),
        Err("Incorrect API key provided.".to_string())
    );
}

#[test]
fn secrets_compare_whole() {
    assert!(secret_eq("sk-a2a-one", "sk-a2a-one"));
    assert!(!secret_eq("sk-a2a-one", "sk-a2a-on"));
    assert!(!secret_eq("sk-a2a-one", "sk-a2a-onf"));
    assert!(secret_eq("", ""));
}

#[test]
fn a_created_key_authenticates_as_itself_and_closes_the_door() {
    let mut store = empty();
    let config = Config::default();
    assert!(!requires_auth(&config, &store));
    let k = create(&mut store, "  zed  ");
    assert_eq!(k.name, "zed");
    assert!(k.id.starts_with("k_"));
    assert!(k.secret.starts_with(PREFIX));
    assert_eq!(k.secret.len(), PREFIX.len() + 32);
    assert!(requires_auth(&config, &store));
    assert!(authenticate(&config, &store, "").is_err());
    let caller = authenticate(&config, &store, &k.secret).unwrap();
    assert_eq!(caller.key_id.as_deref(), Some(k.id.as_str()));
    assert_eq!(caller.key_name.as_deref(), Some("zed"));
}

#[test]
fn a_blank_name_is_numbered() {
    let mut store = empty();
    let first = create(&mut store, "");
    let second = create(&mut store, "   ");
    assert_eq!(first.name, "key 1");
    assert_eq!(second.name, "key 2");
}

#[test]
fn revoking_keeps_the_key_but_not_its_access() {
    let mut store = KeyStore {
        keys: vec![key("k_1", "sk-a2a-one", false), key("k_2", "sk-a2a-two", false)],
    };
    let config = Config::default();
    let revoked = revoke(&mut store, "k_1").unwrap();
    assert!(revoked.revoked);
    assert_eq!(store.keys.len(), 2);
    assert!(authenticate(&config, &store, "sk-a2a-one").is_err());
    assert!(authenticate(&config, &store, "sk-a2a-two").is_ok());
    revoke(&mut store, "k_2").unwrap();
    assert!(!has_any_active(&config, &store));
    assert!(requires_auth(&config, &store));
    assert!(authenticate(&config, &store, "").is_err());
    assert_eq!(revoke(&mut store, "k_9").unwrap_err(), "no key with id k_9");
}

#[test]
fn renaming_changes_only_the_name() {
    let mut store = KeyStore {
        keys: vec![key("k_1", "sk-a2a-one", false)],
    };
    let renamed = rename(&mut store, "k_1", "laptop").unwrap();
    assert_eq!(renamed.name, "laptop");
    assert_eq!(store.keys[0].name, "laptop");
    assert_eq!(store.keys[0].secret, "sk-a2a-one");
    assert_eq!(rename(&mut store, "k_2", "x").unwrap_err(), "no key with id k_2");
}

#[test]
fn deleting_removes_every_key_with_the_id() {
    let mut store = KeyStore {
        keys: vec![key("k_1", "sk-a2a-one", false), key("k_2", "sk-a2a-two", false)],
    };
    delete(&mut store, "k_1").unwrap();
    assert_eq!(store.keys.len(), 1);
    assert_eq!(store.keys[0].id, "k_2");
    assert_eq!(delete(&mut store, "k_1").unwrap_err(), "no key with id k_1");
    delete(&mut store, "k_2").unwrap();
    let caller = authenticate(&Config::default(), &store, "anything").unwrap();
    assert_eq!(caller, Caller::anonymous());
}

#[test]
fn the_newest_live_key_with_a_secret_wins() {
    let store = KeyStore {
        keys: vec![key("k_1", "sk-a2a-same", false), key("k_2", "sk-a2a-same", false), key("k_3", "sk-a2a-same", true)],
    };
    let caller = authenticate(&Config::default(), &store, "sk-a2a-same").unwrap();
    assert_eq!(caller.key_id.as_deref(), Some("k_2"));
}
