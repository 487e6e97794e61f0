use auth2api::auth::Credential;
use auth2api::config::Config;
use auth2api::keys::{ApiKey, KeyStore};
use auth2api::net::LanAddr;
use auth2api::panel::{app_status, key_rows};
use auth2api::stats::Bucket;

fn key(id: &str, revoked: bool) -> ApiKey {
    ApiKey {
        id: id.into(),
        name: format!("{id} name"),
        secret: "sk-a2a-abcdefgh".into(),
        created_at: 7,
        revoked,
    }
}

#[test]
fn the_status_reflects_the_settings_and_the_keys() {
    let config = Config {
        host: "0.0.0.0".into(),
        ..Default::default()
    };
    let store = KeyStore { keys: vec![key("k_1", true)] };
    let status = app_status(
        &config,
        &store,
        None,
        None,
        vec![LanAddr { iface: "en0".into(), ip: "192.168.1.2".into() }],
        "/tmp/config.toml".into(),
    );
    assert!(!status.signed_in && status.account.is_none());
    assert!(!status.running && status.address.is_none());
    assert!(status.open_to_anyone);
    assert!(status.open_host);
    assert_eq!(status.port, 8787);
    assert_eq!(status.models.len(), 3);
    assert_eq!(status.lan_addrs[0].ip, "192.168.1.2");
    assert_eq!(status.config_path, "/tmp/config.toml");
}

#[test]
fn a_running_signed_in_server_shows_its_account() {
    let cred = Credential {
        access: "a".into(),
        refresh: "r".into(),
        expires: 0,
        account_id: "acct".into(),
        email: Some("me@example.com".into()),
        plan: None,
    };
    let store = KeyStore { keys: vec![key("k_1", false)] };
    let status = app_status(&Config::default(), &store, Some(cred), Some("127.0.0.1:8787".into()), Vec::new(), String::new());
    let account = status.account.unwrap();
    assert_eq!(account.account_id, "acct");
    assert_eq!(account.email.as_deref(), Some("me@example.com"));
    assert!(status.running);
    assert!(!status.open_to_anyone && !status.open_host);
}

#[test]
fn each_key_row_carries_its_usage() {
    let store = KeyStore { keys: vec![key("k_1", false), key("k_2", true)] };
    let usage = vec![Bucket {
        key: "k_2".into(),
        requests: 3,
        total_tokens: 30,
        priced: false,
        label: Some("k_2 name".into()),
        last_used: Some("2026-01-01T00:00:00+00:00".into()),
        members: vec![0, 1, 2],
    }];
    let rows = key_rows(&store, &usage);
    assert_eq!(rows.len(), 2);
    assert_eq!((rows[0].requests, rows[0].total_tokens), (0, 0));
    assert!(rows[0].last_used.is_none());
    assert_eq!(rows[0].masked, "sk-a2a-...efgh");
    assert_eq!((rows[1].requests, rows[1].total_tokens), (3, 30));
    assert_eq!(rows[1].last_used.as_deref(), Some("2026-01-01T00:00:00+00:00"));
    assert!(rows[1].revoked);
    assert_eq!(rows[1].created_at, 7);
}
