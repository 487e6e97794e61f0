use auth2api::config::Config;
use auth2api::json::Json;
use auth2api::keys::{ApiKey, KeyStore};
use auth2api::net::{bind_host, check_bind_safety, is_loopback_host, needs_key_store, is_tunnel, lan_addrs_of, Interface};
use auth2api::upstream::{normalize_proxy, upstream_body, upstream_headers};
use auth2api::auth::Credential;

fn store(revoked: bool) -> KeyStore {
    KeyStore {
        keys: vec![ApiKey {
            id: "k_1".into(),
            name: "n".into(),
            secret: "sk-a2a-x".into(),
            created_at: 0,
            revoked,
        }],
    }
}

#[test]
fn loopback_needs_no_key() {
    let config = Config::default();
    assert!(check_bind_safety(&config, &KeyStore { keys: Vec::new() }).is_ok());
    assert!(is_loopback_host("::1") && is_loopback_host("localhost") && !is_loopback_host("0.0.0.0"));
}

#[test]
fn an_open_bind_without_a_key_is_refused() {
    let config = Config {
        host: "0.0.0.0".into(),
        ..Default::default()
    };
    let e = check_bind_safety(&config, &store(true)).unwrap_err();
    assert!(e.starts_with("refusing to bind 0.0.0.0 with no API key configured.\n"));
    assert!(e.ends_with("or bind 127.0.0.1."));
    assert!(check_bind_safety(&config, &store(false)).is_ok());
    let legacy = Config {
        host: "0.0.0.0".into(),
        api_key: "sk-old".into(),
        ..Default::default()
    };
    assert!(check_bind_safety(&legacy, &KeyStore { keys: Vec::new() }).is_ok());
    assert_eq!(bind_host(true), "0.0.0.0");
    assert_eq!(bind_host(false), "127.0.0.1");
}

#[test]
fn tunnels_are_recognised_by_name() {
    for name in ["utun3", "tun0", "tap1", "ppp0", "ipsec0", "wg0", "zt7"] {
        assert!(is_tunnel(name), "{name}");
    }
    for name in ["en0", "eth0", "wlan0", "bridge0", "lo"] {
        assert!(!is_tunnel(name), "{name}");
    }
}

fn iface(name: &str, loopback: bool, ip: Option<&str>, link_local: bool) -> Interface {
    Interface {
        name: name.into(),
        loopback,
        ipv4: ip.map(String::from),
        link_local,
    }
}

#[test]
fn physical_addresses_come_first_and_tunnels_not_at_all() {
    let found = lan_addrs_of(&vec![
        iface("bridge100", false, Some("192.168.64.1"), false),
        iface("lo0", true, Some("127.0.0.1"), false),
        iface("utun4", false, Some("10.8.0.2"), false),
        iface("en0", false, Some("192.168.1.20"), false),
        iface("en1", false, Some("169.254.3.3"), true),
        iface("wlan0", false, None, false),
        iface("eth0", false, Some("10.0.0.5"), false),
    ]);
    let got: Vec<(&str, &str)> = found.iter().map(|a| (a.iface.as_str(), a.ip.as_str())).collect();
    assert_eq!(got, vec![("en0", "192.168.1.20"), ("eth0", "10.0.0.5"), ("bridge100", "192.168.64.1")]);
}

#[test]
fn a_blank_proxy_is_none_and_a_bad_one_is_refused() {
    assert_eq!(normalize_proxy(None).unwrap(), None);
    assert_eq!(normalize_proxy(Some("   ".into())).unwrap(), None);
    assert_eq!(
        normalize_proxy(Some(" socks5://127.0.0.1:1080 ".into())).unwrap().as_deref(),
        Some("socks5://127.0.0.1:1080")
    );
    let e = normalize_proxy(Some("not a url".into())).unwrap_err();
    assert!(e.starts_with("invalid proxy URL \"not a url\": "), "{e}");
}

#[test]
fn upstream_always_streams_and_names_the_account() {
    let body = upstream_body(Json::Object(vec![
        ("model".to_string(), Json::Str("m".into())),
        ("stream".to_string(), Json::Bool(false)),
    ]));
    assert_eq!(body.get("stream").unwrap().as_bool(), Some(true));
    let added = upstream_body(Json::Object(vec![("model".to_string(), Json::Str("m".into()))]));
    assert_eq!(
        added,
        Json::Object(vec![("model".to_string(), Json::Str("m".into())), ("stream".to_string(), Json::Bool(true))])
    );
    assert_eq!(added.get("stream").unwrap().as_bool(), Some(true));
    assert_eq!(upstream_body(Json::Null), Json::Object(vec![("stream".to_string(), Json::Bool(true))]));
    let cred = Credential {
        access: "a".into(),
        refresh: "r".into(),
        expires: 0,
        account_id: "acct".into(),
        email: None,
        plan: None,
    };
    let h = upstream_headers(&cred);
    assert_eq!(h[0], ("chatgpt-account-id".to_string(), "acct".to_string()));
    assert_eq!(h[1], ("originator".to_string(), "auth2api".to_string()));
    assert_eq!(h.len(), 4);
}

#[test]
fn the_key_store_is_read_only_off_loopback_without_the_legacy_key() {
    assert!(!needs_key_store(&Config::default()));
    let open = Config {
        host: "0.0.0.0".into(),
        ..Default::default()
    };
    assert!(needs_key_store(&open));
    let legacy = Config {
        host: "0.0.0.0".into(),
        api_key: "sk-old".into(),
        ..Default::default()
    };
    assert!(!needs_key_store(&legacy));
}
