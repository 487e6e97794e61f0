use auth2api::keys::{ApiKey, KeyStore};
use auth2api::render::{active_keys, api_keys_line, find_bucket, short_time, thousands, truncate};
use auth2api::stats::Bucket;

#[test]
fn thousands_groups_digits() {
    assert_eq!(thousands(0), "0");
    assert_eq!(thousands(999), "999");
    assert_eq!(thousands(1_000), "1,000");
    assert_eq!(thousands(1_234_567), "1,234,567");
}

#[test]
fn the_largest_count_is_grouped_too() {
    assert_eq!(thousands(u64::MAX), "18,446,744,073,709,551,615");
    assert_eq!(thousands(100_000), "100,000");
}

#[test]
fn truncation_is_character_wise() {
    assert_eq!(truncate("short", 18), "short");
    assert_eq!(truncate("中文名字很长很长很长", 5), "中文名字…");
}

#[test]
fn a_cut_name_fits_its_column() {
    assert_eq!(truncate("abcdef", 6), "abcdef");
    assert_eq!(truncate("abcdefg", 6).chars().count(), 6);
    assert_eq!(truncate("", 0), "");
}

#[test]
fn timestamps_shorten_to_the_minute() {
    assert_eq!(short_time("2026-08-05T14:32:11+08:00"), "2026-08-05 14:32");
}

#[test]
fn a_short_timestamp_is_kept_whole() {
    assert_eq!(short_time("2026-08-05T14"), "2026-08-05 14");
    // Sixteen bytes that end inside a character are not a prefix at all.
    assert_eq!(short_time("2026-08-05T1中文"), "2026-08-05 1中文");
}

fn bucket(key: &str, requests: u64) -> Bucket {
    Bucket {
        key: key.into(),
        requests,
        total_tokens: 0,
        priced: false,
        label: None,
        last_used: None,
        members: Vec::new(),
    }
}

#[test]
fn a_key_finds_its_usage_row() {
    let rows = vec![bucket("k_1", 2), bucket("(no key)", 1)];
    assert_eq!(find_bucket(&rows, "(no key)"), Some(1));
    assert_eq!(find_bucket(&rows, "k_2"), None);
}

#[test]
fn the_key_status_line_names_the_open_door() {
    assert_eq!(api_keys_line(0, false), "none - the server accepts any local caller");
    assert_eq!(api_keys_line(0, true), "1 (the legacy key in config.toml)");
    assert_eq!(api_keys_line(3, false), "3 active");
    assert_eq!(api_keys_line(2, true), "2 active, plus the legacy key in config.toml");
}

#[test]
fn only_live_keys_are_counted() {
    let key = |revoked| ApiKey {
        id: "k".into(),
        name: "k".into(),
        secret: "s".into(),
        created_at: 0,
        revoked,
    };
    let store = KeyStore {
        keys: vec![key(false), key(true), key(false)],
    };
    assert_eq!(active_keys(&store), 2);
}

#[test]
fn grouping_only_adds_commas() {
    for n in [0u64, 7, 999, 1_000, 65_536, 1_234_567, u64::MAX] {
        assert_eq!(thousands(n).replace(',', ""), n.to_string());
    }
}

#[test]
fn every_group_after_the_first_has_three_digits() {
    for n in [0u64, 12, 999, 1_000, 12_345, 123_456, 1_234_567, u64::MAX] {
        let grouped = thousands(n);
        let groups: Vec<&str> = grouped.split(',').collect();
        assert!((1..=3).contains(&groups[0].len()));
        assert!(groups[1..].iter().all(|g| g.len() == 3));
    }
}
