use auth2api::stats::{report, summarize, summarize_at, Bucket, LocalTime, Record, Report};

fn record(ts: i64, model: &str, prompt: u64, completion: u64) -> Record {
    Record {
        ts,
        endpoint: "/v1/chat/completions".into(),
        model: model.into(),
        prompt_tokens: prompt,
        completion_tokens: completion,
        total_tokens: prompt + completion,
        cached_tokens: 0,
        reasoning_tokens: 0,
        stream: false,
        ok: true,
        duration_ms: 10,
        error: None,
        key_id: None,
        key_name: None,
    }
}

fn keyed(ts: i64, id: &str, name: &str) -> Record {
    let mut r = record(ts, "m", 1, 1);
    r.key_id = Some(id.into());
    r.key_name = Some(name.into());
    r
}

fn no_prices() -> Vec<String> {
    Vec::new()
}

fn by_key(records: &[Record]) -> Vec<Bucket> {
    report(records, &no_prices(), None).by_key
}

fn total(view: &[Bucket]) -> u64 {
    view.iter().map(|b| b.requests).sum()
}

#[test]
fn totals_sum_across_records() {
    let records = vec![record(1, "m", 100, 50), record(2, "m", 10, 5)];
    let report = report(&records, &no_prices(), None);
    assert_eq!(report.totals.requests, 2);
    assert_eq!(report.totals.prompt_tokens, 110);
    assert_eq!(report.totals.total_tokens, 165);
}

#[test]
fn cost_is_absent_rather_than_zero_when_nothing_is_priced() {
    let report = report(&[record(1, "m", 100, 50)], &no_prices(), None);
    // No priced model means no equivalent cost at all.
    assert!(!report.totals.priced);
    assert_eq!(report.totals.unpriced_models, vec!["m".to_string()]);
}

#[test]
fn a_partially_priced_log_reports_the_gap() {
    let records = vec![record(1, "priced", 1_000_000, 0), record(2, "other", 999, 999)];
    let report = report(&records, &["priced".to_string()], None);
    assert!(report.totals.priced);
    assert_eq!(report.totals.unpriced_models, vec!["other".to_string()]);
    // The cost covers exactly the priced model's records.
    let priced: Vec<&Bucket> = report.by_model.iter().filter(|b| b.priced).collect();
    assert_eq!(priced.len(), 1);
    assert_eq!(priced[0].key, "priced");
    assert_eq!(priced[0].members, vec![0]);
}

#[test]
fn hour_of_day_covers_all_twenty_four_slots() {
    let report = report(&[record(1, "m", 1, 1)], &no_prices(), None);
    assert_eq!(report.by_hour_of_day.len(), 24);
    assert_eq!(report.by_hour_of_day.iter().map(|b| b.requests).sum::<u64>(), 1);
}

#[test]
fn a_window_excludes_older_records() {
    let now = chrono::Local::now().timestamp();
    let records = vec![record(now - 10 * 3600, "m", 1, 1), record(now - 60, "m", 2, 2)];
    let report = report(&records, &no_prices(), Some(1));
    assert_eq!(report.totals.requests, 1);
    assert_eq!(report.totals.prompt_tokens, 2);
}

#[test]
fn a_huge_record_outside_the_window_leaves_the_window_alone() {
    let now = chrono::Local::now().timestamp();
    let records = vec![record(now - 10 * 3600, "m", u64::MAX, 0), record(now - 60, "m", 2, 2)];
    let report = report(&records, &no_prices(), Some(1));
    assert_eq!(report.totals.requests, 1);
    assert_eq!(report.totals.prompt_tokens, 2);
    assert_eq!(report.totals.total_tokens, 4);
}

#[test]
fn token_sums_wrap_like_the_counters() {
    let records = vec![record(1, "m", u64::MAX, 0), record(2, "m", 2, 0)];
    let report = report(&records, &no_prices(), None);
    assert_eq!(report.totals.requests, 2);
    assert_eq!(report.totals.prompt_tokens, 1);
    assert_eq!(report.by_model[0].total_tokens, 1);
}

#[test]
fn usage_splits_by_key_busiest_first() {
    let quiet = keyed(1, "k_quiet", "laptop");
    let busy_a = keyed(2, "k_busy", "editor");
    let busy_b = keyed(2, "k_busy", "editor");

    let buckets = by_key(&[quiet, busy_a, busy_b]);
    assert_eq!(buckets.len(), 2);
    assert_eq!(buckets[0].key, "k_busy");
    assert_eq!(buckets[0].requests, 2);
    assert_eq!(buckets[0].label.as_deref(), Some("editor"));
    assert_eq!(buckets[1].key, "k_quiet");
}

#[test]
fn keyless_requests_land_in_their_own_bucket() {
    let buckets = by_key(&[record(1, "m", 1, 1)]);
    assert_eq!(buckets.len(), 1);
    assert_eq!(buckets[0].key, "(no key)");
}

#[test]
fn a_renamed_key_keeps_one_bucket_under_its_newest_name() {
    let old = keyed(1, "k_1", "old name");
    let new = keyed(2, "k_1", "new name");
    let buckets = by_key(&[old, new]);
    assert_eq!(buckets.len(), 1);
    assert_eq!(buckets[0].label.as_deref(), Some("new name"));
    assert!(buckets[0].last_used.is_some());
}

#[test]
fn failed_requests_are_counted_separately() {
    let mut bad = record(1, "m", 0, 0);
    bad.ok = false;
    let report = report(&[record(1, "m", 1, 1), bad], &no_prices(), None);
    assert_eq!(report.totals.requests, 2);
    assert_eq!(report.totals.failed, 1);
}

fn at(year: i32, month: u32, day: u32, hour: u32) -> LocalTime {
    LocalTime {
        year,
        month,
        day,
        hour,
        rfc3339: format!("{year:04}-{month:02}-{day:02}T{hour:02}:00:00+00:00"),
        instant: 0,
    }
}

fn sample() -> (Vec<Record>, Vec<LocalTime>, Report) {
    let mut a = keyed(100, "k_b", "b");
    a.model = "x".into();
    let b = keyed(200, "k_a", "a");
    let mut c = record(300, "y", 5, 5);
    c.key_name = Some("stray name".into());
    let d = keyed(400, "k_a", "a2");
    let records = vec![a, b, c, d];
    let times = vec![at(2026, 1, 2, 3), at(2026, 1, 2, 3), at(2026, 1, 3, 23), at(2025, 12, 31, 0)];
    let report = summarize(&records, &times, &["x".to_string()], None, Some(5));
    (records, times, report)
}

#[test]
fn every_view_adds_up_to_the_totals() {
    let (_, _, report) = sample();
    assert_eq!(report.totals.requests, 4);
    assert_eq!(total(&report.by_model), 4);
    assert_eq!(total(&report.by_key), 4);
    assert_eq!(total(&report.by_hour), 4);
    assert_eq!(total(&report.by_day), 4);
    assert_eq!(total(&report.by_hour_of_day), 4);
    assert_eq!(report.window_hours, Some(5));
}

#[test]
fn views_are_keyed_and_ordered() {
    let (_, _, report) = sample();
    let keys = |v: &[Bucket]| v.iter().map(|b| b.key.clone()).collect::<Vec<_>>();
    assert_eq!(keys(&report.by_model), vec!["m", "x", "y"]);
    assert_eq!(keys(&report.by_key), vec!["k_a", "(no key)", "k_b"]);
    assert_eq!(keys(&report.by_hour), vec!["2025-12-31 00:00", "2026-01-02 03:00", "2026-01-03 23:00"]);
    assert_eq!(keys(&report.by_day), vec!["2025-12-31", "2026-01-02", "2026-01-03"]);
    assert_eq!(report.by_hour_of_day[0].key, "00");
    assert_eq!(report.by_hour_of_day[23].key, "23");
    assert_eq!(report.by_hour_of_day[3].requests, 2);
    assert_eq!(report.by_hour[1].members, vec![0, 1]);
    assert_eq!(report.first_seen.as_deref(), Some("2026-01-02T03:00:00+00:00"));
    assert_eq!(report.last_seen.as_deref(), Some("2025-12-31T00:00:00+00:00"));
}

#[test]
fn a_key_is_named_and_dated_by_its_records() {
    let (_, _, report) = sample();
    let k_a = &report.by_key[0];
    assert_eq!(k_a.requests, 2);
    assert_eq!(k_a.label.as_deref(), Some("a2"));
    assert_eq!(k_a.last_used.as_deref(), Some("2025-12-31T00:00:00+00:00"));
    let none = &report.by_key[1];
    assert_eq!(none.label.as_deref(), Some("stray name"));
    assert_eq!(none.total_tokens, 10);
    // Time buckets carry no identity.
    assert!(report.by_model.iter().all(|b| b.label.is_none() && b.last_used.is_none()));
}

#[test]
fn prices_follow_the_model() {
    let (_, _, report) = sample();
    assert!(report.totals.priced);
    assert_eq!(report.totals.unpriced_models, vec!["m".to_string(), "y".to_string()]);
    let x = report.by_model.iter().find(|b| b.key == "x").unwrap();
    assert!(x.priced);
    assert!(!report.by_key[0].priced);
}

#[test]
fn a_cutoff_keeps_only_later_records() {
    let (records, times, _) = sample();
    let report = summarize(&records, &times, &[], Some(250), None);
    assert_eq!(report.totals.requests, 2);
    assert_eq!(report.by_hour_of_day.iter().map(|b| b.requests).sum::<u64>(), 2);
    assert_eq!(report.first_seen.as_deref(), Some("2026-01-03T23:00:00+00:00"));
    let empty = summarize(&records, &times, &[], Some(1000), None);
    assert_eq!(empty.totals.requests, 0);
    assert!(empty.by_key.is_empty());
    assert!(empty.first_seen.is_none());
}

#[test]
fn a_key_never_used_after_the_epoch_has_no_last_use() {
    let records = vec![keyed(0, "k_1", "n"), keyed(-5, "k_1", "n")];
    let times = vec![at(1970, 1, 1, 0), at(1969, 12, 31, 23)];
    let report = summarize(&records, &times, &[], None, None);
    assert!(report.by_key[0].last_used.is_none());
}

#[test]
fn the_first_use_is_told_in_the_hour_of_its_bucket() {
    let report = report(&[record(86_400 * 365, "m", 1, 1)], &no_prices(), None);
    let first = report.first_seen.unwrap();
    let day = &report.by_day[0].key;
    let hour = &report.by_hour[0].key;
    assert!(first.starts_with(day.as_str()));
    assert_eq!(&first[..13], format!("{}T{}", &hour[..10], &hour[11..13]));
}

#[test]
fn a_window_counts_back_whole_hours_from_now() {
    let now = 1_000_000;
    let records = vec![
        record(now - 10 * 3600, "m", 1, 1),
        record(now - 3600, "m", 2, 2),
        record(now - 3601, "m", 4, 4),
        record(now - 60, "m", 8, 8),
    ];
    let times: Vec<LocalTime> = records.iter().map(|_| at(2026, 1, 1, 0)).collect();
    let last_hour = summarize_at(&records, &times, &[], now, Some(1));
    assert_eq!(last_hour.totals.requests, 2);
    assert_eq!(last_hour.totals.prompt_tokens, 10);
    assert_eq!(last_hour.window_hours, Some(1));
    let all = summarize_at(&records, &times, &[], now, None);
    assert_eq!(all.totals.requests, 4);
    assert_eq!(all.totals.prompt_tokens, 15);
}

#[test]
fn days_and_hours_are_read_off_each_record() {
    let ts = 1_262_304_000 + 3 * 86_400 + 12 * 3600;
    let report = report(&[record(ts, "m", 1, 1)], &no_prices(), None);
    let local = chrono::TimeZone::timestamp_opt(&chrono::Local, ts, 0).unwrap();
    assert_eq!(report.by_day[0].key, local.format("%Y-%m-%d").to_string());
    assert_eq!(report.by_hour[0].key, local.format("%Y-%m-%d %H:00").to_string());
    assert_eq!(report.first_seen, Some(local.to_rfc3339()));
}
