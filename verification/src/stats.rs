//! Usage accounting: the per-request log and the reports sliced out of it.
//!
//! A ChatGPT subscription bills a flat fee, so no per-request charge exists
//! to report. The equivalent list price is a comparison the user chose to
//! make, priced in floating point outside this module; here every report
//! says which of its figures have a price at all, and which records each
//! figure is made of, so that the price can be attached to it.

use vstd::prelude::*;
use crate::config::views;
use crate::json::str_eq;
use crate::keys::ostr;
use crate::platform::now_unix;
use crate::order::{
    sorted_distinct, lemma_insert_sorted, lemma_lt_irreflexive, lemma_lt_total, lemma_lt_transitive, lists, locate, seq_lt,
    sorted_strings, str_lt,
};
use crate::text::{decimal, u64_to_decimal};

verus! {

broadcast use vstd::string::group_string_axioms;

/// One completed request.
#[derive(Debug)]
pub struct Record {
    /// Unix seconds.
    pub ts: i64,
    pub endpoint: String,
    pub model: String,
    pub prompt_tokens: u64,
    pub completion_tokens: u64,
    pub total_tokens: u64,
    pub cached_tokens: u64,
    pub reasoning_tokens: u64,
    pub stream: bool,
    pub ok: bool,
    pub duration_ms: u64,
    pub error: Option<String>,
    /// The local API key that made the request: id and name, never the secret.
    pub key_id: Option<String>,
    pub key_name: Option<String>,
}

/// A moment in the machine's local time zone.
pub struct LocalTime {
    pub year: i32,
    pub month: u32,
    pub day: u32,
    pub hour: u32,
    /// The moment as RFC 3339 text.
    pub rfc3339: String,
    /// The moment as Unix seconds.
    pub instant: i64,
}

/// What holds of every local time chrono tells: the ranges of its fields,
/// and, for a year of four digits, RFC 3339 text that starts with the
/// zero-padded date, `T` and the zero-padded hour. (Other years chrono
/// writes with an explicit sign.)
pub open spec fn well_told(t: LocalTime) -> bool {
    &&& 1 <= t.month <= 12
    &&& 1 <= t.day <= 31
    &&& t.hour < 24
    &&& 0 <= t.year <= 9999 ==> (day_key(t) + "T"@ + padded(t.hour as int, 2)).is_prefix_of(t.rfc3339@)
}

/// Unix seconds that chrono's dates reach with room to spare: some 250,000
/// years either side of 1970.
pub open spec fn representable(ts: i64) -> bool {
    -8_000_000_000_000 <= ts <= 8_000_000_000_000
}

/// `t` is chrono's local reading of the Unix second `ts`: the moment itself,
/// or, for a second beyond chrono's dates, its default moment (1970).
pub open spec fn reading_of(t: LocalTime, ts: i64) -> bool {
    &&& well_told(t)
    &&& t.instant == ts || t.instant == 0
    &&& representable(ts) ==> t.instant == ts
}

/// The local time of a Unix timestamp, from `chrono::Local`, falling back
/// to chrono's default moment (the Unix epoch) where chrono has no date for
/// it. The date and hour depend on the machine's time zone, so only what
/// `well_told` says of them is claimed, read off the same local date and
/// time that `to_rfc3339` writes; the moment itself is the one asked for.
#[verifier::external_body]
fn local_time(ts: i64) -> (r: LocalTime)
    ensures
        reading_of(r, ts),
{
    let at = chrono::TimeZone::timestamp_opt(&chrono::Local, ts, 0).single().unwrap_or_default();
    LocalTime {
        year: chrono::Datelike::year(&at),
        month: chrono::Datelike::month(&at),
        day: chrono::Datelike::day(&at),
        hour: chrono::Timelike::hour(&at),
        rfc3339: at.to_rfc3339(),
        instant: at.timestamp(),
    }
}

/// `k` zeros.
pub open spec fn zeros(k: int) -> Seq<char>
    decreases k,
{
    if k <= 0 {
        Seq::empty()
    } else {
        zeros(k - 1).push('0')
    }
}

/// An integer as `format!("{:0w}")` writes it: the sign, then the digits
/// zero-padded so that the whole is at least `w` characters long.
pub open spec fn padded(n: int, w: int) -> Seq<char> {
    if n < 0 {
        seq!['-'] + zeros(w - 1 - decimal((-n) as nat).len()) + decimal((-n) as nat)
    } else {
        zeros(w - decimal(n as nat).len()) + decimal(n as nat)
    }
}

proof fn lemma_zeros_len(k: int)
    ensures
        zeros(k).len() == if k <= 0 { 0 } else { k },
    decreases k,
{
    if k > 0 {
        lemma_zeros_len(k - 1);
    }
}

fn push_zeros(s: &mut String, k: usize)
    ensures
        final(s)@ == old(s)@ + zeros(k as int),
{
    let mut i: usize = 0;
    assert(old(s)@ + zeros(0) =~= old(s)@);
    while i < k
        invariant
            i <= k,
            s@ == old(s)@ + zeros(i as int),
        decreases k - i,
    {
        s.push('0');
        assert(old(s)@ + zeros(i + 1) =~= (old(s)@ + zeros(i as int)).push('0'));
        i = i + 1;
    }
}

/// Appends `n` in the form `format!("{:0w}")` gives it.
pub fn push_padded(s: &mut String, n: i64, w: usize)
    ensures
        final(s)@ == old(s)@ + padded(n as int, w as int),
{
    if n < 0 {
        s.push('-');
        let m: u64 = if n == i64::MIN { 0x8000_0000_0000_0000u64 } else { (-n) as u64 };
        assert(m as int == -(n as int));
        let digits = u64_to_decimal(m);
        let len = digits.as_str().unicode_len();
        if w > 0 && len < w - 1 {
            push_zeros(s, w - 1 - len);
        } else {
            proof {
                assert(zeros(w - 1 - decimal(m as nat).len()) =~= Seq::<char>::empty()) by {
                    lemma_zeros_len(w - 1 - decimal(m as nat).len());
                }
            }
            assert(s@ + zeros(w - 1 - decimal(m as nat).len()) =~= s@);
        }
        s.append(digits.as_str());
        assert(old(s)@ + padded(n as int, w as int) =~= old(s)@ + seq!['-'] + zeros(w - 1 - decimal(m as nat).len())
            + decimal(m as nat));
    } else {
        let digits = u64_to_decimal(n as u64);
        let len = digits.as_str().unicode_len();
        if len < w {
            push_zeros(s, w - len);
        } else {
            proof {
                assert(zeros(w - decimal(n as nat).len()) =~= Seq::<char>::empty()) by {
                    lemma_zeros_len(w - decimal(n as nat).len());
                }
            }
            assert(s@ + zeros(w - decimal(n as nat).len()) =~= s@);
        }
        s.append(digits.as_str());
    }
}

/// The calendar-hour key of a moment: `YYYY-MM-DD HH:00`.
pub open spec fn hour_key(t: LocalTime) -> Seq<char> {
    padded(t.year as int, 4) + "-"@ + padded(t.month as int, 2) + "-"@ + padded(t.day as int, 2) + " "@
        + padded(t.hour as int, 2) + ":00"@
}

/// The calendar-day key of a moment: `YYYY-MM-DD`.
pub open spec fn day_key(t: LocalTime) -> Seq<char> {
    padded(t.year as int, 4) + "-"@ + padded(t.month as int, 2) + "-"@ + padded(t.day as int, 2)
}

pub fn day_key_of(t: &LocalTime) -> (r: String)
    ensures
        r@ == day_key(*t),
{
    let mut s = String::new();
    push_padded(&mut s, t.year as i64, 4);
    s.append("-");
    push_padded(&mut s, t.month as i64, 2);
    s.append("-");
    push_padded(&mut s, t.day as i64, 2);
    assert(s@ =~= day_key(*t));
    s
}

pub fn hour_key_of(t: &LocalTime) -> (r: String)
    ensures
        r@ == hour_key(*t),
{
    let mut s = day_key_of(t);
    s.append(" ");
    push_padded(&mut s, t.hour as i64, 2);
    s.append(":00");
    assert(s@ =~= hour_key(*t));
    s
}


/// Where requests made with no API key are filed in the per-key view.
pub const NO_KEY: &'static str = "(no key)";

/// The figures of a record that the report adds up.
pub enum Tally {
    Prompt,
    Completion,
    Total,
    Cached,
    Reasoning,
}

pub open spec fn amount(r: Record, t: Tally) -> nat {
    match t {
        Tally::Prompt => r.prompt_tokens as nat,
        Tally::Completion => r.completion_tokens as nat,
        Tally::Total => r.total_tokens as nat,
        Tally::Cached => r.cached_tokens as nat,
        Tally::Reasoning => r.reasoning_tokens as nat,
    }
}

/// The sum of one figure over the records at positions `ms`.
pub open spec fn tally(records: Seq<Record>, ms: Seq<usize>, t: Tally) -> nat
    decreases ms.len(),
{
    if ms.len() == 0 {
        0
    } else {
        tally(records, ms.drop_last(), t) + amount(records[ms.last() as int], t)
    }
}

/// How many of the records at positions `ms` failed.
pub open spec fn failures(records: Seq<Record>, ms: Seq<usize>) -> nat
    decreases ms.len(),
{
    if ms.len() == 0 {
        0
    } else {
        failures(records, ms.drop_last()) + if records[ms.last() as int].ok { 0nat } else { 1nat }
    }
}

/// A sum as a 64-bit counter holds it: token counters wrap around rather
/// than fail, so a report is made whatever the log holds.
pub open spec fn low64(n: int) -> int {
    n % 0x1_0000_0000_0000_0000
}

/// Adding to a wrapped sum wraps the longer sum.
proof fn lemma_wrapping_step(s: int, a: u64, x: u64)
    requires
        0 <= s,
        a == low64(s),
    ensures
        a.wrapping_add(x) == low64(s + x),
{
    let m: int = 0x1_0000_0000_0000_0000;
    vstd::arithmetic::div_mod::lemma_add_mod_noop(s, x as int, m);
    vstd::arithmetic::div_mod::lemma_small_mod(x as nat, m as nat);
    if a + x > u64::MAX {
        vstd::arithmetic::div_mod::lemma_mod_sub_multiples_vanish(a + x, m);
        vstd::arithmetic::div_mod::lemma_small_mod((a + x - m) as nat, m as nat);
    } else {
        vstd::arithmetic::div_mod::lemma_small_mod((a + x) as nat, m as nat);
    }
}

/// Whether a record falls in the report's window: at or after the cutoff.
pub open spec fn in_window(r: Record, cutoff: Option<i64>) -> bool {
    match cutoff {
        None => true,
        Some(c) => r.ts >= c,
    }
}

/// The positions, among the first `n` records, of those in the window.
pub open spec fn window(records: Seq<Record>, cutoff: Option<i64>, n: int) -> Seq<usize>
    decreases n,
{
    if n <= 0 {
        Seq::empty()
    } else if in_window(records[n - 1], cutoff) {
        window(records, cutoff, n - 1).push((n - 1) as usize)
    } else {
        window(records, cutoff, n - 1)
    }
}

/// The positions, among the first `n` records, of those in the window whose
/// key in `ks` is `k`.
pub open spec fn members(
    records: Seq<Record>,
    cutoff: Option<i64>,
    ks: Seq<Seq<char>>,
    k: Seq<char>,
    n: int,
) -> Seq<usize>
    decreases n,
{
    if n <= 0 {
        Seq::empty()
    } else if in_window(records[n - 1], cutoff) && ks[n - 1] == k {
        members(records, cutoff, ks, k, n - 1).push((n - 1) as usize)
    } else {
        members(records, cutoff, ks, k, n - 1)
    }
}

/// Some record at a position of `ms` has a price.
pub open spec fn any_priced(flags: Seq<bool>, ms: Seq<usize>) -> bool {
    exists|i: int| 0 <= i < ms.len() && flags[#[trigger] ms[i] as int]
}

/// Whether a model has a price.
pub open spec fn price_flags(records: Seq<Record>, priced_models: Seq<String>) -> Seq<bool> {
    Seq::new(records.len(), |i: int| lists(priced_models, records[i].model@))
}

pub open spec fn model_keys(records: Seq<Record>) -> Seq<Seq<char>> {
    Seq::new(records.len(), |i: int| records[i].model@)
}

/// The API key a record is filed under.
pub open spec fn key_of(r: Record) -> Seq<char> {
    match r.key_id {
        Some(id) => id@,
        None => NO_KEY@,
    }
}

pub open spec fn key_ids(records: Seq<Record>) -> Seq<Seq<char>> {
    Seq::new(records.len(), |i: int| key_of(records[i]))
}

pub open spec fn hour_keys(times: Seq<LocalTime>) -> Seq<Seq<char>> {
    Seq::new(times.len(), |i: int| hour_key(times[i]))
}

pub open spec fn day_keys(times: Seq<LocalTime>) -> Seq<Seq<char>> {
    Seq::new(times.len(), |i: int| day_key(times[i]))
}

/// The hour of the day as a two-digit key, `00` to `23`.
pub open spec fn clock_hour_keys(times: Seq<LocalTime>) -> Seq<Seq<char>> {
    Seq::new(times.len(), |i: int| padded(times[i].hour as int, 2))
}

/// One slice of the report: the requests filed under one key.
pub struct Bucket {
    pub key: String,
    pub requests: u64,
    pub total_tokens: u64,
    /// Whether some request here used a priced model; only then does the
    /// bucket have an equivalent cost, summed over `members`.
    pub priced: bool,
    /// Per-key buckets only: the key's newest name.
    pub label: Option<String>,
    /// Per-key buckets only: when the key was last used, in local time.
    pub last_used: Option<String>,
    /// The positions of the bucket's records in the log, in log order.
    pub members: Vec<usize>,
}

/// `b` counts exactly the windowed records filed under its key.
pub open spec fn counts(
    b: Bucket,
    records: Seq<Record>,
    cutoff: Option<i64>,
    ks: Seq<Seq<char>>,
    flags: Seq<bool>,
) -> bool {
    &&& b.members@ == members(records, cutoff, ks, b.key@, records.len() as int)
    &&& b.requests == b.members@.len()
    &&& b.total_tokens == low64(tally(records, b.members@, Tally::Total) as int)
    &&& b.priced == any_priced(flags, b.members@)
}

pub open spec fn has_bucket(bs: Seq<Bucket>, k: Seq<char>) -> bool {
    exists|i: int| 0 <= i < bs.len() && #[trigger] bs[i].key@ == k
}

/// One bucket per key that a windowed record lists, in increasing key order.
pub open spec fn grouped(
    bs: Seq<Bucket>,
    records: Seq<Record>,
    cutoff: Option<i64>,
    ks: Seq<Seq<char>>,
    flags: Seq<bool>,
) -> bool {
    &&& forall|i: int, j: int| 0 <= i < j < bs.len() ==> seq_lt(#[trigger] bs[i].key@, #[trigger] bs[j].key@)
    &&& forall|m: int|
        0 <= m < records.len() && in_window(records[m], cutoff) ==> has_bucket(bs, #[trigger] ks[m])
    &&& forall|i: int|
        0 <= i < bs.len() ==> counts(#[trigger] bs[i], records, cutoff, ks, flags) && bs[i].members@.len() > 0
}

proof fn lemma_tally_push(records: Seq<Record>, ms: Seq<usize>, x: usize, t: Tally)
    ensures
        tally(records, ms.push(x), t) == tally(records, ms, t) + amount(records[x as int], t),
        failures(records, ms.push(x)) == failures(records, ms) + if records[x as int].ok { 0nat } else { 1nat },
{
    assert(ms.push(x).drop_last() =~= ms);
}

/// A bucket's records are windowed records with its key, in log order.
proof fn lemma_members_are(records: Seq<Record>, cutoff: Option<i64>, ks: Seq<Seq<char>>, k: Seq<char>, n: int)
    requires
        0 <= n <= usize::MAX,
    ensures
        forall|i: int| 0 <= i < members(records, cutoff, ks, k, n).len() ==> {
            let m = #[trigger] members(records, cutoff, ks, k, n)[i];
            &&& m < n
            &&& in_window(records[m as int], cutoff)
            &&& ks[m as int] == k
        },
        members(records, cutoff, ks, k, n).len() <= window(records, cutoff, n).len(),
    decreases n,
{
    if n > 0 {
        lemma_members_are(records, cutoff, ks, k, n - 1);
        let m = members(records, cutoff, ks, k, n - 1);
        if in_window(records[n - 1], cutoff) {
            if ks[n - 1] == k {
                let now = members(records, cutoff, ks, k, n);
                assert forall|i: int| 0 <= i < now.len() implies {
                    let x = #[trigger] now[i];
                    &&& x < n
                    &&& in_window(records[x as int], cutoff)
                    &&& ks[x as int] == k
                } by {
                    if i < m.len() {
                        assert(now[i] == m[i]);
                    }
                }
            }
        }
    }
}

/// A window over the first `n` records holds at most `n` of them, each a
/// windowed record among the first `n`.
proof fn lemma_window_within(records: Seq<Record>, cutoff: Option<i64>, n: int)
    requires
        0 <= n <= usize::MAX,
    ensures
        window(records, cutoff, n).len() <= n,
        forall|i: int| 0 <= i < window(records, cutoff, n).len() ==> {
            let m = #[trigger] window(records, cutoff, n)[i];
            &&& m < n
            &&& in_window(records[m as int], cutoff)
        },
    decreases n,
{
    if n > 0 {
        lemma_window_within(records, cutoff, n - 1);
        if in_window(records[n - 1], cutoff) {
            let w = window(records, cutoff, n - 1);
            let now = window(records, cutoff, n);
            assert forall|i: int| 0 <= i < now.len() implies {
                let x = #[trigger] now[i];
                &&& x < n
                &&& in_window(records[x as int], cutoff)
            } by {
                if i < w.len() {
                    assert(now[i] == w[i]);
                }
            }
        }
    }
}

/// A key that no windowed record so far has gathers no members.
proof fn lemma_absent_key_has_no_members(
    records: Seq<Record>,
    cutoff: Option<i64>,
    ks: Seq<Seq<char>>,
    seen: Seq<String>,
    k: Seq<char>,
    n: int,
)
    requires
        0 <= n <= usize::MAX,
        forall|m: int| 0 <= m < n && in_window(records[m], cutoff) ==> lists(seen, #[trigger] ks[m]),
        !lists(seen, k),
    ensures
        members(records, cutoff, ks, k, n).len() == 0,
{
    lemma_members_are(records, cutoff, ks, k, n);
    if members(records, cutoff, ks, k, n).len() > 0 {
        let x = members(records, cutoff, ks, k, n)[0];
        assert(lists(seen, ks[x as int]));
    }
}

/// Files every windowed record under its key `ks[m]`, one bucket per key.
fn group(records: &[Record], cutoff: Option<i64>, ks: &Vec<String>, flags: &Vec<bool>) -> (out: Vec<Bucket>)
    requires
        ks.len() == records.len(),
        flags.len() == records.len(),
    ensures
        grouped(out@, records@, cutoff, views(ks@), flags@),
        forall|i: int| 0 <= i < out.len() ==> (#[trigger] out@[i]).label is None && out@[i].last_used is None,
{
    let ghost kv = views(ks@);
    let ghost rv = records@;
    let mut keys: Vec<String> = Vec::new();
    let mut out: Vec<Bucket> = Vec::new();
    let mut n: usize = 0;
    while n < records.len()
        invariant
            n <= records.len(),
            rv == records@,
            kv == views(ks@),
            ks.len() == records.len(),
            flags.len() == records.len(),
            keys.len() == out.len(),
            sorted_strings(keys@),
            forall|i: int| 0 <= i < out.len() ==> (#[trigger] out@[i]).key@ == keys@[i]@,
            forall|m: int| 0 <= m < n && in_window(rv[m], cutoff) ==> lists(keys@, #[trigger] kv[m]),
            forall|i: int| 0 <= i < out.len() ==> {
                let b = #[trigger] out@[i];
                &&& b.members@ == members(rv, cutoff, kv, b.key@, n as int)
                &&& b.members@.len() > 0
                &&& b.requests == b.members@.len()
                &&& b.total_tokens == low64(tally(rv, b.members@, Tally::Total) as int)
                &&& b.priced == any_priced(flags@, b.members@)
                &&& b.label is None
                &&& b.last_used is None
            },
        decreases records.len() - n,
    {
        let ghost before = out@;
        proof {
            lemma_window_within(rv, cutoff, n as int + 1);
        }
        let inside = match cutoff {
            None => true,
            Some(c) => records[n].ts >= c,
        };
        if inside {
            let k = ks[n].as_str();
            let (pos, found) = locate(&keys, k);
            if found {
                proof {
                    lemma_members_are(rv, cutoff, kv, kv[n as int], n as int + 1);
                    lemma_tally_push(rv, out@[pos as int].members@, n, Tally::Total);
                    lemma_wrapping_step(
                        tally(rv, out@[pos as int].members@, Tally::Total) as int,
                        out@[pos as int].total_tokens,
                        rv[n as int].total_tokens,
                    );
                }
                out[pos].members.push(n);
                out[pos].requests = out[pos].requests + 1;
                out[pos].total_tokens = out[pos].total_tokens.wrapping_add(records[n].total_tokens);
                out[pos].priced = out[pos].priced || flags[n];
                proof {
                    assert(keys@[pos as int]@ == kv[n as int]);
                    let b = out@[pos as int];
                    assert(b.members@ == before[pos as int].members@.push(n));
                    assert(any_priced(flags@, b.members@) == (any_priced(flags@, before[pos as int].members@) || flags@[n as int])) by {
                        if flags@[n as int] {
                            assert(b.members@[b.members@.len() - 1] == n);
                        }
                        if any_priced(flags@, before[pos as int].members@) {
                            let w = choose|w: int| 0 <= w < before[pos as int].members@.len() && flags@[#[trigger] before[pos as int].members@[w] as int];
                            assert(b.members@[w] == before[pos as int].members@[w]);
                        }
                    }
                }
            } else {
                let ghost kept = keys@;
                keys.insert(pos, ks[n].clone());
                let mut m: Vec<usize> = Vec::new();
                m.push(n);
                proof {
                    lemma_insert_sorted(kept, pos as int, ks@[n as int]);
                    lemma_absent_key_has_no_members(rv, cutoff, kv, kept, kv[n as int], n as int);
                    lemma_tally_push(rv, Seq::empty(), n, Tally::Total);
                    assert(Seq::<usize>::empty().push(n) =~= m@);
                    vstd::arithmetic::div_mod::lemma_small_mod(
                        rv[n as int].total_tokens as nat,
                        0x1_0000_0000_0000_0000nat,
                    );
                }
                out.insert(pos, Bucket {
                    key: ks[n].clone(),
                    requests: 1,
                    total_tokens: records[n].total_tokens,
                    priced: flags[n],
                    label: None,
                    last_used: None,
                    members: m,
                });
                proof {
                    assert(any_priced(flags@, m@) == flags@[n as int]) by {
                        assert(m@[0] == n);
                    }
                }
            }
        }
        proof {
            assert forall|i: int| 0 <= i < out.len() implies {
                let b = #[trigger] out@[i];
                &&& b.members@ == members(rv, cutoff, kv, b.key@, n as int + 1)
                &&& b.members@.len() > 0
                &&& b.requests == b.members@.len()
                &&& b.total_tokens == low64(tally(rv, b.members@, Tally::Total) as int)
                &&& b.priced == any_priced(flags@, b.members@)
                &&& b.label is None
                &&& b.last_used is None
            } by {
                let b = out@[i];
                if inside && b.key@ == kv[n as int] {
                } else {
                    assert(members(rv, cutoff, kv, b.key@, n as int + 1) == members(rv, cutoff, kv, b.key@, n as int));
                }
            }
        }
        n = n + 1;
    }
    proof {
        assert forall|m: int|
            0 <= m < rv.len() && in_window(rv[m], cutoff) implies has_bucket(out@, #[trigger] kv[m]) by {
            let i = choose|i: int| 0 <= i < keys@.len() && #[trigger] keys@[i]@ == kv[m];
            assert(out@[i].key@ == kv[m]);
        }
        assert forall|i: int, j: int| 0 <= i < j < out@.len() implies seq_lt(
            #[trigger] out@[i].key@,
            #[trigger] out@[j].key@,
        ) by {
            assert(seq_lt(keys@[i]@, keys@[j]@));
        }
    }
    out
}


/// The bucket of the windowed records filed under `key`, which may be empty.
fn collect(records: &[Record], cutoff: Option<i64>, ks: &Vec<String>, flags: &Vec<bool>, key: String) -> (b: Bucket)
    requires
        ks.len() == records.len(),
        flags.len() == records.len(),
    ensures
        b.key@ == key@,
        counts(b, records@, cutoff, views(ks@), flags@),
        b.label is None,
        b.last_used is None,
{
    let ghost kv = views(ks@);
    let ghost rv = records@;
    let ghost kview = key@;
    let mut b = Bucket {
        key,
        requests: 0,
        total_tokens: 0,
        priced: false,
        label: None,
        last_used: None,
        members: Vec::new(),
    };
    let mut n: usize = 0;
    while n < records.len()
        invariant
            n <= records.len(),
            rv == records@,
            kv == views(ks@),
            ks.len() == records.len(),
            flags.len() == records.len(),
            b.key@ == kview,
            b.members@ == members(rv, cutoff, kv, b.key@, n as int),
            b.requests == b.members@.len(),
            b.total_tokens == low64(tally(rv, b.members@, Tally::Total) as int),
            b.priced == any_priced(flags@, b.members@),
            b.label is None,
            b.last_used is None,
        decreases records.len() - n,
    {
        let inside = match cutoff {
            None => true,
            Some(c) => records[n].ts >= c,
        };
        if inside && str_eq(ks[n].as_str(), b.key.as_str()) {
            let ghost was = b.members@;
            proof {
                lemma_members_are(rv, cutoff, kv, b.key@, n as int + 1);
                lemma_members_are(rv, cutoff, kv, b.key@, n as int);
                lemma_window_within(rv, cutoff, n as int);
                lemma_tally_push(rv, was, n, Tally::Total);
                lemma_wrapping_step(tally(rv, was, Tally::Total) as int, b.total_tokens, rv[n as int].total_tokens);
            }
            b.members.push(n);
            b.requests = b.requests + 1;
            b.total_tokens = b.total_tokens.wrapping_add(records[n].total_tokens);
            b.priced = b.priced || flags[n];
            proof {
                assert(any_priced(flags@, b.members@) == (any_priced(flags@, was) || flags@[n as int])) by {
                    if flags@[n as int] {
                        assert(b.members@[b.members@.len() - 1] == n);
                    }
                    if any_priced(flags@, was) {
                        let w = choose|w: int| 0 <= w < was.len() && flags@[#[trigger] was[w] as int];
                        assert(b.members@[w] == was[w]);
                    }
                }
            }
        }
        n = n + 1;
    }
    b
}


/// The name carried by the newest of the records at positions `ms` that
/// carries one.
pub open spec fn newest_name(records: Seq<Record>, ms: Seq<usize>) -> Option<Seq<char>>
    decreases ms.len(),
{
    if ms.len() == 0 {
        None
    } else {
        match records[ms.last() as int].key_name {
            Some(name) => Some(name@),
            None => newest_name(records, ms.drop_last()),
        }
    }
}

/// The latest timestamp among the records at positions `ms`, or 0 when
/// none is later than 0.
pub open spec fn latest(records: Seq<Record>, ms: Seq<usize>) -> int
    decreases ms.len(),
{
    if ms.len() == 0 {
        0
    } else {
        let before = latest(records, ms.drop_last());
        let t = records[ms.last() as int].ts as int;
        if t > before {
            t
        } else {
            before
        }
    }
}

/// The position of the first record at which `latest` is reached.
pub open spec fn latest_at(records: Seq<Record>, ms: Seq<usize>) -> int
    decreases ms.len(),
{
    if ms.len() == 0 {
        -1
    } else if records[ms.last() as int].ts > latest(records, ms.drop_last()) {
        ms.last() as int
    } else {
        latest_at(records, ms.drop_last())
    }
}

/// A per-key bucket also names its key and says when it was last used.
pub open spec fn identified(b: Bucket, records: Seq<Record>, times: Seq<LocalTime>) -> bool {
    &&& ostr(b.label) == newest_name(records, b.members@)
    &&& ostr(b.last_used) == if latest(records, b.members@) > 0 {
        Some(times[latest_at(records, b.members@)].rfc3339@)
    } else {
        None
    }
}

/// Fills in a per-key bucket's name and last use from its records.
fn identify(b: &mut Bucket, records: &[Record], times: &[LocalTime])
    requires
        times.len() == records.len(),
        forall|i: int| 0 <= i < old(b).members@.len() ==> #[trigger] old(b).members@[i] < records.len(),
    ensures
        final(b).key == old(b).key,
        final(b).requests == old(b).requests,
        final(b).total_tokens == old(b).total_tokens,
        final(b).priced == old(b).priced,
        final(b).members == old(b).members,
        identified(*final(b), records@, times@),
{
    let ghost ms = b.members@;
    let mut label: Option<String> = None;
    let mut best: i64 = 0;
    let mut at: usize = 0;
    let mut i: usize = 0;
    while i < b.members.len()
        invariant
            ms == b.members@,
            times.len() == records.len(),
            forall|j: int| 0 <= j < ms.len() ==> #[trigger] ms[j] < records.len(),
            i <= ms.len(),
            ostr(label) == newest_name(records@, ms.take(i as int)),
            best as int == latest(records@, ms.take(i as int)),
            best > 0 ==> at < records.len() && at as int == latest_at(records@, ms.take(i as int)),
        decreases ms.len() - i,
    {
        let m = b.members[i];
        proof {
            assert(ms.take(i as int + 1).drop_last() =~= ms.take(i as int));
            assert(ms.take(i as int + 1).last() == m);
        }
        match &records[m].key_name {
            Some(name) => {
                label = Some(name.clone());
            },
            None => {},
        }
        if records[m].ts > best {
            best = records[m].ts;
            at = m;
        }
        i = i + 1;
    }
    proof {
        assert(ms.take(ms.len() as int) =~= ms);
    }
    b.label = label;
    if best > 0 {
        b.last_used = Some(times[at].rfc3339.clone());
    } else {
        b.last_used = None;
    }
}

/// `a` is listed before `b` in the per-key view: busier first, then by key.
pub open spec fn busier(a: Bucket, b: Bucket) -> bool {
    a.requests > b.requests || (a.requests == b.requests && seq_lt(a.key@, b.key@))
}

proof fn lemma_busier_total(a: Bucket, b: Bucket)
    requires
        a.key@ != b.key@,
    ensures
        busier(a, b) || busier(b, a),
{
    lemma_lt_total(a.key@, b.key@);
}

proof fn lemma_busier_transitive(a: Bucket, b: Bucket, c: Bucket)
    requires
        busier(a, b),
        busier(b, c),
    ensures
        busier(a, c),
{
    if a.requests == b.requests && b.requests == c.requests {
        lemma_lt_transitive(a.key@, b.key@, c.key@);
    }
}

fn is_busier(a: &Bucket, b: &Bucket) -> (r: bool)
    ensures
        r == busier(*a, *b),
{
    a.requests > b.requests || (a.requests == b.requests && str_lt(a.key.as_str(), b.key.as_str()))
}

/// Some bucket of `s` is `b`.
pub open spec fn among(s: Seq<Bucket>, b: Bucket) -> bool {
    exists|i: int| 0 <= i < s.len() && s[i] == b
}

/// The buckets reordered busiest first, ties broken by key.
fn sort_busiest(v: Vec<Bucket>) -> (out: Vec<Bucket>)
    requires
        forall|i: int, j: int| 0 <= i < v.len() && 0 <= j < v.len() && i != j ==> v@[i].key@ != v@[j].key@,
    ensures
        out.len() == v.len(),
        forall|i: int, j: int| 0 <= i < j < out.len() ==> busier(#[trigger] out@[i], #[trigger] out@[j]),
        forall|j: int| 0 <= j < v.len() ==> among(out@, #[trigger] v@[j]),
        forall|i: int| 0 <= i < out.len() ==> among(v@, #[trigger] out@[i]),
{
    let ghost orig = v@;
    let mut v = v;
    let mut out: Vec<Bucket> = Vec::new();
    while v.len() > 0
        invariant
            forall|i: int, j: int| 0 <= i < orig.len() && 0 <= j < orig.len() && i != j ==> orig[i].key@ != orig[j].key@,
            v.len() <= orig.len(),
            v@ == orig.take(v.len() as int),
            out.len() + v.len() == orig.len(),
            forall|i: int, j: int| 0 <= i < j < out.len() ==> busier(#[trigger] out@[i], #[trigger] out@[j]),
            forall|i: int| 0 <= i < out.len() ==> exists|j: int| v.len() <= j < orig.len() && #[trigger] out@[i] == orig[j],
            forall|j: int| v.len() <= j < orig.len() ==> among(out@, #[trigger] orig[j]),
        decreases v.len(),
    {
        let ghost rest = v.len() - 1;
        let b = v.pop().unwrap();
        proof {
            assert(b == orig[rest]);
            assert(v@ =~= orig.take(rest));
        }
        let mut p: usize = 0;
        while p < out.len() && is_busier(&out[p], &b)
            invariant
                p <= out.len(),
                forall|i: int| 0 <= i < p ==> busier(#[trigger] out@[i], b),
            decreases out.len() - p,
        {
            p = p + 1;
        }
        let ghost before = out@;
        proof {
            if p < before.len() {
                let j = choose|j: int| rest < j < orig.len() && #[trigger] before[p as int] == orig[j];
                assert(orig[j].key@ != orig[rest].key@);
                lemma_busier_total(before[p as int], b);
            }
        }
        out.insert(p, b);
        proof {
            assert forall|i: int, j: int| 0 <= i < j < out.len() implies busier(#[trigger] out@[i], #[trigger] out@[j]) by {
                if i < p && j == p {
                } else if i == p && j > p {
                    if j > p + 1 {
                        lemma_busier_transitive(b, before[p as int], before[j - 1]);
                    }
                } else if i < p && j > p {
                    assert(busier(before[i], before[j - 1]));
                } else if i > p {
                    assert(busier(before[i - 1], before[j - 1]));
                }
            }
            assert forall|i: int| 0 <= i < out.len() implies exists|j: int| rest <= j < orig.len() && #[trigger] out@[i] == orig[j] by {
                if i == p {
                    assert(out@[i] == orig[rest]);
                } else if i < p {
                    assert(out@[i] == before[i]);
                } else {
                    assert(out@[i] == before[i - 1]);
                }
            }
            assert forall|j: int| rest <= j < orig.len() implies among(out@, #[trigger] orig[j]) by {
                if j == rest {
                    assert(out@[p as int] == orig[j]);
                } else {
                    assert(among(before, orig[j]));
                    let w = choose|w: int| 0 <= w < before.len() && before[w] == orig[j];
                    if w < p {
                        assert(out@[w] == orig[j]);
                    } else {
                        assert(out@[w + 1] == orig[j]);
                    }
                }
            }
        }
    }
    proof {
        assert forall|i: int| 0 <= i < out.len() implies among(orig, #[trigger] out@[i]) by {
            let j = choose|j: int| 0 <= j < orig.len() && #[trigger] out@[i] == orig[j];
        }
    }
    out
}


/// The figures over the whole window.
pub struct Totals {
    pub requests: u64,
    pub failed: u64,
    pub prompt_tokens: u64,
    pub completion_tokens: u64,
    pub total_tokens: u64,
    pub cached_tokens: u64,
    pub reasoning_tokens: u64,
    /// Whether any request used a priced model; without one there is no
    /// equivalent cost at all, rather than a cost of zero.
    pub priced: bool,
    /// The models seen that have no price, so a cost is known to be partial.
    pub unpriced_models: Vec<String>,
}

/// A windowed record whose model is named but has no price.
pub open spec fn unpriced(r: Record, priced: bool, cutoff: Option<i64>) -> bool {
    in_window(r, cutoff) && !priced && r.model@.len() > 0
}

pub open spec fn totals_of(t: Totals, records: Seq<Record>, cutoff: Option<i64>, flags: Seq<bool>) -> bool {
    let w = window(records, cutoff, records.len() as int);
    &&& t.requests == w.len()
    &&& t.failed == failures(records, w)
    &&& t.prompt_tokens == low64(tally(records, w, Tally::Prompt) as int)
    &&& t.completion_tokens == low64(tally(records, w, Tally::Completion) as int)
    &&& t.total_tokens == low64(tally(records, w, Tally::Total) as int)
    &&& t.cached_tokens == low64(tally(records, w, Tally::Cached) as int)
    &&& t.reasoning_tokens == low64(tally(records, w, Tally::Reasoning) as int)
    &&& t.priced == any_priced(flags, w)
    &&& sorted_strings(t.unpriced_models@)
    &&& forall|m: int|
        0 <= m < records.len() && unpriced(records[m], flags[m], cutoff) ==> lists(
            t.unpriced_models@,
            #[trigger] records[m].model@,
        )
    &&& forall|j: int|
        0 <= j < t.unpriced_models@.len() ==> seen_unpriced(
            records,
            flags,
            cutoff,
            records.len() as int,
            #[trigger] t.unpriced_models@[j]@,
        )
}

/// One of the first `n` records is an unpriced windowed record of model `x`.
pub open spec fn seen_unpriced(records: Seq<Record>, flags: Seq<bool>, cutoff: Option<i64>, n: int, x: Seq<char>) -> bool {
    exists|m: int| 0 <= m < n && unpriced(records[m], flags[m], cutoff) && #[trigger] records[m].model@ == x
}

fn add_totals(records: &[Record], cutoff: Option<i64>, flags: &Vec<bool>) -> (t: Totals)
    requires
        flags.len() == records.len(),
    ensures
        totals_of(t, records@, cutoff, flags@),
{
    let ghost rv = records@;
    let mut t = Totals {
        requests: 0,
        failed: 0,
        prompt_tokens: 0,
        completion_tokens: 0,
        total_tokens: 0,
        cached_tokens: 0,
        reasoning_tokens: 0,
        priced: false,
        unpriced_models: Vec::new(),
    };
    let mut named: Vec<String> = Vec::new();
    let mut n: usize = 0;
    while n < records.len()
        invariant
            n <= records.len(),
            rv == records@,
            flags.len() == records.len(),
            t.requests == window(rv, cutoff, n as int).len(),
            t.failed == failures(rv, window(rv, cutoff, n as int)),
            t.failed <= t.requests,
            t.prompt_tokens == low64(tally(rv, window(rv, cutoff, n as int), Tally::Prompt) as int),
            t.completion_tokens == low64(tally(rv, window(rv, cutoff, n as int), Tally::Completion) as int),
            t.total_tokens == low64(tally(rv, window(rv, cutoff, n as int), Tally::Total) as int),
            t.cached_tokens == low64(tally(rv, window(rv, cutoff, n as int), Tally::Cached) as int),
            t.reasoning_tokens == low64(tally(rv, window(rv, cutoff, n as int), Tally::Reasoning) as int),
            t.priced == any_priced(flags@, window(rv, cutoff, n as int)),
            forall|m: int|
                0 <= m < n && unpriced(rv[m], flags@[m], cutoff) ==> lists(named@, #[trigger] rv[m].model@),
            forall|j: int| 0 <= j < named.len() ==> seen_unpriced(rv, flags@, cutoff, n as int, #[trigger] named@[j]@),
        decreases records.len() - n,
    {
        let ghost named0 = named@;
        let inside = match cutoff {
            None => true,
            Some(c) => records[n].ts >= c,
        };
        if inside {
            let ghost w = window(rv, cutoff, n as int);
            proof {
                lemma_window_within(rv, cutoff, n as int);
                lemma_tally_push(rv, w, n, Tally::Prompt);
                lemma_tally_push(rv, w, n, Tally::Completion);
                lemma_tally_push(rv, w, n, Tally::Total);
                lemma_tally_push(rv, w, n, Tally::Cached);
                lemma_tally_push(rv, w, n, Tally::Reasoning);
                let r = rv[n as int];
                lemma_wrapping_step(tally(rv, w, Tally::Prompt) as int, t.prompt_tokens, r.prompt_tokens);
                lemma_wrapping_step(tally(rv, w, Tally::Completion) as int, t.completion_tokens, r.completion_tokens);
                lemma_wrapping_step(tally(rv, w, Tally::Total) as int, t.total_tokens, r.total_tokens);
                lemma_wrapping_step(tally(rv, w, Tally::Cached) as int, t.cached_tokens, r.cached_tokens);
                lemma_wrapping_step(tally(rv, w, Tally::Reasoning) as int, t.reasoning_tokens, r.reasoning_tokens);
            }
            t.requests = t.requests + 1;
            if !records[n].ok {
                t.failed = t.failed + 1;
            }
            t.prompt_tokens = t.prompt_tokens.wrapping_add(records[n].prompt_tokens);
            t.completion_tokens = t.completion_tokens.wrapping_add(records[n].completion_tokens);
            t.total_tokens = t.total_tokens.wrapping_add(records[n].total_tokens);
            t.cached_tokens = t.cached_tokens.wrapping_add(records[n].cached_tokens);
            t.reasoning_tokens = t.reasoning_tokens.wrapping_add(records[n].reasoning_tokens);
            t.priced = t.priced || flags[n];
            proof {
                let now = window(rv, cutoff, n as int + 1);
                assert(now == w.push(n));
                assert(any_priced(flags@, now) == (any_priced(flags@, w) || flags@[n as int])) by {
                    if flags@[n as int] {
                        assert(now[now.len() - 1] == n);
                    }
                    if any_priced(flags@, w) {
                        let k = choose|k: int| 0 <= k < w.len() && flags@[#[trigger] w[k] as int];
                        assert(now[k] == w[k]);
                    }
                }
            }
            let ghost kept = named@;
            if !flags[n] && records[n].model.as_str().unicode_len() > 0 {
                named.push(records[n].model.clone());
                proof {
                    assert(named@[named.len() - 1]@ == rv[n as int].model@);
                }
            }
            proof {
                assert forall|x: Seq<char>| lists(kept, x) implies lists(named@, x) by {
                    let w = choose|w: int| 0 <= w < kept.len() && #[trigger] kept[w]@ == x;
                    assert(named@[w] == kept[w]);
                }
            }
        }
        proof {
            assert forall|j: int| 0 <= j < named.len() implies seen_unpriced(rv, flags@, cutoff, n + 1, #[trigger] named@[j]@) by {
                if j < named0.len() {
                    assert(named@[j] == named0[j]);
                    assert(seen_unpriced(rv, flags@, cutoff, n as int, named0[j]@));
                    let m = choose|m: int| 0 <= m < n && unpriced(rv[m], flags@[m], cutoff) && #[trigger] rv[m].model@ == named0[j]@;
                    assert(rv[m].model@ == named@[j]@);
                } else {
                    assert(rv[n as int].model@ == named@[j]@);
                    assert(unpriced(rv[n as int], flags@[n as int], cutoff));
                }
            }
            assert forall|m: int| 0 <= m < n + 1 && unpriced(rv[m], flags@[m], cutoff) implies lists(named@, #[trigger] rv[m].model@) by {
                if m == n {
                    assert(named@[named.len() - 1]@ == rv[m].model@);
                }
            }
        }
        n = n + 1;
    }
    t.unpriced_models = sorted_distinct(&named);
    proof {
        assert forall|m: int|
            0 <= m < rv.len() && unpriced(rv[m], flags@[m], cutoff) implies lists(t.unpriced_models@, #[trigger] rv[m].model@) by {
            let w = choose|w: int| 0 <= w < named@.len() && #[trigger] named@[w]@ == rv[m].model@;
            assert(lists(t.unpriced_models@, named@[w]@));
        }
        assert forall|j: int| 0 <= j < t.unpriced_models@.len() implies seen_unpriced(
            rv,
            flags@,
            cutoff,
            rv.len() as int,
            #[trigger] t.unpriced_models@[j]@,
        ) by {
            assert(lists(named@, t.unpriced_models@[j]@));
            let w = choose|w: int| 0 <= w < named@.len() && #[trigger] named@[w]@ == t.unpriced_models@[j]@;
            assert(seen_unpriced(rv, flags@, cutoff, rv.len() as int, named@[w]@));
        }
    }
    t
}


fn model_key_list(records: &[Record]) -> (ks: Vec<String>)
    ensures
        ks.len() == records.len(),
        views(ks@) == model_keys(records@),
{
    let mut ks: Vec<String> = Vec::new();
    for n in 0..records.len()
        invariant
            ks.len() == n,
            forall|i: int| 0 <= i < n ==> #[trigger] ks@[i]@ == records@[i].model@,
    {
        ks.push(records[n].model.clone());
    }
    assert(views(ks@) =~= model_keys(records@));
    ks
}

fn key_id_list(records: &[Record]) -> (ks: Vec<String>)
    ensures
        ks.len() == records.len(),
        views(ks@) == key_ids(records@),
{
    let mut ks: Vec<String> = Vec::new();
    for n in 0..records.len()
        invariant
            ks.len() == n,
            forall|i: int| 0 <= i < n ==> #[trigger] ks@[i]@ == key_of(records@[i]),
    {
        let k = match &records[n].key_id {
            Some(id) => id.clone(),
            None => NO_KEY.to_owned(),
        };
        ks.push(k);
    }
    assert(views(ks@) =~= key_ids(records@));
    ks
}

fn hour_key_list(times: &[LocalTime]) -> (ks: Vec<String>)
    ensures
        ks.len() == times.len(),
        views(ks@) == hour_keys(times@),
{
    let mut ks: Vec<String> = Vec::new();
    for n in 0..times.len()
        invariant
            ks.len() == n,
            forall|i: int| 0 <= i < n ==> #[trigger] ks@[i]@ == hour_key(times@[i]),
    {
        ks.push(hour_key_of(&times[n]));
    }
    assert(views(ks@) =~= hour_keys(times@));
    ks
}

fn day_key_list(times: &[LocalTime]) -> (ks: Vec<String>)
    ensures
        ks.len() == times.len(),
        views(ks@) == day_keys(times@),
{
    let mut ks: Vec<String> = Vec::new();
    for n in 0..times.len()
        invariant
            ks.len() == n,
            forall|i: int| 0 <= i < n ==> #[trigger] ks@[i]@ == day_key(times@[i]),
    {
        ks.push(day_key_of(&times[n]));
    }
    assert(views(ks@) =~= day_keys(times@));
    ks
}

/// A number from 0 to 23 as a two-digit key.
fn two_digits(h: u32) -> (r: String)
    ensures
        r@ == padded(h as int, 2),
{
    let mut s = String::new();
    push_padded(&mut s, h as i64, 2);
    assert(s@ =~= padded(h as int, 2));
    s
}

fn clock_hour_key_list(times: &[LocalTime]) -> (ks: Vec<String>)
    ensures
        ks.len() == times.len(),
        views(ks@) == clock_hour_keys(times@),
{
    let mut ks: Vec<String> = Vec::new();
    for n in 0..times.len()
        invariant
            ks.len() == n,
            forall|i: int| 0 <= i < n ==> #[trigger] ks@[i]@ == padded(times@[i].hour as int, 2),
    {
        ks.push(two_digits(times[n].hour));
    }
    assert(views(ks@) =~= clock_hour_keys(times@));
    ks
}

/// Whether `name` is one of `names`.
fn listed(names: &[String], name: &str) -> (r: bool)
    ensures
        r == lists(names@, name@),
{
    for i in 0..names.len()
        invariant
            forall|j: int| 0 <= j < i ==> #[trigger] names@[j]@ != name@,
    {
        if str_eq(names[i].as_str(), name) {
            return true;
        }
    }
    false
}

fn price_flag_list(records: &[Record], priced_models: &[String]) -> (flags: Vec<bool>)
    ensures
        flags@ == price_flags(records@, priced_models@),
{
    let mut flags: Vec<bool> = Vec::new();
    for n in 0..records.len()
        invariant
            flags.len() == n,
            forall|i: int| 0 <= i < n ==> #[trigger] flags@[i] == lists(priced_models@, records@[i].model@),
    {
        flags.push(listed(priced_models, records[n].model.as_str()));
    }
    assert(flags@ =~= price_flags(records@, priced_models@));
    flags
}


/// The usage report over a window of the log.
pub struct Report {
    pub totals: Totals,
    pub by_model: Vec<Bucket>,
    /// One entry per local API key that was used, busiest first.
    pub by_key: Vec<Bucket>,
    /// One entry per calendar hour with traffic, oldest first, local time.
    pub by_hour: Vec<Bucket>,
    /// Requests per hour of the day, all twenty-four of them.
    pub by_hour_of_day: Vec<Bucket>,
    pub by_day: Vec<Bucket>,
    pub first_seen: Option<String>,
    pub last_seen: Option<String>,
    /// The window asked for, echoed back.
    pub window_hours: Option<i64>,
}

/// A time bucket carries no name and no last use.
pub open spec fn plain(b: Bucket) -> bool {
    b.label is None && b.last_used is None
}

pub open spec fn all_plain(bs: Seq<Bucket>) -> bool {
    forall|i: int| 0 <= i < bs.len() ==> plain(#[trigger] bs[i])
}

/// The per-key view: one bucket per key used, each named, busiest first.
pub open spec fn keyed(
    bs: Seq<Bucket>,
    records: Seq<Record>,
    times: Seq<LocalTime>,
    cutoff: Option<i64>,
    flags: Seq<bool>,
) -> bool {
    let ks = key_ids(records);
    &&& forall|i: int, j: int| 0 <= i < j < bs.len() ==> busier(#[trigger] bs[i], #[trigger] bs[j])
    &&& forall|m: int| 0 <= m < records.len() && in_window(records[m], cutoff) ==> has_bucket(bs, #[trigger] ks[m])
    &&& forall|i: int|
        0 <= i < bs.len() ==> counts(#[trigger] bs[i], records, cutoff, ks, flags) && bs[i].members@.len() > 0
            && identified(bs[i], records, times)
}

/// The hour-of-day view: twenty-four buckets, `00` to `23`, empty or not.
pub open spec fn by_clock_hour(bs: Seq<Bucket>, records: Seq<Record>, times: Seq<LocalTime>, cutoff: Option<i64>, flags: Seq<bool>) -> bool {
    &&& bs.len() == 24
    &&& forall|h: int|
        0 <= h < 24 ==> (#[trigger] bs[h]).key@ == padded(h, 2) && counts(bs[h], records, cutoff, clock_hour_keys(times), flags)
            && plain(bs[h])
}

/// `r` is the report over the records at or after `cutoff`, where
/// `times[m]` is the local time of record `m` and the models in
/// `priced_models` have a price.
pub open spec fn describes(
    r: Report,
    records: Seq<Record>,
    times: Seq<LocalTime>,
    priced_models: Seq<String>,
    cutoff: Option<i64>,
    window_hours: Option<i64>,
) -> bool {
    let flags = price_flags(records, priced_models);
    let w = window(records, cutoff, records.len() as int);
    &&& totals_of(r.totals, records, cutoff, flags)
    &&& grouped(r.by_model@, records, cutoff, model_keys(records), flags) && all_plain(r.by_model@)
    &&& keyed(r.by_key@, records, times, cutoff, flags)
    &&& grouped(r.by_hour@, records, cutoff, hour_keys(times), flags) && all_plain(r.by_hour@)
    &&& by_clock_hour(r.by_hour_of_day@, records, times, cutoff, flags)
    &&& grouped(r.by_day@, records, cutoff, day_keys(times), flags) && all_plain(r.by_day@)
    &&& ostr(r.first_seen) == if w.len() > 0 { Some(times[w[0] as int].rfc3339@) } else { None }
    &&& ostr(r.last_seen) == if w.len() > 0 { Some(times[w.last() as int].rfc3339@) } else { None }
    &&& r.window_hours == window_hours
}

fn per_key(
    records: &[Record],
    times: &[LocalTime],
    cutoff: Option<i64>,
    flags: &Vec<bool>,
) -> (out: Vec<Bucket>)
    requires
        times.len() == records.len(),
        flags.len() == records.len(),
    ensures
        keyed(out@, records@, times@, cutoff, flags@),
{
    let ks = key_id_list(records);
    let mut bs = group(records, cutoff, &ks, flags);
    let ghost grouped_bs = bs@;
    let mut named: Vec<Bucket> = Vec::new();
    while bs.len() > 0
        invariant
            times.len() == records.len(),
            bs@ == grouped_bs.take(bs.len() as int),
            bs.len() <= grouped_bs.len(),
            grouped(grouped_bs, records@, cutoff, key_ids(records@), flags@),
            named.len() + bs.len() == grouped_bs.len(),
            forall|i: int| 0 <= i < named.len() ==> {
                let b = #[trigger] named@[i];
                let g = grouped_bs[grouped_bs.len() - 1 - i];
                &&& b.key == g.key
                &&& b.requests == g.requests
                &&& b.total_tokens == g.total_tokens
                &&& b.priced == g.priced
                &&& b.members == g.members
                &&& identified(b, records@, times@)
            },
        decreases bs.len(),
    {
        let ghost at = bs.len() - 1;
        let mut b = bs.pop().unwrap();
        proof {
            assert(b == grouped_bs[at]);
            assert(bs@ =~= grouped_bs.take(at));
            lemma_members_are(records@, cutoff, key_ids(records@), b.key@, records.len() as int);
        }
        identify(&mut b, records, times);
        named.push(b);
    }
    proof {
        assert forall|i: int, j: int| 0 <= i < named.len() && 0 <= j < named.len() && i != j implies named@[i].key@
            != named@[j].key@ by {
            let a = grouped_bs.len() - 1 - i;
            let c = grouped_bs.len() - 1 - j;
            if a < c {
                assert(seq_lt(grouped_bs[a].key@, grouped_bs[c].key@));
                lemma_lt_irreflexive(grouped_bs[a].key@);
            } else {
                assert(seq_lt(grouped_bs[c].key@, grouped_bs[a].key@));
                lemma_lt_irreflexive(grouped_bs[c].key@);
            }
        }
    }
    let ghost pre = named@;
    let out = sort_busiest(named);
    proof {
        let ks = key_ids(records@);
        assert forall|i: int|
            0 <= i < out.len() implies counts(#[trigger] out@[i], records@, cutoff, ks, flags@) && out@[i].members@.len() > 0
                && identified(out@[i], records@, times@) by {
            let j = choose|j: int| 0 <= j < pre.len() && pre[j] == out@[i];
            assert(counts(grouped_bs[grouped_bs.len() - 1 - j], records@, cutoff, ks, flags@));
        }
        assert forall|m: int| 0 <= m < records.len() && in_window(records@[m], cutoff) implies has_bucket(
            out@,
            #[trigger] ks[m],
        ) by {
            let g = choose|g: int| 0 <= g < grouped_bs.len() && #[trigger] grouped_bs[g].key@ == ks[m];
            let j = grouped_bs.len() - 1 - g;
            assert(pre[j].key@ == ks[m]);
            assert(among(out@, pre[j]));
            let i = choose|i: int| 0 <= i < out@.len() && out@[i] == pre[j];
            assert(out@[i].key@ == ks[m]);
        }
    }
    out
}

fn per_clock_hour(records: &[Record], times: &[LocalTime], cutoff: Option<i64>, flags: &Vec<bool>) -> (out: Vec<Bucket>)
    requires
        times.len() == records.len(),
        flags.len() == records.len(),
    ensures
        by_clock_hour(out@, records@, times@, cutoff, flags@),
{
    let ks = clock_hour_key_list(times);
    let mut out: Vec<Bucket> = Vec::new();
    for h in 0..24u32
        invariant
            times.len() == records.len(),
            flags.len() == records.len(),
            views(ks@) == clock_hour_keys(times@),
            ks.len() == records.len(),
            out.len() == h,
            forall|i: int|
                0 <= i < h ==> (#[trigger] out@[i]).key@ == padded(i, 2) && counts(
                    out@[i],
                    records@,
                    cutoff,
                    clock_hour_keys(times@),
                    flags@,
                ) && plain(out@[i]),
    {
        let b = collect(records, cutoff, &ks, flags, two_digits(h));
        out.push(b);
    }
    out
}

/// The report over the records at or after `cutoff` (all of them when there
/// is none), where `times[m]` is the local time of record `m` and the
/// models named in `priced_models` have a price.
pub fn summarize(
    records: &[Record],
    times: &[LocalTime],
    priced_models: &[String],
    cutoff: Option<i64>,
    window_hours: Option<i64>,
) -> (r: Report)
    requires
        times.len() == records.len(),
    ensures
        describes(r, records@, times@, priced_models@, cutoff, window_hours),
{
    let flags = price_flag_list(records, priced_models);
    let totals = add_totals(records, cutoff, &flags);
    let models = model_key_list(records);
    let by_model = group(records, cutoff, &models, &flags);
    let by_key = per_key(records, times, cutoff, &flags);
    let hours = hour_key_list(times);
    let by_hour = group(records, cutoff, &hours, &flags);
    let by_hour_of_day = per_clock_hour(records, times, cutoff, &flags);
    let days = day_key_list(times);
    let by_day = group(records, cutoff, &days, &flags);
    let w = in_window_positions(records, cutoff);
    let (first_seen, last_seen) = if w.len() > 0 {
        (Some(times[w[0]].rfc3339.clone()), Some(times[w[w.len() - 1]].rfc3339.clone()))
    } else {
        (None, None)
    };
    Report { totals, by_model, by_key, by_hour, by_hour_of_day, by_day, first_seen, last_seen, window_hours }
}

/// The positions of the records in the window, in log order.
fn in_window_positions(records: &[Record], cutoff: Option<i64>) -> (w: Vec<usize>)
    ensures
        w@ == window(records@, cutoff, records.len() as int),
        forall|i: int| 0 <= i < w.len() ==> #[trigger] w@[i] < records.len(),
{
    let mut w: Vec<usize> = Vec::new();
    for n in 0..records.len()
        invariant
            w@ == window(records@, cutoff, n as int),
    {
        let inside = match cutoff {
            None => true,
            Some(c) => records[n].ts >= c,
        };
        if inside {
            w.push(n);
        }
    }
    proof {
        lemma_window_within(records@, cutoff, records.len() as int);
    }
    w
}

/// Where a window of `window_hours` hours ends, measured back from `now`
/// (Unix seconds); no window means no cutoff. The subtraction wraps, as
/// the integers do in a release build.
pub open spec fn window_cutoff(now: i64, window_hours: Option<i64>) -> Option<i64> {
    match window_hours {
        None => None,
        Some(h) => Some(now.wrapping_sub(h.wrapping_mul(3600))),
    }
}

/// The report over the last `window_hours` hours before `now`, or over the
/// whole log, where `times[m]` is the local time of record `m` and the
/// models named in `priced_models` have a price.
pub fn summarize_at(
    records: &[Record],
    times: &[LocalTime],
    priced_models: &[String],
    now: i64,
    window_hours: Option<i64>,
) -> (r: Report)
    requires
        times.len() == records.len(),
    ensures
        describes(r, records@, times@, priced_models@, window_cutoff(now, window_hours), window_hours),
{
    let cutoff = match window_hours {
        None => None,
        Some(h) => Some(now.wrapping_sub(h.wrapping_mul(3600))),
    };
    summarize(records, times, priced_models, cutoff, window_hours)
}

/// The usage report over the last `window_hours` hours of the log, or over
/// all of it. The window is measured back from the clock, and hours, days
/// and last uses are told in the machine's local time: the report is that
/// of `summarize_at` for the clock's reading and the records' local times.
pub fn report(records: &[Record], priced_models: &[String], window_hours: Option<i64>) -> (r: Report)
    ensures
        exists|times: Seq<LocalTime>, now: i64|
            {
                &&& times.len() == records.len()
                &&& forall|m: int| 0 <= m < times.len() ==> #[trigger] reading_of(times[m], records@[m].ts)
                &&& describes(r, records@, times, priced_models@, window_cutoff(now, window_hours), window_hours)
            },
{
    let now = match window_hours {
        None => 0,
        Some(_) => now_unix(),
    };
    let mut times: Vec<LocalTime> = Vec::new();
    for n in 0..records.len()
        invariant
            times.len() == n,
            forall|m: int| 0 <= m < n ==> #[trigger] reading_of(times@[m], records@[m].ts),
    {
        times.push(local_time(records[n].ts));
    }
    summarize_at(records, &times, priced_models, now, window_hours)
}


// --- every view adds up to the totals ---------------------------------------

/// The requests of a view, added up.
pub open spec fn requests_in(bs: Seq<Bucket>) -> nat
    decreases bs.len(),
{
    if bs.len() == 0 {
        0
    } else {
        requests_in(bs.drop_last()) + bs.last().requests as nat
    }
}

/// How many of `keys` are `x`.
pub open spec fn occurrences(keys: Seq<Seq<char>>, x: Seq<char>) -> nat
    decreases keys.len(),
{
    if keys.len() == 0 {
        0
    } else {
        occurrences(keys.drop_last(), x) + if keys.last() == x { 1nat } else { 0nat }
    }
}

/// The members of each of `keys` among the first `n` records, counted.
pub open spec fn member_total(
    records: Seq<Record>,
    cutoff: Option<i64>,
    ks: Seq<Seq<char>>,
    keys: Seq<Seq<char>>,
    n: int,
) -> nat
    decreases keys.len(),
{
    if keys.len() == 0 {
        0
    } else {
        member_total(records, cutoff, ks, keys.drop_last(), n) + members(records, cutoff, ks, keys.last(), n).len()
    }
}

proof fn lemma_member_total_step(
    records: Seq<Record>,
    cutoff: Option<i64>,
    ks: Seq<Seq<char>>,
    keys: Seq<Seq<char>>,
    n: int,
)
    requires
        0 <= n,
    ensures
        member_total(records, cutoff, ks, keys, n + 1) == member_total(records, cutoff, ks, keys, n) + if in_window(
            records[n],
            cutoff,
        ) {
            occurrences(keys, ks[n])
        } else {
            0
        },
    decreases keys.len(),
{
    if keys.len() > 0 {
        lemma_member_total_step(records, cutoff, ks, keys.drop_last(), n);
    }
}

/// In a list without repeats a key occurs once, or not at all.
proof fn lemma_occurs_once(keys: Seq<Seq<char>>, x: Seq<char>)
    requires
        forall|i: int, j: int| 0 <= i < keys.len() && 0 <= j < keys.len() && i != j ==> keys[i] != keys[j],
    ensures
        occurrences(keys, x) == if keys.contains(x) { 1nat } else { 0nat },
    decreases keys.len(),
{
    if keys.len() > 0 {
        let init = keys.drop_last();
        assert forall|i: int, j: int| 0 <= i < init.len() && 0 <= j < init.len() && i != j implies init[i] != init[j] by {
            assert(init[i] == keys[i] && init[j] == keys[j]);
        }
        lemma_occurs_once(init, x);
        if keys.last() == x && init.contains(x) {
            let i = choose|i: int| 0 <= i < init.len() && init[i] == x;
            assert(keys[i] == keys[keys.len() - 1]);
        }
        if keys.contains(x) && keys.last() != x {
            let i = choose|i: int| 0 <= i < keys.len() && keys[i] == x;
            assert(init[i] == x);
        }
    }
}

/// Keys without repeats that cover every windowed record count every
/// windowed record exactly once.
proof fn lemma_member_total_is_window(
    records: Seq<Record>,
    cutoff: Option<i64>,
    ks: Seq<Seq<char>>,
    keys: Seq<Seq<char>>,
    n: int,
)
    requires
        0 <= n <= records.len(),
        forall|i: int, j: int| 0 <= i < keys.len() && 0 <= j < keys.len() && i != j ==> keys[i] != keys[j],
        forall|m: int| 0 <= m < records.len() && in_window(records[m], cutoff) ==> keys.contains(#[trigger] ks[m]),
    ensures
        member_total(records, cutoff, ks, keys, n) == window(records, cutoff, n).len(),
    decreases n,
{
    if n == 0 {
        lemma_member_total_zero(records, cutoff, ks, keys);
    } else {
        lemma_member_total_is_window(records, cutoff, ks, keys, n - 1);
        lemma_member_total_step(records, cutoff, ks, keys, n - 1);
        lemma_occurs_once(keys, ks[n - 1]);
    }
}

proof fn lemma_member_total_zero(records: Seq<Record>, cutoff: Option<i64>, ks: Seq<Seq<char>>, keys: Seq<Seq<char>>)
    ensures
        member_total(records, cutoff, ks, keys, 0) == 0,
    decreases keys.len(),
{
    if keys.len() > 0 {
        lemma_member_total_zero(records, cutoff, ks, keys.drop_last());
    }
}

pub open spec fn keys_of(bs: Seq<Bucket>) -> Seq<Seq<char>> {
    bs.map_values(|b: Bucket| b.key@)
}

/// Buckets that count their keys add up to the members of their keys.
proof fn lemma_requests_are_members(
    bs: Seq<Bucket>,
    records: Seq<Record>,
    cutoff: Option<i64>,
    ks: Seq<Seq<char>>,
    flags: Seq<bool>,
)
    requires
        forall|i: int| 0 <= i < bs.len() ==> counts(#[trigger] bs[i], records, cutoff, ks, flags),
    ensures
        requests_in(bs) == member_total(records, cutoff, ks, keys_of(bs), records.len() as int),
    decreases bs.len(),
{
    if bs.len() > 0 {
        let init = bs.drop_last();
        assert forall|i: int| 0 <= i < init.len() implies counts(#[trigger] init[i], records, cutoff, ks, flags) by {
            assert(init[i] == bs[i]);
        }
        lemma_requests_are_members(init, records, cutoff, ks, flags);
        assert(keys_of(bs).drop_last() =~= keys_of(init));
        assert(counts(bs[bs.len() - 1], records, cutoff, ks, flags));
    }
}

/// A view with one bucket per key, without repeats, covering every
/// windowed record adds up to the number of windowed records.
proof fn lemma_view_adds_up(
    bs: Seq<Bucket>,
    records: Seq<Record>,
    cutoff: Option<i64>,
    ks: Seq<Seq<char>>,
    flags: Seq<bool>,
)
    requires
        records.len() <= usize::MAX,
        forall|i: int| 0 <= i < bs.len() ==> counts(#[trigger] bs[i], records, cutoff, ks, flags),
        forall|i: int, j: int| 0 <= i < bs.len() && 0 <= j < bs.len() && i != j ==> bs[i].key@ != bs[j].key@,
        forall|m: int| 0 <= m < records.len() && in_window(records[m], cutoff) ==> has_bucket(bs, #[trigger] ks[m]),
    ensures
        requests_in(bs) == window(records, cutoff, records.len() as int).len(),
{
    let keys = keys_of(bs);
    lemma_requests_are_members(bs, records, cutoff, ks, flags);
    assert forall|m: int| 0 <= m < records.len() && in_window(records[m], cutoff) implies keys.contains(#[trigger] ks[m]) by {
        assert(has_bucket(bs, ks[m]));
        let i = choose|i: int| 0 <= i < bs.len() && #[trigger] bs[i].key@ == ks[m];
        assert(keys[i] == ks[m]);
    }
    lemma_member_total_is_window(records, cutoff, ks, keys, records.len() as int);
}

proof fn lemma_sorted_keys_differ(bs: Seq<Bucket>)
    requires
        forall|i: int, j: int| 0 <= i < j < bs.len() ==> seq_lt(#[trigger] bs[i].key@, #[trigger] bs[j].key@),
    ensures
        forall|i: int, j: int| 0 <= i < bs.len() && 0 <= j < bs.len() && i != j ==> bs[i].key@ != bs[j].key@,
{
    assert forall|i: int, j: int| 0 <= i < bs.len() && 0 <= j < bs.len() && i != j implies bs[i].key@ != bs[j].key@ by {
        if i < j {
            assert(seq_lt(bs[i].key@, bs[j].key@));
            lemma_lt_irreflexive(bs[i].key@);
        } else {
            assert(seq_lt(bs[j].key@, bs[i].key@));
            lemma_lt_irreflexive(bs[j].key@);
        }
    }
}

/// Every sliced view of a report counts each request of its window exactly
/// once: the per-model, per-key, per-hour and per-day requests each add up
/// to the total. Requests made with no key are in the per-key view too.
pub proof fn law_views_add_up_to_the_totals(
    r: Report,
    records: Seq<Record>,
    times: Seq<LocalTime>,
    priced_models: Seq<String>,
    cutoff: Option<i64>,
    window_hours: Option<i64>,
)
    requires
        records.len() <= usize::MAX,
        describes(r, records, times, priced_models, cutoff, window_hours),
    ensures
        requests_in(r.by_model@) == r.totals.requests,
        requests_in(r.by_key@) == r.totals.requests,
        requests_in(r.by_hour@) == r.totals.requests,
        requests_in(r.by_day@) == r.totals.requests,
{
    let flags = price_flags(records, priced_models);
    lemma_sorted_keys_differ(r.by_model@);
    lemma_view_adds_up(r.by_model@, records, cutoff, model_keys(records), flags);
    lemma_sorted_keys_differ(r.by_hour@);
    lemma_view_adds_up(r.by_hour@, records, cutoff, hour_keys(times), flags);
    lemma_sorted_keys_differ(r.by_day@);
    lemma_view_adds_up(r.by_day@, records, cutoff, day_keys(times), flags);
    let bk = r.by_key@;
    let ks = key_ids(records);
    assert forall|i: int, j: int| 0 <= i < bk.len() && 0 <= j < bk.len() && i != j implies bk[i].key@ != bk[j].key@ by {
        if bk[i].key@ == bk[j].key@ {
            assert(counts(bk[i], records, cutoff, ks, flags));
            assert(counts(bk[j], records, cutoff, ks, flags));
            assert(bk[i].requests == bk[j].requests);
            if i < j {
                assert(busier(bk[i], bk[j]));
                lemma_lt_irreflexive(bk[i].key@);
            } else {
                assert(busier(bk[j], bk[i]));
                lemma_lt_irreflexive(bk[j].key@);
            }
        }
    }
    lemma_view_adds_up(bk, records, cutoff, ks, flags);
}


/// A number below 100 as two digits.
proof fn lemma_two_digits(h: int)
    requires
        0 <= h < 100,
    ensures
        padded(h, 2) == seq![crate::text::digit((h / 10) as nat), crate::text::digit((h % 10) as nat)],
{
    crate::text::lemma_decimal_len(h as nat);
    if h < 10 {
        assert(zeros(1) =~= seq!['0']) by {
            assert(zeros(0) =~= Seq::<char>::empty());
        }
        assert(decimal(h as nat) =~= seq![crate::text::digit(h as nat)]);
        assert(padded(h, 2) =~= seq!['0', crate::text::digit(h as nat)]);
    } else {
        crate::text::lemma_decimal_len((h / 10) as nat);
        assert(zeros(0) =~= Seq::<char>::empty());
        assert(decimal((h / 10) as nat) =~= seq![crate::text::digit((h / 10) as nat)]);
        assert(padded(h, 2) =~= seq![crate::text::digit((h / 10) as nat), crate::text::digit((h % 10) as nat)]);
    }
}

proof fn lemma_clock_keys_differ(a: int, b: int)
    requires
        0 <= a < 24,
        0 <= b < 24,
        a != b,
    ensures
        padded(a, 2) != padded(b, 2),
{
    lemma_two_digits(a);
    lemma_two_digits(b);
    if padded(a, 2) == padded(b, 2) {
        assert(padded(a, 2)[0] == padded(b, 2)[0]);
        assert(padded(a, 2)[1] == padded(b, 2)[1]);
        assert(crate::text::digit((a / 10) as nat) as u32 == (a / 10) + 48);
        assert(crate::text::digit((b / 10) as nat) as u32 == (b / 10) + 48);
        assert(crate::text::digit((a % 10) as nat) as u32 == (a % 10) + 48);
        assert(crate::text::digit((b % 10) as nat) as u32 == (b % 10) + 48);
    }
}

/// The hour-of-day view counts each request of the window once, in the
/// slot of the hour it was made in, so its twenty-four slots add up to the
/// total.
pub proof fn law_clock_hours_add_up_to_the_totals(
    r: Report,
    records: Seq<Record>,
    times: Seq<LocalTime>,
    priced_models: Seq<String>,
    cutoff: Option<i64>,
    window_hours: Option<i64>,
)
    requires
        records.len() <= usize::MAX,
        times.len() == records.len(),
        forall|m: int| 0 <= m < times.len() ==> #[trigger] times[m].hour < 24,
        describes(r, records, times, priced_models, cutoff, window_hours),
    ensures
        requests_in(r.by_hour_of_day@) == r.totals.requests,
{
    let flags = price_flags(records, priced_models);
    let bs = r.by_hour_of_day@;
    let ks = clock_hour_keys(times);
    assert forall|i: int| 0 <= i < bs.len() implies counts(#[trigger] bs[i], records, cutoff, ks, flags) by {
        assert(bs[i].key@ == padded(i, 2));
    }
    assert forall|i: int, j: int| 0 <= i < bs.len() && 0 <= j < bs.len() && i != j implies bs[i].key@ != bs[j].key@ by {
        assert(bs[i].key@ == padded(i, 2));
        assert(bs[j].key@ == padded(j, 2));
        lemma_clock_keys_differ(i, j);
    }
    assert forall|m: int| 0 <= m < records.len() && in_window(records[m], cutoff) implies has_bucket(bs, #[trigger] ks[m]) by {
        let h = times[m].hour as int;
        assert(bs[h].key@ == padded(h, 2));
        assert(ks[m] == padded(h, 2));
    }
    lemma_view_adds_up(bs, records, cutoff, ks, flags);
}

} // verus!
