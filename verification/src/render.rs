//! The small renderings the shells print: grouped numbers, names cut to a
//! column, timestamps cut to the minute, and the lines about keys.

use vstd::prelude::*;
use crate::json::str_eq;
use crate::keys::KeyStore;
use crate::stats::Bucket;
use crate::text::{chars_of, concat, decimal, string_of, u64_to_decimal};

verus! {

broadcast use vstd::string::group_string_axioms;

/// The first `i` digits of `d`, with a comma wherever a group of three
/// digits starts after the first.
pub open spec fn grouping(d: Seq<char>, i: int) -> Seq<char>
    decreases i,
{
    if i <= 0 {
        Seq::empty()
    } else {
        grouping(d, i - 1) + (if i - 1 > 0 && (d.len() - (i - 1)) % 3 == 0 {
            seq![',']
        } else {
            Seq::empty()
        }) + seq![d[i - 1]]
    }
}

/// `n` in decimal with its digits grouped in threes: `1,234,567`.
pub open spec fn thousands_v(n: nat) -> Seq<char> {
    grouping(decimal(n), decimal(n).len() as int)
}

pub fn thousands(n: u64) -> (r: String)
    ensures
        r@ == thousands_v(n as nat),
{
    let s = u64_to_decimal(n);
    let d = chars_of(s.as_str());
    let len = d.len();
    let mut out = String::new();
    for i in 0..len
        invariant
            len == d@.len(),
            d@ == decimal(n as nat),
            out@ == grouping(d@, i as int),
    {
        if i > 0 && (len - i) % 3 == 0 {
            out.push(',');
        }
        out.push(d[i]);
        assert(out@ =~= grouping(d@, i + 1));
    }
    out
}

/// At most `width` characters of `s`: a longer name keeps `width - 1` of
/// them and ends in an ellipsis. Characters are counted, not bytes, so no
/// character is ever cut in half.
pub open spec fn truncated(s: Seq<char>, width: int) -> Seq<char> {
    if s.len() <= width {
        s
    } else {
        s.take(width - 1).push('…')
    }
}

pub fn truncate(s: &str, width: usize) -> (r: String)
    requires
        width > 0 || s@.len() == 0,
    ensures
        r@ == truncated(s@, width as int),
{
    let cs = chars_of(s);
    if cs.len() <= width {
        return s.to_string();
    }
    let mut out = string_of(&cs.as_slice()[0..width - 1]);
    out.push('…');
    assert(out@ =~= truncated(s@, width as int));
    out
}

/// How many bytes UTF-8 takes for a character.
pub open spec fn utf8_width(c: char) -> nat {
    let u = c as u32;
    if u < 0x80 {
        1
    } else if u < 0x800 {
        2
    } else if u < 0x10000 {
        3
    } else {
        4
    }
}

/// How many bytes UTF-8 takes for the first `k` characters of `s`.
pub open spec fn byte_len(s: Seq<char>, k: int) -> nat
    decreases k,
{
    if k <= 0 {
        0
    } else {
        byte_len(s, k - 1) + utf8_width(s[k - 1])
    }
}

/// The first 16 bytes of a text, as `get(0..16)` gives them: only where
/// they end at a character boundary.
pub open spec fn first_16_bytes(s: Seq<char>) -> Option<Seq<char>> {
    if exists|k: int| 0 <= k <= s.len() && byte_len(s, k) == 16 {
        Some(s.take(choose|k: int| 0 <= k <= s.len() && byte_len(s, k) == 16))
    } else {
        None
    }
}

/// An RFC 3339 timestamp cut to the minute, `T` turned into a space:
/// all this table has room for, and all anyone reads off it.
pub open spec fn short_time_v(s: Seq<char>) -> Seq<char> {
    let cut = match first_16_bytes(s) {
        Some(p) => p,
        None => s,
    };
    cut.map_values(|c: char| if c == 'T' { ' ' } else { c })
}

fn char_width(c: char) -> (r: usize)
    ensures
        r == utf8_width(c),
{
    let u = c as u32;
    if u < 0x80 {
        1
    } else if u < 0x800 {
        2
    } else if u < 0x10000 {
        3
    } else {
        4
    }
}

proof fn lemma_byte_len_grows(s: Seq<char>, a: int, b: int)
    requires
        0 <= a < b <= s.len(),
    ensures
        byte_len(s, a) < byte_len(s, b),
    decreases b - a,
{
    if a + 1 < b {
        lemma_byte_len_grows(s, a, b - 1);
    }
}

pub fn short_time(rfc3339: &str) -> (r: String)
    ensures
        r@ == short_time_v(rfc3339@),
{
    let cs = chars_of(rfc3339);
    let mut bytes: usize = 0;
    let mut k: usize = 0;
    while k < cs.len() && bytes < 16
        invariant
            cs@ == rfc3339@,
            k <= cs.len(),
            bytes == byte_len(cs@, k as int),
            forall|j: int| 0 <= j < k ==> byte_len(cs@, j) < 16,
        decreases cs.len() - k,
    {
        bytes = bytes + char_width(cs[k]);
        k = k + 1;
    }
    let end = if bytes == 16 {
        k
    } else {
        cs.len()
    };
    proof {
        let s = cs@;
        if bytes == 16 {
            assert(byte_len(s, k as int) == 16);
            let w = choose|w: int| 0 <= w <= s.len() && byte_len(s, w) == 16;
            if w < k {
                lemma_byte_len_grows(s, w, k as int);
            } else if w > k {
                lemma_byte_len_grows(s, k as int, w);
            }
            assert(first_16_bytes(s) == Some(s.take(k as int)));
        } else {
            assert forall|w: int| 0 <= w <= s.len() implies byte_len(s, w) != 16 by {
                if w < k {
                } else if w == k {
                } else {
                    lemma_byte_len_grows(s, k as int, w);
                }
            }
            assert(first_16_bytes(s) is None);
        }
    }
    let mut out = String::new();
    for i in 0..end
        invariant
            end <= cs.len(),
            out@ == cs@.take(end as int).take(i as int).map_values(|c: char| if c == 'T' { ' ' } else { c }),
    {
        let c = cs[i];
        out.push(if c == 'T' { ' ' } else { c });
        assert(cs@.take(end as int).take(i + 1) =~= cs@.take(end as int).take(i as int).push(c));
        assert(out@ =~= cs@.take(end as int).take(i + 1).map_values(|c: char| if c == 'T' { ' ' } else { c }));
    }
    assert(cs@.take(end as int).take(end as int) =~= cs@.take(end as int));
    proof {
        if end == cs.len() {
            assert(cs@.take(end as int) =~= cs@);
        }
    }
    out
}

/// Where the bucket for `key` is in a view, if there is one.
pub fn find_bucket(buckets: &Vec<Bucket>, key: &str) -> (r: Option<usize>)
    ensures
        match r {
            Some(i) => i < buckets.len() && buckets@[i as int].key@ == key@ && forall|j: int|
                0 <= j < i ==> #[trigger] buckets@[j].key@ != key@,
            None => forall|j: int| 0 <= j < buckets.len() ==> #[trigger] buckets@[j].key@ != key@,
        },
{
    for i in 0..buckets.len()
        invariant
            forall|j: int| 0 <= j < i ==> #[trigger] buckets@[j].key@ != key@,
    {
        if str_eq(buckets[i].key.as_str(), key) {
            return Some(i);
        }
    }
    None
}

/// How many keys are live.
pub open spec fn live_count(keys: Seq<crate::keys::ApiKey>) -> nat
    decreases keys.len(),
{
    if keys.len() == 0 {
        0
    } else {
        live_count(keys.drop_last()) + if keys.last().revoked { 0nat } else { 1nat }
    }
}

pub fn active_keys(store: &KeyStore) -> (r: usize)
    ensures
        r == live_count(store.keys@),
{
    let mut n: usize = 0;
    for i in 0..store.keys.len()
        invariant
            n == live_count(store.keys@.take(i as int)),
            n <= i,
    {
        assert(store.keys@.take(i + 1).drop_last() =~= store.keys@.take(i as int));
        if !store.keys[i].revoked {
            n = n + 1;
        }
    }
    assert(store.keys@.take(store.keys@.len() as int) =~= store.keys@);
    n
}

/// The status line about API keys: none means any local caller is let in.
pub open spec fn keys_line(active: nat, legacy: bool) -> Seq<char> {
    if active == 0 && !legacy {
        "none - the server accepts any local caller"@
    } else if active == 0 {
        "1 (the legacy key in config.toml)"@
    } else if !legacy {
        decimal(active) + " active"@
    } else {
        decimal(active) + " active, plus the legacy key in config.toml"@
    }
}

pub fn api_keys_line(active: u64, legacy: bool) -> (r: String)
    ensures
        r@ == keys_line(active as nat, legacy),
{
    if active == 0 && !legacy {
        "none - the server accepts any local caller".to_string()
    } else if active == 0 {
        "1 (the legacy key in config.toml)".to_string()
    } else if !legacy {
        concat(u64_to_decimal(active).as_str(), " active")
    } else {
        concat(u64_to_decimal(active).as_str(), " active, plus the legacy key in config.toml")
    }
}


/// A cut name fits its column, and a name that fits is left whole.
pub proof fn law_truncation_fits(s: Seq<char>, width: int)
    requires
        width > 0,
    ensures
        truncated(s, width).len() <= width,
        s.len() <= width ==> truncated(s, width) == s,
        s.len() > width ==> truncated(s, width).take(width - 1) == s.take(width - 1),
{
    if s.len() > width {
        assert(truncated(s, width).take(width - 1) =~= s.take(width - 1));
    }
}

/// The test for a character that is not a comma.
pub open spec fn not_comma() -> spec_fn(char) -> bool {
    |c: char| c != ','
}

proof fn lemma_digit_is_not_comma(x: nat)
    ensures
        crate::text::digit(x) != ',',
{
    assert(crate::text::digit(x) as u32 == (x % 10) + 48);
}

proof fn lemma_decimal_has_no_comma(n: nat)
    ensures
        forall|j: int| 0 <= j < decimal(n).len() ==> #[trigger] decimal(n)[j] != ',',
    decreases n,
{
    if n >= 10 {
        lemma_decimal_has_no_comma(n / 10);
        lemma_digit_is_not_comma(n % 10);
        let d = decimal(n);
        assert forall|j: int| 0 <= j < d.len() implies #[trigger] d[j] != ',' by {
            if j < d.len() - 1 {
                assert(d[j] == decimal(n / 10)[j]);
            }
        }
    } else {
        lemma_digit_is_not_comma(n);
    }
}

proof fn lemma_grouping_keeps_digits(d: Seq<char>, i: int)
    requires
        0 <= i <= d.len(),
        forall|j: int| 0 <= j < d.len() ==> #[trigger] d[j] != ',',
    ensures
        grouping(d, i).filter(not_comma()) == d.take(i),
    decreases i,
{
    reveal_with_fuel(Seq::filter, 2);
    if i == 0 {
        assert(d.take(0) =~= Seq::<char>::empty());
    } else {
        lemma_grouping_keeps_digits(d, i - 1);
        let g = grouping(d, i - 1);
        let sep: Seq<char> = if i - 1 > 0 && (d.len() - (i - 1)) % 3 == 0 {
            seq![',']
        } else {
            Seq::empty()
        };
        Seq::filter_distributes_over_add(g + sep, seq![d[i - 1]], not_comma());
        Seq::filter_distributes_over_add(g, sep, not_comma());
        assert(sep.filter(not_comma()) =~= Seq::<char>::empty());
        assert(seq![d[i - 1]].filter(not_comma()) =~= seq![d[i - 1]]);
        assert(d.take(i) =~= d.take(i - 1).push(d[i - 1]));
    }
}

/// Taking the commas out of a grouped number gives back its decimal digits:
/// grouping only adds separators.
pub proof fn law_grouping_keeps_the_digits(n: nat)
    ensures
        thousands_v(n).filter(not_comma()) == decimal(n),
{
    lemma_decimal_has_no_comma(n);
    lemma_grouping_keeps_digits(decimal(n), decimal(n).len() as int);
    assert(decimal(n).take(decimal(n).len() as int) =~= decimal(n));
}

/// How many commas the first `i` digits of a number of `l` digits carry.
pub open spec fn commas_before(l: int, i: int) -> int {
    if i <= 0 {
        0
    } else {
        (l - 1) / 3 - (l - i) / 3
    }
}

/// Where the grouped text is `f` long, a comma stands exactly where the
/// distance to the end is a multiple of four.
pub open spec fn commas_every_fourth(g: Seq<char>, f: int) -> bool {
    forall|k: int| 0 <= k < g.len() ==> (#[trigger] g[k] == ',' <==> (k > 0 && (f - k) % 4 == 0))
}

proof fn lemma_grouping_positions(d: Seq<char>, i: int)
    requires
        0 <= i <= d.len(),
        d.len() >= 1,
        forall|j: int| 0 <= j < d.len() ==> #[trigger] d[j] != ',',
    ensures
        grouping(d, i).len() == i + commas_before(d.len() as int, i),
        commas_every_fourth(grouping(d, i), d.len() + (d.len() - 1) / 3),
    decreases i,
{
    let l = d.len() as int;
    let f = l + (l - 1) / 3;
    if i > 0 {
        lemma_grouping_positions(d, i - 1);
        let g = grouping(d, i - 1);
        let has_sep = i - 1 > 0 && (l - (i - 1)) % 3 == 0;
        let sep: Seq<char> = if has_sep { seq![','] } else { Seq::empty() };
        let h = grouping(d, i);
        assert(h == g + sep + seq![d[i - 1]]);
        assert(commas_before(l, i) == commas_before(l, i - 1) + if has_sep { 1int } else { 0int }) by {
            if i - 1 == 0 {
                assert(commas_before(l, 1) == 0);
            } else {
                assert((l - i + 1) / 3 - (l - i) / 3 == if (l - i + 1) % 3 == 0 { 1int } else { 0int });
            }
        }
        let m = l - i;
        assert((m + 1 + m / 3) % 4 != 0) by {
            assert(m >= 0);
        }
        assert forall|k: int| 0 <= k < h.len() implies (#[trigger] h[k] == ',' <==> (k > 0 && (f - k) % 4 == 0)) by {
            if k < g.len() {
                assert(h[k] == g[k]);
            } else if has_sep && k == g.len() {
                assert(h[k] == ',');
                assert((f - k) == (l - i + 1) + (l - i + 1) / 3);
            } else {
                assert(k == h.len() - 1);
                assert(h[k] == d[i - 1]);
                assert(f - k == m + 1 + m / 3);
            }
        }
    }
}

/// Counting from the right, every fourth character of a grouped number is
/// a comma and no other is: every group after the first has three digits,
/// and the first has one to three.
pub proof fn law_grouping_makes_groups_of_three(n: nat)
    ensures
        thousands_v(n).len() % 4 != 0,
        commas_every_fourth(thousands_v(n), thousands_v(n).len() as int),
{
    let d = decimal(n);
    crate::text::lemma_decimal_len(n);
    lemma_decimal_has_no_comma(n);
    lemma_grouping_positions(d, d.len() as int);
    let l = d.len() as int;
    assert(thousands_v(n).len() == l + (l - 1) / 3);
    assert((l + (l - 1) / 3) % 4 != 0) by {
        let q = l - 1;
        assert(q >= 0);
        assert(q + 1 + q / 3 == l + (l - 1) / 3);
    }
}

} // verus!


