//! The order of strings by code point, as the report sorts its keys.

use vstd::prelude::*;
use crate::json::str_eq;
use crate::text::chars_of;

verus! {

/// `a` sorts strictly before `b`: at the first difference `a` has the
/// smaller code point, or `a` is a proper prefix of `b`. For UTF-8 strings
/// this is the byte order `String`'s `Ord` uses.
pub open spec fn seq_lt(a: Seq<char>, b: Seq<char>) -> bool
    decreases a.len(),
{
    if a.len() == 0 {
        b.len() > 0
    } else if b.len() == 0 {
        false
    } else if (a[0] as u32) < (b[0] as u32) {
        true
    } else if a[0] == b[0] {
        seq_lt(a.drop_first(), b.drop_first())
    } else {
        false
    }
}

pub proof fn lemma_lt_irreflexive(a: Seq<char>)
    ensures
        !seq_lt(a, a),
    decreases a.len(),
{
    if a.len() > 0 {
        lemma_lt_irreflexive(a.drop_first());
    }
}

pub proof fn lemma_lt_transitive(a: Seq<char>, b: Seq<char>, c: Seq<char>)
    requires
        seq_lt(a, b),
        seq_lt(b, c),
    ensures
        seq_lt(a, c),
    decreases a.len(),
{
    if a.len() > 0 && b.len() > 0 && c.len() > 0 {
        if a[0] == b[0] && b[0] == c[0] {
            lemma_lt_transitive(a.drop_first(), b.drop_first(), c.drop_first());
        }
    }
}

pub proof fn lemma_lt_total(a: Seq<char>, b: Seq<char>)
    requires
        a != b,
    ensures
        seq_lt(a, b) || seq_lt(b, a),
    decreases a.len(),
{
    if a.len() > 0 && b.len() > 0 && a[0] == b[0] {
        if a.drop_first() == b.drop_first() {
            assert(a =~= seq![a[0]] + a.drop_first());
            assert(b =~= seq![b[0]] + b.drop_first());
        }
        lemma_lt_total(a.drop_first(), b.drop_first());
    } else if a.len() == 0 && b.len() == 0 {
        assert(a =~= b);
    } else if a.len() > 0 && b.len() > 0 {
        lemma_code_points_differ(a[0], b[0]);
    }
}

proof fn lemma_code_points_differ(c: char, d: char)
    requires
        c != d,
    ensures
        (c as u32) != (d as u32),
{
}

/// Whether `a` sorts strictly before `b`.
pub fn str_lt(a: &str, b: &str) -> (r: bool)
    ensures
        r == seq_lt(a@, b@),
{
    let x = chars_of(a);
    let y = chars_of(b);
    let mut i: usize = 0;
    proof {
        assert(x@.skip(0) =~= x@);
        assert(y@.skip(0) =~= y@);
    }
    while i < x.len() && i < y.len() && x[i] == y[i]
        invariant
            i <= x@.len(),
            i <= y@.len(),
            seq_lt(x@, y@) == seq_lt(x@.skip(i as int), y@.skip(i as int)),
        decreases x.len() - i,
    {
        assert(x@.skip(i as int).drop_first() =~= x@.skip(i + 1));
        assert(y@.skip(i as int).drop_first() =~= y@.skip(i + 1));
        i = i + 1;
    }
    if i == x.len() {
        i < y.len()
    } else if i == y.len() {
        false
    } else {
        (x[i] as u32) < (y[i] as u32)
    }
}


/// Strings in strictly increasing order, so also without repeats.
pub open spec fn sorted_strings(s: Seq<String>) -> bool {
    forall|i: int, j: int| 0 <= i < j < s.len() ==> seq_lt(#[trigger] s[i]@, #[trigger] s[j]@)
}

/// Some string of `s` reads `k`.
pub open spec fn lists(s: Seq<String>, k: Seq<char>) -> bool {
    exists|i: int| 0 <= i < s.len() && #[trigger] s[i]@ == k
}

/// Inserting a string that is absent at the place `locate` finds keeps the
/// strings sorted, and keeps every string that was there.
pub proof fn lemma_insert_sorted(before: Seq<String>, pos: int, k: String)
    requires
        sorted_strings(before),
        0 <= pos <= before.len(),
        forall|i: int| 0 <= i < pos ==> seq_lt(#[trigger] before[i]@, k@),
        forall|i: int| pos <= i < before.len() ==> !seq_lt(#[trigger] before[i]@, k@),
        !lists(before, k@),
    ensures
        sorted_strings(before.insert(pos, k)),
        lists(before.insert(pos, k), k@),
        forall|x: Seq<char>| lists(before, x) ==> #[trigger] lists(before.insert(pos, k), x),
{
    let after = before.insert(pos, k);
    assert forall|a: int, b: int| 0 <= a < b < after.len() implies seq_lt(
        #[trigger] after[a]@,
        #[trigger] after[b]@,
    ) by {
        if a < pos && b == pos {
        } else if a == pos && b > pos {
            let x = before[b - 1]@;
            assert(!seq_lt(x, k@));
            if x == k@ {
                assert(lists(before, k@));
            } else {
                lemma_lt_total(x, k@);
            }
        } else if a < pos && b > pos {
            assert(seq_lt(before[a]@, before[b - 1]@));
        } else if a > pos {
            assert(seq_lt(before[a - 1]@, before[b - 1]@));
        }
    }
    assert(after[pos]@ == k@);
    assert forall|x: Seq<char>| lists(before, x) implies #[trigger] lists(after, x) by {
        let w = choose|w: int| 0 <= w < before.len() && #[trigger] before[w]@ == x;
        if w < pos {
            assert(after[w]@ == x);
        } else {
            assert(after[w + 1]@ == x);
        }
    }
}

/// Where `k` belongs in the sorted `keys`: how many keys sort before it, and
/// whether the key at that place is `k` itself.
pub fn locate(keys: &Vec<String>, k: &str) -> (r: (usize, bool))
    requires
        sorted_strings(keys@),
    ensures
        r.0 <= keys.len(),
        forall|i: int| 0 <= i < r.0 ==> seq_lt(#[trigger] keys@[i]@, k@),
        forall|i: int| r.0 <= i < keys.len() ==> !seq_lt(#[trigger] keys@[i]@, k@),
        r.1 == (r.0 < keys.len() && keys@[r.0 as int]@ == k@),
        r.1 == lists(keys@, k@),
{
    let mut lo: usize = 0;
    let mut hi: usize = keys.len();
    while lo < hi
        invariant
            lo <= hi <= keys.len(),
            sorted_strings(keys@),
            forall|i: int| 0 <= i < lo ==> seq_lt(#[trigger] keys@[i]@, k@),
            forall|i: int| hi <= i < keys.len() ==> !seq_lt(#[trigger] keys@[i]@, k@),
        decreases hi - lo,
    {
        let mid = lo + (hi - lo) / 2;
        if str_lt(keys[mid].as_str(), k) {
            proof {
                assert forall|i: int| 0 <= i < mid + 1 implies seq_lt(#[trigger] keys@[i]@, k@) by {
                    if i < mid {
                        lemma_lt_transitive(keys@[i]@, keys@[mid as int]@, k@);
                    }
                }
            }
            lo = mid + 1;
        } else {
            proof {
                assert forall|i: int| mid <= i < keys.len() implies !seq_lt(#[trigger] keys@[i]@, k@) by {
                    if i > mid && seq_lt(keys@[i]@, k@) {
                        lemma_lt_transitive(keys@[mid as int]@, keys@[i]@, k@);
                    }
                }
            }
            hi = mid;
        }
    }
    let found = lo < keys.len() && str_eq(keys[lo].as_str(), k);
    proof {
        if !found && lists(keys@, k@) {
            let i = choose|i: int| 0 <= i < keys@.len() && #[trigger] keys@[i]@ == k@;
            if i < lo {
                lemma_lt_irreflexive(k@);
            } else if i > lo {
                assert(seq_lt(keys@[lo as int]@, keys@[i]@));
            }
        }
    }
    (lo, found)
}

/// The distinct strings of `items`, in increasing order.
pub fn sorted_distinct(items: &Vec<String>) -> (out: Vec<String>)
    ensures
        sorted_strings(out@),
        forall|i: int| 0 <= i < items.len() ==> lists(out@, #[trigger] items@[i]@),
        forall|j: int| 0 <= j < out.len() ==> lists(items@, #[trigger] out@[j]@),
{
    let mut out: Vec<String> = Vec::new();
    for n in 0..items.len()
        invariant
            sorted_strings(out@),
            forall|i: int| 0 <= i < n ==> lists(out@, #[trigger] items@[i]@),
            forall|j: int| 0 <= j < out.len() ==> lists(items@, #[trigger] out@[j]@),
    {
        let (pos, found) = locate(&out, items[n].as_str());
        if !found {
            let ghost before = out@;
            out.insert(pos, items[n].clone());
            proof {
                lemma_insert_sorted(before, pos as int, items@[n as int]);
                assert forall|j: int| 0 <= j < out.len() implies lists(items@, #[trigger] out@[j]@) by {
                    if j == pos {
                        assert(items@[n as int]@ == out@[j]@);
                    } else if j < pos {
                        assert(out@[j] == before[j]);
                    } else {
                        assert(out@[j] == before[j - 1]);
                    }
                }
            }
        } else {
            proof {
                assert(out@[pos as int]@ == items@[n as int]@);
            }
        }
    }
    out
}

} // verus!
